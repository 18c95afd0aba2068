[package]
name = "pprof"
version = "0.1.0"
edition = "2021"
publish = false

[dependencies]
smallvec = "=1.16.4"
spin = "=0.10.1"
log = "0.4"
criterion = { version = "=0.5.1", default-features = false }
