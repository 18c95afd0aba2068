//! What can go wrong.

use vstd::prelude::*;

verus! {

/// Why a report could not be built.
#[derive(Debug)]
pub enum Error {
    /// There is no profiler: it could not be created.
    CreatingError,
    /// The file of the collector could not be read or truncated.
    IoError(std::io::Error),
    /// The file of the collector does not hold what was written to it.
    FileLength,
    /// A stack was counted more often than its count can tell.
    CountOverflow,
}

} // verus!
