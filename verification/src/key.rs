//! What a collector needs of the things that it counts.

use std::collections::hash_map::DefaultHasher;
use std::hash::Hasher;
use vstd::prelude::*;
use vstd::std_specs::hash::DefaultHasherAdditionalSpecFns;

verus! {

/// Something that can be counted: values of it can be told apart and hashed,
/// and values that count as the same have the same hash.
pub trait CounterKey: Sized {
    /// Whether the two values are counted together.
    spec fn same(&self, other: &Self) -> bool;

    /// The hash of the value.
    spec fn digest(&self) -> u64;

    /// Every value is the same as itself.
    proof fn law_same_reflexive(&self)
        ensures
            self.same(self),
    ;

    /// If one value is the same as another, the other is the same as the one.
    proof fn law_same_symmetric(&self, other: &Self)
        requires
            self.same(other),
        ensures
            other.same(self),
    ;

    /// Values that are the same as one value are the same as each other.
    proof fn law_same_transitive(&self, middle: &Self, other: &Self)
        requires
            self.same(middle),
            middle.same(other),
        ensures
            self.same(other),
    ;

    /// Values that are the same have the same hash.
    proof fn law_same_digest(&self, other: &Self)
        requires
            self.same(other),
        ensures
            self.digest() == other.digest(),
    ;

    /// Tells whether the two values are counted together.
    fn is_same(&self, other: &Self) -> (result: bool)
        ensures
            result == self.same(other),
    ;

    /// Computes the hash of the value.
    fn hash_key(&self) -> (hash: u64)
        ensures
            hash == self.digest(),
    ;
}

/// Whether a hasher goes from one of the states to the next with each of the
/// words. `step` tells which state a hasher can be in after it was given a word.
pub open spec fn is_chain<H>(
    step: spec_fn(H, u64, H) -> bool,
    words: Seq<u64>,
    states: Seq<H>,
) -> bool {
    &&& states.len() == words.len() + 1
    &&& forall|i: int|
        0 <= i < words.len() ==> step(states[i], #[trigger] words[i], states[i + 1])
}

/// Whether a hasher in the state `before` can be in the state `after` once it was
/// given the words, one after the other and nothing else.
pub open spec fn fed<H>(
    step: spec_fn(H, u64, H) -> bool,
    words: Seq<u64>,
    before: H,
    after: H,
) -> bool {
    exists|states: Seq<H>|
        {
            &&& #[trigger] is_chain(step, words, states)
            &&& states.first() == before
            &&& states.last() == after
        }
}

/// A hasher that was given no words is as it was.
pub proof fn lemma_fed_nothing<H>(step: spec_fn(H, u64, H) -> bool, before: H, after: H)
    ensures
        fed(step, Seq::empty(), before, after) == (after == before),
{
    if after == before {
        assert(is_chain(step, Seq::empty(), seq![before]));
    }
}

/// One more word is one more step.
pub proof fn lemma_fed_push<H>(
    step: spec_fn(H, u64, H) -> bool,
    words: Seq<u64>,
    before: H,
    word: u64,
    after: H,
)
    ensures
        fed(step, words.push(word), before, after) == exists|middle: H|
            #[trigger] fed(step, words, before, middle) && step(middle, word, after),
{
    let more = words.push(word);
    if fed(step, more, before, after) {
        let states = choose|states: Seq<H>|
            {
                &&& #[trigger] is_chain(step, more, states)
                &&& states.first() == before
                &&& states.last() == after
            };
        let fewer = states.drop_last();
        assert forall|i: int| 0 <= i < words.len() implies step(
            fewer[i],
            #[trigger] words[i],
            fewer[i + 1],
        ) by {
            assert(more[i] == words[i]);
        }
        assert(is_chain(step, words, fewer));
        assert(more[words.len() as int] == word);
        assert(fed(step, words, before, fewer.last()) && step(fewer.last(), word, after));
    }
    if exists|middle: H| #[trigger]
        fed(step, words, before, middle) && step(middle, word, after) {
        let middle = choose|middle: H| #[trigger]
            fed(step, words, before, middle) && step(middle, word, after);
        let states = choose|states: Seq<H>|
            {
                &&& #[trigger] is_chain(step, words, states)
                &&& states.first() == before
                &&& states.last() == middle
            };
        let longer = states.push(after);
        assert forall|i: int| 0 <= i < more.len() implies step(
            longer[i],
            #[trigger] more[i],
            longer[i + 1],
        ) by {
            if i < words.len() {
                assert(more[i] == words[i]);
            }
        }
        assert(is_chain(step, more, longer));
    }
}

/// Where a word leaves a hasher in one state only, so do any number of words.
pub proof fn lemma_fed_deterministic<H>(
    step: spec_fn(H, u64, H) -> bool,
    words: Seq<u64>,
    before: H,
    after1: H,
    after2: H,
)
    requires
        forall|state: H, word: u64, next1: H, next2: H|
            #[trigger] step(state, word, next1) && #[trigger] step(state, word, next2) ==> next1
                == next2,
        fed(step, words, before, after1),
        fed(step, words, before, after2),
    ensures
        after1 == after2,
    decreases words.len(),
{
    if words.len() > 0 {
        let fewer = words.drop_last();
        assert(words =~= fewer.push(words.last()));
        lemma_fed_push(step, fewer, before, words.last(), after1);
        lemma_fed_push(step, fewer, before, words.last(), after2);
        let middle1 = choose|middle: H| #[trigger]
            fed(step, fewer, before, middle) && step(middle, words.last(), after1);
        let middle2 = choose|middle: H| #[trigger]
            fed(step, fewer, before, middle) && step(middle, words.last(), after2);
        lemma_fed_deterministic(step, fewer, before, middle1, middle2);
    }
}

/// A hasher that takes note of every word has taken note of all of them.
pub proof fn lemma_fed_written(
    step: spec_fn(DefaultHasher, u64, DefaultHasher) -> bool,
    words: Seq<u64>,
    before: DefaultHasher,
    after: DefaultHasher,
)
    requires
        forall|state: DefaultHasher, word: u64, next: DefaultHasher| #[trigger]
            step(state, word, next) ==> next@ == state@.push(
                vstd::bytes::spec_u64_to_le_bytes(word),
            ),
        fed(step, words, before, after),
    ensures
        after@ == before@ + words_written(words),
    decreases words.len(),
{
    if words.len() > 0 {
        let fewer = words.drop_last();
        assert(words =~= fewer.push(words.last()));
        lemma_fed_push(step, fewer, before, words.last(), after);
        let middle = choose|middle: DefaultHasher| #[trigger]
            fed(step, fewer, before, middle) && step(middle, words.last(), after);
        lemma_fed_written(step, fewer, before, middle);
        assert(after@ =~= before@ + words_written(words));
    } else {
        assert(before@ + words_written(words) =~= before@);
    }
}

/// Gives a hasher one word, by way of `write`.
pub fn feed_word<H, F: Fn(&mut H, u64)>(write: &F, state: &mut H, word: u64)
    requires
        forall|hasher: &mut H| #[trigger] call_requires(*write, (hasher, word)),
    ensures
        exists|hasher: &mut H|
            {
                &&& *hasher == *old(state)
                &&& *final(hasher) == *final(state)
                &&& #[trigger] call_ensures(*write, (hasher, word), ())
            },
{
    write(state, word)
}

/// What is written to a hasher for a sequence of words: for each word, in
/// order, its bytes from the least significant up.
pub open spec fn words_written(words: Seq<u64>) -> Seq<Seq<u8>> {
    words.map_values(|word: u64| vstd::bytes::spec_u64_to_le_bytes(word))
}

/// The hash of a sequence of words.
pub open spec fn digest_of(words: Seq<u64>) -> u64 {
    DefaultHasher::spec_finish(words_written(words))
}

/// Writes one word to the hasher.
pub fn write_word(hasher: &mut DefaultHasher, word: u64)
    ensures
        final(hasher)@ == old(hasher)@.push(vstd::bytes::spec_u64_to_le_bytes(word)),
{
    let bytes: [u8; 8] = [
        (word & 0xff) as u8,
        ((word >> 8) & 0xff) as u8,
        ((word >> 16) & 0xff) as u8,
        ((word >> 24) & 0xff) as u8,
        ((word >> 32) & 0xff) as u8,
        ((word >> 40) & 0xff) as u8,
        ((word >> 48) & 0xff) as u8,
        ((word >> 56) & 0xff) as u8,
    ];
    proof {
        vstd::bytes::spec_u64_to_le_bytes_to_open(word);
        assert(bytes@ =~= vstd::bytes::spec_u64_to_le_bytes(word));
    }
    hasher.write(&bytes);
}

impl CounterKey for usize {
    open spec fn same(&self, other: &Self) -> bool {
        *self == *other
    }

    open spec fn digest(&self) -> u64 {
        digest_of(seq![*self as u64])
    }

    proof fn law_same_reflexive(&self) {
    }

    proof fn law_same_symmetric(&self, other: &Self) {
    }

    proof fn law_same_transitive(&self, middle: &Self, other: &Self) {
    }

    proof fn law_same_digest(&self, other: &Self) {
    }

    fn is_same(&self, other: &Self) -> (result: bool) {
        *self == *other
    }

    fn hash_key(&self) -> (hash: u64) {
        let mut hasher = DefaultHasher::new();
        write_word(&mut hasher, *self as u64);
        assert(hasher@ =~= words_written(seq![*self as u64]));
        hasher.finish()
    }
}

} // verus!
