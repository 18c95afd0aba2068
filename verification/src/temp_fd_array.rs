//! An array that grows in a temporary file.

use vstd::prelude::*;

verus! {

/// The size of the buffer of a [`TempFdArray`], in bytes.
pub const BUFFER_BYTES: usize = 262144;

/// The number of items that fill a buffer of [`BUFFER_BYTES`] bytes, but one at
/// the least.
pub open spec fn buffer_length_of(size: nat) -> nat {
    if 0 < size <= BUFFER_BYTES {
        BUFFER_BYTES as nat / size
    } else {
        1
    }
}

/// The number of items that fill a buffer.
pub fn buffer_length<T>() -> (length: usize)
    ensures
        length == buffer_length_of(vstd::layout::size_of::<T>()),
        length > 0,
{
    let size: usize = std::mem::size_of::<T>();
    if 0 < size && size <= BUFFER_BYTES {
        assert(BUFFER_BYTES / size > 0) by (nonlinear_arith)
            requires
                0 < size <= BUFFER_BYTES,
        ;
        BUFFER_BYTES / size
    } else {
        1
    }
}

/// An array that grows in a temporary file. The array itself holds the items
/// that were not yet written; the file is the caller's: [`TempFdArray::push`]
/// hands out each block that is to be appended to it, [`TempFdArray::try_iter`]
/// takes what the file holds, and the file is to be truncated along with
/// [`TempFdArray::clear`].
pub struct TempFdArray<T> {
    buffer: Vec<T>,
    flush_n: usize,
    written: Ghost<Seq<T>>,
}

impl<T> TempFdArray<T> {
    /// The items in the buffer.
    pub closed spec fn buffered(&self) -> Seq<T> {
        self.buffer@
    }

    /// The items of the blocks that were handed out since the array was empty.
    pub closed spec fn spilled(&self) -> Seq<T> {
        self.written@
    }

    /// The number of those blocks.
    pub closed spec fn blocks(&self) -> nat {
        self.flush_n as nat
    }

    /// The number of items of a block.
    pub open spec fn block_length() -> nat {
        buffer_length_of(vstd::layout::size_of::<T>())
    }

    /// The buffer holds a block at the most, and all blocks that were handed
    /// out were full.
    pub open spec fn wf(&self) -> bool {
        &&& self.buffered().len() <= Self::block_length()
        &&& self.blocks() <= usize::MAX
        &&& self.spilled().len() == self.blocks() * Self::block_length()
    }

    /// Whether the number of blocks still fits its integer after one more item.
    pub open spec fn has_room(&self) -> bool {
        self.buffered().len() < Self::block_length() || self.blocks() < usize::MAX
    }

    /// Whether the array has no items.
    pub open spec fn is_empty(&self) -> bool {
        &&& self.buffered() == Seq::<T>::empty()
        &&& self.spilled() == Seq::<T>::empty()
        &&& self.blocks() == 0
    }

    /// An array without items.
    pub fn new() -> (array: Self)
        ensures
            array.wf(),
            array.is_empty(),
    {
        TempFdArray {
            buffer: Vec::with_capacity(buffer_length::<T>()),
            flush_n: 0,
            written: Ghost(Seq::empty()),
        }
    }

    /// The number of items in the buffer.
    pub fn buffer_index(&self) -> (index: usize)
        ensures
            index == self.buffered().len(),
    {
        self.buffer.len()
    }

    /// The number of blocks that were handed out since the array was empty.
    pub fn flush_n(&self) -> (n: usize)
        ensures
            n == self.blocks(),
    {
        self.flush_n
    }

    /// Appends an item. If the buffer was full, it is emptied first, and its
    /// items are handed out.
    pub fn push(&mut self, item: T) -> (block: Option<Vec<T>>)
        requires
            old(self).wf(),
            old(self).has_room(),
        ensures
            final(self).wf(),
            pushed(*old(self), item, *final(self), block),
    {
        let buffer_length: usize = buffer_length::<T>();
        if self.buffer.len() < buffer_length {
            self.buffer.push(item);
            None
        } else {
            let mut block: Vec<T> = Vec::with_capacity(buffer_length);
            std::mem::swap(&mut self.buffer, &mut block);
            proof {
                let n = self.flush_n as int;
                let length = buffer_length as int;
                assert((n + 1) * length == n * length + length) by (nonlinear_arith);
                self.written@ = self.written@ + block@;
            }
            self.flush_n = self.flush_n + 1;
            self.buffer.push(item);
            assert(self.buffered() =~= seq![item]);
            Some(block)
        }
    }

    /// The items of the array, given those that the file holds: first the ones
    /// in the buffer, then the ones in the file. There are none if the file does
    /// not hold as many items as were handed out for it.
    pub fn try_iter<'a>(&'a self, file: &'a [T]) -> (items: Option<Vec<&'a T>>)
        ensures
            match items {
                Some(items) => {
                    &&& file@.len() == self.blocks() * Self::block_length()
                    &&& items@.unref() == self.buffered() + file@
                },
                None => file@.len() != self.blocks() * Self::block_length(),
            },
    {
        let file_length: usize = file.len();
        match self.flush_n.checked_mul(buffer_length::<T>()) {
            Some(length) => {
                if length != file_length {
                    return None;
                }
            },
            None => {
                return None;
            },
        }
        let mut items: Vec<&'a T> = Vec::new();
        push_refs(&mut items, self.buffer.as_slice());
        push_refs(&mut items, file);
        assert(Seq::<T>::empty() + self.buffered() =~= self.buffered());
        Some(items)
    }

    /// Removes all items.
    pub fn clear(&mut self)
        ensures
            final(self).wf(),
            final(self).is_empty(),
    {
        self.buffer.clear();
        self.flush_n = 0;
        proof {
            self.written@ = Seq::empty();
        }
    }
}

/// What becomes of an array when an item is pushed, and which block is handed
/// out: none as long as the buffer has room for the item; otherwise the contents
/// of the buffer, in which the item is then alone.
pub open spec fn pushed<T>(
    before: TempFdArray<T>,
    item: T,
    after: TempFdArray<T>,
    block: Option<Vec<T>>,
) -> bool {
    if before.buffered().len() < TempFdArray::<T>::block_length() {
        &&& block is None
        &&& after.buffered() == before.buffered().push(item)
        &&& after.spilled() == before.spilled()
        &&& after.blocks() == before.blocks()
    } else {
        &&& block matches Some(block) && block@ == before.buffered()
        &&& after.buffered() == seq![item]
        &&& after.spilled() == before.spilled() + before.buffered()
        &&& after.blocks() == before.blocks() + 1
    }
}

/// Appends references to the items.
pub(crate) fn push_refs<'a, T>(refs: &mut Vec<&'a T>, items: &'a [T])
    ensures
        final(refs)@.unref() == old(refs)@.unref() + items@,
{
    let ghost before = refs@.unref();
    let mut i: usize = 0;
    assert(before + items@.take(0) =~= before);
    while i < items.len()
        invariant
            i <= items@.len(),
            refs@.unref() == before + items@.take(i as int),
        decreases items@.len() - i,
    {
        let ghost so_far = refs@.unref();
        refs.push(&items[i]);
        assert(refs@.unref() =~= so_far.push(items@[i as int]));
        i += 1;
        assert(items@.take(i as int) =~= items@.take(i - 1).push(items@[i - 1]));
    }
    assert(items@.take(i as int) =~= items@);
}

} // verus!
