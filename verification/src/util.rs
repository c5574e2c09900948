//! Allocation and reading helpers for decoding.
use vstd::prelude::*;
use crate::versioned::CodecError;

verus! {

/// The most memory a vector is allocated up front while decoding: 32 MiB.
pub const MEMORY_LIMIT: usize = 33554432;

/// Vectors whose initial allocation is bounded.
pub trait VecExt: Sized {
    /// Whether the vector has no items.
    spec fn spec_is_empty(v: &Self) -> bool;

    /// The size in bytes of one item.
    spec fn spec_item_size() -> nat;

    /// An empty vector with room for `n` items, but never more than the memory limit.
    fn with_bounded_capacity(n: usize) -> (v: Self)
        requires
            Self::spec_item_size() > 0,
        ensures
            Self::spec_is_empty(&v),
    ;
}

impl<T> VecExt for Vec<T> {
    open spec fn spec_is_empty(v: &Vec<T>) -> bool {
        v@ == Seq::<T>::empty()
    }

    open spec fn spec_item_size() -> nat {
        vstd::layout::size_of::<T>()
    }

    fn with_bounded_capacity(n: usize) -> (v: Vec<T>) {
        let alloc_limit = MEMORY_LIMIT / core::mem::size_of::<T>();
        let cap = if alloc_limit < n {
            alloc_limit
        } else {
            n
        };
        Vec::with_capacity(cap)
    }
}

/// Reading a run of bytes.
pub trait ReadExt {
    /// The next `n` bytes at `*pos`, which moves past them.
    fn read_exact_to_vec(&self, pos: &mut usize, n: usize) -> (r: Result<Vec<u8>, CodecError>);
}

impl ReadExt for [u8] {
    fn read_exact_to_vec(&self, pos: &mut usize, n: usize) -> (r: Result<Vec<u8>, CodecError>)
        ensures
            *old(pos) <= self@.len() && n <= self@.len() - *old(pos) ==> (r matches Ok(v) && v@ == self@.subrange(
                *old(pos) as int,
                *old(pos) + n,
            ) && *final(pos) == *old(pos) + n),
            !(*old(pos) <= self@.len() && n <= self@.len() - *old(pos)) ==> r == Err::<Vec<u8>, CodecError>(
                CodecError::UnexpectedEndOfInput,
            ) && *final(pos) == *old(pos),
    {
        if *pos > self.len() || n > self.len() - *pos {
            return Err(CodecError::UnexpectedEndOfInput);
        }
        let start = *pos;
        let mut out: Vec<u8> = Vec::new();
        let mut i: usize = 0;
        while i < n
            invariant
                start + n <= self@.len(),
                i <= n,
                out@ == self@.subrange(start as int, start + i),
            decreases n - i,
        {
            out.push(self[start + i]);
            assert(self@.subrange(start as int, start + i + 1) =~= self@.subrange(start as int, start + i).push(
                self@[start + i],
            ));
            i = i + 1;
        }
        *pos = start + n;
        Ok(out)
    }
}

} // verus!
