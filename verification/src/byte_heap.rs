//! Append-only byte arena.
//!
//! A [`ByteHeap`] owns a fixed-size buffer and a high-water mark giving the
//! first unused offset. Inserting copies a value's raw bytes at the mark and
//! hands back an [`XPtr`] handle covering the written region; the arena never
//! reclaims or moves bytes, so a handle stays valid for the lifetime of the
//! arena.

use crate::byteable::Byteable;
use core::marker::PhantomData;
use vstd::prelude::*;
use vstd::slice::slice_subrange;

verus! {

/// A handle into the arena: the offset of a written region and its length in
/// bytes.
#[derive(Debug, Clone, Copy, PartialEq, Eq, Hash, Structural)]
pub struct XPtr {
    pub index: usize,
    pub byte_len: usize,
}

impl XPtr {
    /// Pack an offset and a byte length into a handle.
    pub fn new(index: usize, byte_len: usize) -> (r: XPtr)
        ensures
            r == (XPtr { index, byte_len }),
    {
        XPtr { index, byte_len }
    }
}

/// Read access to the raw parts of an arena handle.
pub trait HeapPtr {
    /// The offset this handle points at.
    spec fn spec_raw(&self) -> nat;

    /// The length in bytes of the region this handle covers.
    spec fn spec_len(&self) -> nat;

    /// The offset this handle points at.
    fn raw(&self) -> (r: usize)
        ensures
            r == self.spec_raw(),
    ;

    /// The length in bytes of the region this handle covers.
    fn len(&self) -> (r: usize)
        ensures
            r == self.spec_len(),
    ;
}

impl HeapPtr for XPtr {
    open spec fn spec_raw(&self) -> nat {
        self.index as nat
    }

    open spec fn spec_len(&self) -> nat {
        self.byte_len as nat
    }

    fn raw(&self) -> usize {
        self.index
    }

    fn len(&self) -> usize {
        self.byte_len
    }
}

/// The ways an arena operation can fail.
#[derive(Debug, Clone, Copy, PartialEq, Eq, Structural)]
pub enum ByteHeapError {
    /// No available space left in the heap for the requested insertion.
    AllocError,
    /// A handle does not lie inside the written part of this arena.
    InvalidPointer,
    /// A region's byte length does not fit the requested type.
    SizeMismatch,
}

/// A borrowed view of an arena region, remembering the type whose bytes it
/// holds.
pub struct Accessor<'a, A> {
    value: &'a [u8],
    _p: PhantomData<A>,
}

impl<'a, A: Byteable> Accessor<'a, A> {
    /// The bytes this accessor views.
    pub closed spec fn spec_value(&self) -> Seq<u8> {
        self.value@
    }

    /// Reconstruct the stored value from the viewed bytes.
    pub fn retrieve(&self) -> (r: Option<A>)
        ensures
            r == A::spec_from(self.spec_value()),
    {
        A::from_raw_bytes(self.value)
    }
}

/// Append-only byte arena of `SIZE` bytes.
pub struct ByteHeap<const SIZE: usize> {
    bytes: Vec<u8>,
    high_water: usize,
}

impl<const SIZE: usize> ByteHeap<SIZE> {
    /// The whole underlying buffer, written and unwritten bytes alike.
    pub closed spec fn contents(&self) -> Seq<u8> {
        self.bytes@
    }

    /// The high-water mark: the first offset never written to.
    pub closed spec fn mark(&self) -> nat {
        self.high_water as nat
    }

    /// The arena's buffer has its fixed size and the mark lies inside it.
    pub open spec fn wf(&self) -> bool {
        &&& self.contents().len() == SIZE
        &&& self.mark() <= SIZE
    }

    /// The handle covers a region that has been written.
    pub open spec fn valid_ptr(&self, p: XPtr) -> bool {
        p.index + p.byte_len <= self.mark()
    }

    /// The bytes the handle covers.
    pub open spec fn region(&self, p: XPtr) -> Seq<u8> {
        self.contents().subrange(p.index as int, p.index + p.byte_len)
    }

    /// How one insertion changes the arena: `b` is written at the old mark,
    /// which `p` covers; the mark advances past it; no other byte changes.
    pub open spec fn insert_post(pre: Self, post: Self, b: Seq<u8>, p: XPtr) -> bool {
        &&& p.index == pre.mark()
        &&& p.byte_len == b.len()
        &&& post.mark() == pre.mark() + b.len()
        &&& post.contents() =~= pre.contents().subrange(0, pre.mark() as int) + b
            + pre.contents().subrange((pre.mark() + b.len()) as int, SIZE as int)
    }

    /// A fresh arena: all zero bytes, nothing written yet.
    pub fn new() -> (r: ByteHeap<SIZE>)
        ensures
            r.wf(),
            r.mark() == 0,
            r.contents() =~= Seq::new(SIZE as nat, |i: int| 0u8),
    {
        ByteHeap { bytes: vec![0u8; SIZE], high_water: 0 }
    }

    /// Copy raw bytes into the arena at the high-water mark and advance the
    /// mark, handing back a handle covering them. Fails, leaving the arena
    /// unchanged, exactly when the remaining capacity is too small.
    pub fn insert_raw(&mut self, bytes: &[u8]) -> (r: Result<XPtr, ByteHeapError>)
        requires
            old(self).wf(),
        ensures
            final(self).wf(),
            r is Ok <==> old(self).mark() + bytes@.len() <= SIZE,
            match r {
                Ok(p) => Self::insert_post(*old(self), *final(self), bytes@, p),
                Err(e) => {
                    &&& e == ByteHeapError::AllocError
                    &&& final(self).contents() == old(self).contents()
                    &&& final(self).mark() == old(self).mark()
                },
            },
    {
        let len = bytes.len();
        let start = self.high_water;

        if len > SIZE - start {
            return Err(ByteHeapError::AllocError);
        }
        let mut i: usize = 0;
        while i < len
            invariant
                i <= len,
                start + len <= SIZE,
                len == bytes@.len(),
                start == self.high_water,
                self.wf(),
                self.contents().len() == SIZE,
                self.mark() == old(self).mark(),
                start == old(self).mark(),
                forall|j: int|
                    0 <= j < SIZE && !(start <= j < start + i) ==> self.contents()[j] == old(
                        self,
                    ).contents()[j],
                forall|j: int| 0 <= j < i ==> self.contents()[start + j] == bytes@[j],
            decreases len - i,
        {
            self.bytes[start + i] = bytes[i];
            i = i + 1;
        }
        self.high_water = start + len;
        let p = XPtr { index: start, byte_len: len };
        assert(Self::insert_post(*old(self), *self, bytes@, p));
        Ok(p)
    }

    /// Copy a value's raw bytes into the arena at the high-water mark and
    /// advance the mark, returning the offset written at. Fails, leaving the
    /// arena unchanged, exactly when the remaining capacity is too small.
    pub fn raw_insert<A: Byteable>(&mut self, item: A) -> (r: Result<usize, ByteHeapError>)
        requires
            old(self).wf(),
        ensures
            final(self).wf(),
            r is Ok <==> old(self).mark() + item.spec_bytes().len() <= SIZE,
            match r {
                Ok(start) => {
                    &&& start == old(self).mark()
                    &&& Self::insert_post(
                        *old(self),
                        *final(self),
                        item.spec_bytes(),
                        XPtr { index: start, byte_len: item.spec_bytes().len() as usize },
                    )
                },
                Err(e) => {
                    &&& e == ByteHeapError::AllocError
                    &&& final(self).contents() == old(self).contents()
                    &&& final(self).mark() == old(self).mark()
                },
            },
    {
        let bytes = item.to_raw_bytes();
        match self.insert_raw(bytes.as_slice()) {
            Ok(p) => Ok(p.index),
            Err(e) => Err(e),
        }
    }

    /// Borrow the bytes in the given offset range.
    pub fn raw_retrieve(&self, range: core::ops::Range<usize>) -> (r: &[u8])
        requires
            self.wf(),
            range.start <= range.end <= SIZE,
        ensures
            r@ == self.contents().subrange(range.start as int, range.end as int),
    {
        slice_subrange(self.bytes.as_slice(), range.start, range.end)
    }

    /// Borrow the bytes a handle covers. Fails exactly when the handle does
    /// not lie inside the written part of this arena.
    pub fn view_bytes(&self, ptr: &XPtr) -> (r: Result<&[u8], ByteHeapError>)
        requires
            self.wf(),
        ensures
            r is Ok <==> self.valid_ptr(*ptr),
            match r {
                Ok(s) => s@ == self.region(*ptr),
                Err(e) => e == ByteHeapError::InvalidPointer,
            },
    {
        if ptr.byte_len <= self.high_water && ptr.index <= self.high_water - ptr.byte_len {
            Ok(self.raw_retrieve(ptr.index..ptr.index + ptr.byte_len))
        } else {
            Err(ByteHeapError::InvalidPointer)
        }
    }

    /// Insert a value's raw bytes, handing back a handle that covers them.
    pub fn insert<A: Byteable>(&mut self, item: A) -> (r: Result<XPtr, ByteHeapError>)
        requires
            old(self).wf(),
        ensures
            final(self).wf(),
            r is Ok <==> old(self).mark() + item.spec_bytes().len() <= SIZE,
            match r {
                Ok(p) => Self::insert_post(*old(self), *final(self), item.spec_bytes(), p),
                Err(e) => {
                    &&& e == ByteHeapError::AllocError
                    &&& final(self).contents() == old(self).contents()
                    &&& final(self).mark() == old(self).mark()
                },
            },
    {
        let bytes = item.to_raw_bytes();
        self.insert_raw(bytes.as_slice())
    }

    /// Reinterpret the bytes a handle covers as a value of type `A`. Fails
    /// exactly when the handle is invalid or the region is not a well-formed
    /// representation of an `A`.
    pub fn read_as<A: Byteable>(&self, ptr: &XPtr) -> (r: Result<A, ByteHeapError>)
        requires
            self.wf(),
        ensures
            match r {
                Ok(v) => self.valid_ptr(*ptr) && A::spec_from(self.region(*ptr)) == Some(v),
                Err(ByteHeapError::InvalidPointer) => !self.valid_ptr(*ptr),
                Err(ByteHeapError::SizeMismatch) => self.valid_ptr(*ptr) && A::spec_from(
                    self.region(*ptr),
                ) is None,
                Err(_) => false,
            },
    {
        let bytes = self.view_bytes(ptr)?;
        match A::from_raw_bytes(bytes) {
            Some(v) => Ok(v),
            None => Err(ByteHeapError::SizeMismatch),
        }
    }

    /// Borrow a typed accessor for the region a handle covers.
    pub fn accessor<'a, A: Byteable>(&'a self, ptr: &XPtr) -> (r: Result<
        Accessor<'a, A>,
        ByteHeapError,
    >)
        requires
            self.wf(),
        ensures
            r is Ok <==> self.valid_ptr(*ptr),
            match r {
                Ok(a) => a.spec_value() == self.region(*ptr),
                Err(e) => e == ByteHeapError::InvalidPointer,
            },
    {
        let bytes = self.view_bytes(ptr)?;
        Ok(Accessor { value: bytes, _p: PhantomData })
    }
}

/// Arena round-trip: the bytes read back through the handle an insertion
/// issued are exactly the bytes that were inserted.
pub proof fn lemma_arena_round_trip<const SIZE: usize>(
    pre: ByteHeap<SIZE>,
    post: ByteHeap<SIZE>,
    b: Seq<u8>,
    p: XPtr,
)
    requires
        pre.wf(),
        ByteHeap::<SIZE>::insert_post(pre, post, b, p),
    ensures
        post.valid_ptr(p),
        post.region(p) =~= b,
{
}

/// Arena append-only: a handle valid before an insertion stays valid after
/// it, and the bytes it covers are unchanged.
pub proof fn lemma_arena_append_only<const SIZE: usize>(
    pre: ByteHeap<SIZE>,
    post: ByteHeap<SIZE>,
    b: Seq<u8>,
    p: XPtr,
    q: XPtr,
)
    requires
        pre.wf(),
        pre.valid_ptr(q),
        ByteHeap::<SIZE>::insert_post(pre, post, b, p),
    ensures
        post.valid_ptr(q),
        post.region(q) =~= pre.region(q),
{
}

} // verus!
