use vstd::prelude::*;

verus! {

/// The mathematical content of a buffer handle: its address, its byte
/// count and its slot id.
pub ghost struct BufferModel {
    pub ptr: u64,
    pub len: usize,
    pub bid: u16,
}

/// A read-only view of one filled slot: the slot's address, the byte count
/// a completion reported for it, and the slot id. It does not own the
/// bytes it names — they live in the pool and may be rewritten once the
/// slot is recycled and the kernel selects it again — and nothing is
/// returned to the ring when it is dropped: recycling is an explicit call.
pub struct Buffer {
    pub(crate) ptr: u64,
    pub(crate) len: usize,
    pub(crate) bid: u16,
}

impl View for Buffer {
    type V = BufferModel;

    closed spec fn view(&self) -> BufferModel {
        BufferModel { ptr: self.ptr, len: self.len, bid: self.bid }
    }
}

impl Buffer {
    /// Makes the handle for `len` bytes at `ptr` in slot `bid`.
    pub(crate) fn make(ptr: u64, len: usize, bid: u16) -> (r: Buffer)
        ensures
            r@ == (BufferModel { ptr, len, bid }),
    {
        Buffer { ptr, len, bid }
    }

    /// The id of the slot this buffer views.
    pub fn bid(&self) -> (r: u16)
        ensures
            r == self@.bid,
    {
        self.bid
    }

    /// The address of the viewed bytes.
    pub fn addr(&self) -> (r: u64)
        ensures
            r == self@.ptr,
    {
        self.ptr
    }

    /// How many bytes the completion reported.
    pub fn len(&self) -> (r: usize)
        ensures
            r == self@.len,
    {
        self.len
    }
}

} // verus!
