use crate::math::{pow2_u16, pow2_u32};
use crate::mapped_ring::RingEntry;
use crate::RingError;
use vstd::prelude::*;

verus! {

/// The mathematical content of a buffer pool: the arena's bytes, the two
/// sizes, and the arena's base address.
pub ghost struct PoolModel {
    pub bytes: Seq<u8>,
    pub slot_size: u32,
    pub slot_count: u16,
    pub base: u64,
}

impl PoolModel {
    pub open spec fn wf(self) -> bool {
        &&& pow2_u32(self.slot_size)
        &&& pow2_u16(self.slot_count)
        &&& self.bytes.len() == self.slot_count as int * self.slot_size as int
        &&& self.base + self.slot_count as int * self.slot_size as int <= u64::MAX
    }

    /// The address of slot `id`: the pool base plus `id` slot strides.
    pub open spec fn addr_of(self, id: int) -> int {
        self.base + id * self.slot_size
    }

    /// The descriptor record that publishes slot `id` whole: its address,
    /// its full capacity, and its id.
    pub open spec fn slot_entry(self, id: int) -> RingEntry {
        RingEntry { addr: self.addr_of(id) as u64, len: self.slot_size, bid: id as u16 }
    }
}

/// A fixed pool of `slot_count` slots of `slot_size` bytes each, in one
/// contiguous zero-initialized arena. The slot at id `i` begins at address
/// `base + i * slot_size`; slots are never moved or resized. In the running
/// system the arena is one process-private memory mapping that the kernel
/// fills; this type owns the same bytes as plain values, with `base` naming
/// where the mapped arena sits. Teardown is the single drop of the owned
/// arena.
pub struct BufferPool {
    arena: Vec<u8>,
    slot_size: u32,
    slot_count: u16,
    base: u64,
}

impl View for BufferPool {
    type V = PoolModel;

    closed spec fn view(&self) -> PoolModel {
        PoolModel {
            bytes: self.arena@,
            slot_size: self.slot_size,
            slot_count: self.slot_count,
            base: self.base,
        }
    }
}

impl BufferPool {
    /// Reserves `slot_count` zero-initialized slots of `slot_size` bytes as
    /// one arena whose slot addresses start at `base`. Sizes that are not
    /// powers of two, an arena too large to index, or an arena that would
    /// run past the end of the address space are refused.
    pub fn new(slot_size: u32, slot_count: u16, base: u64) -> (r: Result<BufferPool, RingError>)
        ensures
            r is Ok <==> {
                &&& pow2_u32(slot_size)
                &&& pow2_u16(slot_count)
                &&& slot_count as int * slot_size as int <= usize::MAX
                &&& base + slot_count as int * slot_size as int <= u64::MAX
            },
            r matches Err(e) ==> e == RingError::InvalidArgument,
            r matches Ok(pool) ==> {
                &&& pool@.wf()
                &&& pool@.slot_size == slot_size
                &&& pool@.slot_count == slot_count
                &&& pool@.base == base
                &&& pool@.bytes == Seq::new((slot_count as int * slot_size as int) as nat, |i: int| 0u8)
            },
    {
        if slot_size == 0 || slot_size & (slot_size - 1) != 0 {
            return Err(RingError::InvalidArgument);
        }
        if slot_count == 0 || slot_count & (slot_count - 1) != 0 {
            return Err(RingError::InvalidArgument);
        }
        proof {
            assert((slot_count as int) * (slot_size as int) < 0x1_0000_0000_0000) by (nonlinear_arith)
                requires
                    slot_count < 0x10000 && slot_size < 0x1_0000_0000,
            ;
        }
        let total: u64 = (slot_count as u64) * (slot_size as u64);
        if total > usize::MAX as u64 {
            return Err(RingError::InvalidArgument);
        }
        if base > u64::MAX - total {
            return Err(RingError::InvalidArgument);
        }
        let total_usize: usize = total as usize;
        let mut arena: Vec<u8> = Vec::new();
        while arena.len() < total_usize
            invariant
                arena@.len() <= total_usize,
                forall|i: int| 0 <= i < arena@.len() ==> arena@[i] == 0u8,
            decreases total_usize - arena@.len(),
        {
            arena.push(0u8);
        }
        let pool = BufferPool { arena, slot_size, slot_count, base };
        proof {
            assert(pool@.bytes =~= Seq::new(
                (slot_count as int * slot_size as int) as nat,
                |i: int| 0u8,
            ));
        }
        Ok(pool)
    }

    pub fn slot_size(&self) -> (r: u32)
        ensures
            r == self@.slot_size,
    {
        self.slot_size
    }

    pub fn slot_count(&self) -> (r: u16)
        ensures
            r == self@.slot_count,
    {
        self.slot_count
    }

    /// The arena's whole size in bytes.
    pub fn total_size(&self) -> (r: usize)
        ensures
            r == self@.bytes.len(),
    {
        self.arena.len()
    }

    pub fn base(&self) -> (r: u64)
        ensures
            r == self@.base,
    {
        self.base
    }

    /// Slot addresses stay within the address space the pool reserved.
    pub proof fn lemma_addr_in_range(self: &BufferPool, id: int)
        requires
            self@.wf(),
            0 <= id < self@.slot_count,
        ensures
            self@.base <= self@.addr_of(id),
            self@.addr_of(id) + self@.slot_size <= self@.base + self@.bytes.len(),
            self@.addr_of(id) + self@.slot_size <= u64::MAX,
    {
        assert(0 <= id * self@.slot_size && id * self@.slot_size + self@.slot_size
            <= self@.slot_count as int * self@.slot_size as int) by (nonlinear_arith)
            requires
                0 <= id < self@.slot_count as int && self@.slot_size >= 1,
        ;
    }

    /// The address of slot `bid`, without the bounds check of `get`: the
    /// callers of this one, ring initialization and recycling, have already
    /// established `bid < slot_count` through the ring-size invariants, so
    /// an id out of range here is a programming defect and is excluded
    /// rather than handled.
    pub fn ptr_for_bid(&self, bid: u16) -> (r: u64)
        requires
            self@.wf(),
            bid < self@.slot_count,
        ensures
            r == self@.addr_of(bid as int),
    {
        proof {
            self.lemma_addr_in_range(bid as int);
        }
        self.base + (bid as u64) * (self.slot_size as u64)
    }

    /// The bounds-checked slot address: `base + bid * slot_size` for a slot
    /// the pool holds, absent for any other id.
    pub fn get(&self, bid: u16) -> (r: Option<u64>)
        requires
            self@.wf(),
        ensures
            bid < self@.slot_count ==> (r matches Some(a) && a == self@.addr_of(bid as int)),
            bid >= self@.slot_count ==> r is None,
    {
        if bid >= self.slot_count {
            return None;
        }
        Some(self.ptr_for_bid(bid))
    }

    /// Reads the `len` bytes starting at address `addr`: the caller's view
    /// of data the kernel has placed in the pool.
    pub fn read_at(&self, addr: u64, len: usize) -> (r: Vec<u8>)
        requires
            self@.wf(),
            self@.base <= addr,
            addr - self@.base + len <= self@.bytes.len(),
        ensures
            r@ == self@.bytes.subrange(addr - self@.base, addr - self@.base + len),
    {
        let arena_len: usize = self.arena.len();
        let off: usize = (addr - self.base) as usize;
        let mut r: Vec<u8> = Vec::new();
        while r.len() < len
            invariant
                self@.wf(),
                self@.base <= addr,
                off == addr - self@.base,
                off + len <= arena_len,
                arena_len == self@.bytes.len(),
                r@.len() <= len,
                forall|i: int| 0 <= i < r@.len() ==> r@[i] == self@.bytes[off + i],
            decreases len - r@.len(),
        {
            let i = r.len();
            r.push(self.arena[off + i]);
        }
        proof {
            assert(r@ =~= self@.bytes.subrange(addr - self@.base, addr - self@.base + len));
        }
        r
    }

    /// Overwrites the bytes starting at address `addr`: the model of the
    /// kernel filling a selected buffer with received data.
    pub fn write_at(&mut self, addr: u64, data: &Vec<u8>)
        requires
            old(self)@.wf(),
            old(self)@.base <= addr,
            addr - old(self)@.base + data@.len() <= old(self)@.bytes.len(),
        ensures
            final(self)@.slot_size == old(self)@.slot_size,
            final(self)@.slot_count == old(self)@.slot_count,
            final(self)@.base == old(self)@.base,
            final(self)@.bytes.len() == old(self)@.bytes.len(),
            forall|i: int|
                0 <= i < final(self)@.bytes.len() ==> final(self)@.bytes[i] == (if addr - old(
                    self,
                )@.base <= i < addr - old(self)@.base + data@.len() {
                    data@[i - (addr - old(self)@.base)]
                } else {
                    old(self)@.bytes[i]
                }),
    {
        let arena_len: usize = self.arena.len();
        let off: usize = (addr - self.base) as usize;
        let mut j: usize = 0;
        while j < data.len()
            invariant
                self@.wf(),
                self@.slot_size == old(self)@.slot_size,
                self@.slot_count == old(self)@.slot_count,
                self@.base == old(self)@.base,
                self@.bytes.len() == old(self)@.bytes.len(),
                old(self)@.base <= addr,
                off == addr - old(self)@.base,
                off + data@.len() <= arena_len,
                arena_len == self@.bytes.len(),
                j <= data@.len(),
                forall|i: int|
                    0 <= i < self@.bytes.len() ==> self@.bytes[i] == (if off <= i < off + j {
                        data@[i - off]
                    } else {
                        old(self)@.bytes[i]
                    }),
            decreases data@.len() - j,
        {
            self.arena.set(off + j, data[j]);
            j += 1;
        }
    }
}

} // verus!
