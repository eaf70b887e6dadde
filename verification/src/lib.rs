//! A provided-buffer ring: a fixed pool of equally sized buffer slots and
//! the kernel-shared descriptor ring that publishes them, with the
//! wraparound-aware arithmetic that turns a completion's slot id and byte
//! count into one or two contiguous buffer views and recycles the slots by
//! rewriting descriptor entries and advancing the shared tail.

use vstd::prelude::*;

pub mod buffer;
pub mod buffer_pool;
pub mod buffers_range;
pub mod mapped_ring;
pub mod math;

use crate::buffer::Buffer;
use crate::buffer_pool::{BufferPool, PoolModel};
use crate::buffers_range::{lemma_seg_id_facts, lemma_seg_in_pool, BufferRange, BufferRangeInner};
use crate::mapped_ring::{MmapedRing, RingEntry, RingModel};
use crate::math::{
    div_ceil_spec, lemma_div_ceil, lemma_div_ceil_exact, lemma_div_ceil_le,
    lemma_pow2_mask_is_mod, lemma_pow2_mask_is_mod_u32, lemma_pow2_u16_bound,
};
use vstd::arithmetic::div_mod::{
    lemma_div_by_multiple, lemma_div_pos_is_pos, lemma_hoist_over_denominator,
    lemma_mod_add_multiples_vanish, lemma_mod_equivalence, lemma_mod_multiples_basic,
    lemma_small_mod,
};

verus! {

/// Why construction is refused. Out-of-range ids and lengths on the
/// accessors are absent results, never errors: callers probe them with
/// untrusted completion data.
#[derive(Clone, Copy, Debug, PartialEq, Eq, Structural)]
pub enum RingError {
    /// The backing memory could not be reserved.
    Resource,
    /// A slot size or entry count is not the required power of two, or the
    /// pool would not fit the address space.
    InvalidArgument,
}

/// The mathematical content of a whole ring buffer: the pool, the
/// descriptor ring, and the caller-assigned buffer group id.
pub ghost struct RingBufferModel {
    pub pool: PoolModel,
    pub ring: RingModel,
    pub group_id: u16,
}

impl RingBufferModel {
    pub open spec fn wf(self) -> bool {
        &&& self.pool.wf()
        &&& self.ring.wf()
        &&& self.ring.entries.len() == self.pool.slot_count
    }

    pub open spec fn slot_size(self) -> u32 {
        self.pool.slot_size
    }

    pub open spec fn entry_count(self) -> u16 {
        self.pool.slot_count
    }

    /// A buffer handle is valid for this ring when it names a slot of the
    /// pool by that slot's address and stays within the slot's capacity.
    /// Handles made by `get_buffer` are valid; validity of a handle across
    /// its slot's reuse is the caller's contract.
    pub open spec fn buffer_wf(self, b: crate::buffer::BufferModel) -> bool {
        &&& b.bid < self.entry_count()
        &&& b.ptr == self.pool.addr_of(b.bid as int)
        &&& b.len <= self.slot_size()
    }
}

/// The orchestrator: one buffer pool and one descriptor ring, under one
/// buffer group id. Construction publishes every slot to the kernel; after
/// each completion the caller asks for a `Buffer` or `BufferRange` by slot
/// id and byte count, and explicitly recycles it when done. One instance
/// must be driven from one execution context at a time: the ring is a
/// single-producer structure and the library takes no lock.
pub struct RingBuffer {
    buffer_pool: BufferPool,
    mapped_ring: MmapedRing,
    id: u16,
}

impl View for RingBuffer {
    type V = RingBufferModel;

    closed spec fn view(&self) -> RingBufferModel {
        RingBufferModel { pool: self.buffer_pool@, ring: self.mapped_ring@, group_id: self.id }
    }
}

impl RingBuffer {
    /// The caller-assigned buffer group id.
    pub fn group_id(&self) -> (r: u16)
        ensures
            r == self@.group_id,
    {
        self.id
    }

    /// The pool whose slots the ring publishes.
    pub fn pool(&self) -> (r: &BufferPool)
        ensures
            r@ == self@.pool,
    {
        &self.buffer_pool
    }

    /// The current tail counter.
    pub fn tail(&self) -> (r: u16)
        ensures
            r == self@.ring.tail,
    {
        self.mapped_ring.tail()
    }

    /// One descriptor record of the ring, read back.
    pub fn entry(&self, i: u16) -> (r: RingEntry)
        requires
            self@.wf(),
            i < self@.entry_count(),
        ensures
            r == self@.ring.entries[i as int],
    {
        self.mapped_ring.entry(i)
    }

    /// Builds the ring and the pool, writes one descriptor per slot — the
    /// slot's address, its full capacity and its id — and then sets the tail
    /// to the entry count, so every slot starts published to the kernel.
    /// The kernel-side registration of the ring's memory (one call, with the
    /// ring's base address, `entry_count`, `group_id` and the registration
    /// flags) is made by the caller that owns the kernel handle, after this
    /// memory exists and before completions are consumed; `base` names the
    /// address at which the pool's arena sits in that world.
    pub fn new(slot_size: u32, entry_count: u16, base: u64, group_id: u16) -> (r: Result<
        RingBuffer,
        RingError,
    >)
        ensures
            r is Ok <==> {
                &&& crate::math::pow2_u32(slot_size)
                &&& crate::math::pow2_u16(entry_count)
                &&& entry_count as int * slot_size as int <= usize::MAX
                &&& base + entry_count as int * slot_size as int <= u64::MAX
            },
            r matches Err(e) ==> e == RingError::InvalidArgument,
            r matches Ok(rb) ==> {
                &&& rb@.wf()
                &&& rb@.slot_size() == slot_size
                &&& rb@.entry_count() == entry_count
                &&& rb@.pool.base == base
                &&& rb@.group_id == group_id
                &&& rb@.ring.tail == entry_count
                &&& forall|i: int|
                    0 <= i < entry_count ==> #[trigger] rb@.ring.entries[i] == rb@.pool.slot_entry(
                        i,
                    )
                &&& rb@.pool.bytes == Seq::new(
                    (entry_count as int * slot_size as int) as nat,
                    |i: int| 0u8,
                )
            },
    {
        if slot_size == 0 || slot_size & (slot_size - 1) != 0 {
            return Err(RingError::InvalidArgument);
        }
        if entry_count == 0 || entry_count & (entry_count - 1) != 0 {
            return Err(RingError::InvalidArgument);
        }
        let mut ring = match MmapedRing::build(entry_count) {
            Ok(ring) => ring,
            Err(e) => return Err(e),
        };
        let pool = match BufferPool::new(slot_size, entry_count, base) {
            Ok(pool) => pool,
            Err(e) => return Err(e),
        };
        let mut i: u16 = 0;
        while i < entry_count
            invariant
                pool@.wf(),
                pool@.slot_size == slot_size,
                pool@.slot_count == entry_count,
                ring@.wf(),
                ring@.count() == entry_count,
                ring@.tail == 0,
                ring@.entries.len() == entry_count,
                i <= entry_count,
                forall|j: int| 0 <= j < i ==> ring@.entries[j] == pool@.slot_entry(j),
            decreases entry_count - i,
        {
            let addr = pool.ptr_for_bid(i);
            ring.set_entry(i, RingEntry { addr, len: slot_size, bid: i });
            i += 1;
        }
        ring.store_tail(entry_count);
        Ok(RingBuffer { buffer_pool: pool, mapped_ring: ring, id: group_id })
    }

    /// The pool's base address; slot 0 always exists.
    fn get_pool_base(&self) -> (r: u64)
        requires
            self@.wf(),
        ensures
            r == self@.pool.base,
    {
        self.buffer_pool.get(0).unwrap()
    }

    /// A view of the first `len` bytes of slot `bid`, at that slot's
    /// address: absent exactly when the byte count exceeds one slot's
    /// capacity or the id is outside the pool, since completions carry
    /// untrusted data. Mutates nothing.
    pub fn get_buffer(&self, bid: u16, len: usize) -> (r: Option<Buffer>)
        requires
            self@.wf(),
        ensures
            r is Some <==> len <= self@.slot_size() && bid < self@.entry_count(),
            r matches Some(b) ==> {
                &&& b@.bid == bid
                &&& b@.len == len
                &&& b@.ptr == self@.pool.addr_of(bid as int)
                &&& self@.buffer_wf(b@)
            },
    {
        if len > self.buffer_pool.slot_size() as usize {
            return None;
        }
        match self.buffer_pool.get(bid) {
            Some(ptr) => Some(Buffer::make(ptr, len, bid)),
            None => None,
        }
    }

    /// The one or two contiguous segments that hold a completion of
    /// `total_len` bytes beginning in slot `bid_first_buffer`: one segment
    /// when the spanned slots lie before the end of the ring, and two — the
    /// tail of the pool, then a run that restarts at slot 0 — when they
    /// wrap. Absent exactly when the first id is out of bounds, since
    /// completions carry untrusted data. A single completion never exceeds
    /// one full pass of the ring, by construction of the protocol, and a
    /// completion of zero bytes signals end of stream and names no slots,
    /// so the byte count is between one byte and the pool's capacity.
    /// Mutates nothing.
    pub fn get_buffers_range(&self, bid_first_buffer: u16, total_len: usize) -> (r: Option<
        BufferRange,
    >)
        requires
            self@.wf(),
            1 <= total_len <= self@.entry_count() as int * self@.slot_size() as int,
        ensures
            r is Some <==> bid_first_buffer < self@.entry_count(),
            r matches Some(rg) ==> ({
                let k = div_ceil_spec(total_len as int, self@.slot_size() as int);
                let count = self@.entry_count() as int;
                &&& rg@.wf(self@.pool)
                &&& rg@.total_len() == total_len
                &&& rg@.first.ptr == self@.pool.addr_of(bid_first_buffer as int)
                &&& (rg@.second is None <==> bid_first_buffer + k <= count)
                &&& (rg@.second is None ==> rg@.first.len == total_len)
                &&& (rg@.second matches Some(s) ==> {
                    &&& rg@.first.len == (count - bid_first_buffer) * self@.slot_size()
                    &&& s.ptr == self@.pool.addr_of(0)
                    &&& s.len == total_len - rg@.first.len
                })
                &&& rg@.ids(self@.pool) == Seq::new(
                    k as nat,
                    |i: int| (bid_first_buffer + i) % count,
                )
            }),
    {
        let size = self.buffer_pool.slot_size();
        let count = self.buffer_pool.slot_count();
        if bid_first_buffer >= count {
            return None;
        }
        let ghost k = div_ceil_spec(total_len as int, size as int);
        proof {
            lemma_pow2_u16_bound(count);
            lemma_div_ceil(total_len as int, size as int);
            lemma_div_ceil_le(total_len as int, size as int, count as int);
            assert((count as int) * (size as int) < 0x1_0000_0000_0000) by (nonlinear_arith)
                requires
                    count < 0x10000 && size < 0x1_0000_0000,
            ;
        }
        let k64: u64 = ((total_len as u64) + ((size - 1) as u64)) / (size as u64);
        let last64: u64 = bid_first_buffer as u64 + k64 - 1;
        let first_ptr = self.buffer_pool.ptr_for_bid(bid_first_buffer);
        proof {
            self.buffer_pool.lemma_addr_in_range(bid_first_buffer as int);
            lemma_mod_multiples_basic(bid_first_buffer as int, size as int);
            lemma_div_by_multiple(bid_first_buffer as int, size as int);
        }
        if last64 >= count as u64 {
            // The spanned slots run past the last one: two segments, the
            // second restarting at slot 0.
            let m: u16 = count - bid_first_buffer;
            let pool_total: usize = self.buffer_pool.total_size();
            proof {
                assert((m as int) * (size as int) <= (count as int) * (size as int) && 1 <= (
                m as int) * (size as int)) by (nonlinear_arith)
                    requires
                        1 <= m <= count as int && 1 <= size,
                ;
                lemma_div_ceil_exact(m as int, size as int);
                // The wrap condition makes the first segment shorter than
                // the whole completion.
                assert((m as int) * (size as int) <= (k - 1) * (size as int))
                    by (nonlinear_arith)
                    requires
                        m as int <= k - 1 && 1 <= size,
                ;
            }
            let first_len: usize = ((m as u64) * (size as u64)) as usize;
            let second_len: usize = total_len - first_len;
            let second_ptr = self.buffer_pool.ptr_for_bid(0);
            let snd = BufferRangeInner::make(second_ptr, second_len);
            let rg = BufferRange::make(
                BufferRangeInner::make(first_ptr, first_len),
                Some(snd),
            );
            proof {
                let pool = self@.pool;
                let fid = bid_first_buffer as int;
                let counti = count as int;
                let sizei = size as int;
                let s2 = snd@;
                lemma_hoist_over_denominator(
                    second_len as int + sizei - 1,
                    m as int,
                    sizei as nat,
                );
                assert(s2.slot_span(pool) == k - m);
                lemma_seg_id_facts(rg@.first, pool, fid);
                lemma_seg_id_facts(s2, pool, 0);
                assert(rg@.ids(pool) =~= Seq::new(
                    k as nat,
                    |i: int| (bid_first_buffer + i) % counti,
                )) by {
                    assert forall|i: int| 0 <= i < k implies rg@.ids(pool)[i] == (fid + i)
                        % counti by {
                        if i < m {
                            lemma_small_mod((fid + i) as nat, counti as nat);
                        } else {
                            lemma_mod_add_multiples_vanish(i - m, counti);
                            lemma_small_mod((i - m) as nat, counti as nat);
                        }
                    }
                }
            }
            Some(rg)
        } else {
            let rg = BufferRange::make(BufferRangeInner::make(first_ptr, total_len), None);
            proof {
                let pool = self@.pool;
                let fid = bid_first_buffer as int;
                let counti = count as int;
                lemma_seg_id_facts(rg@.first, pool, fid);
                assert(rg@.ids(pool) =~= Seq::new(
                    k as nat,
                    |i: int| (bid_first_buffer + i) % counti,
                )) by {
                    assert forall|i: int| 0 <= i < k implies rg@.ids(pool)[i] == (fid + i)
                        % counti by {
                        lemma_small_mod((fid + i) as nat, counti as nat);
                    }
                }
            }
            Some(rg)
        }
    }

    /// Writes received data into the pool at `addr`: what the kernel does
    /// to the slots it selected for a completion. The descriptor ring and
    /// its tail are untouched.
    pub fn fill_at(&mut self, addr: u64, data: &Vec<u8>)
        requires
            old(self)@.wf(),
            old(self)@.pool.base <= addr,
            addr - old(self)@.pool.base + data@.len() <= old(self)@.pool.bytes.len(),
        ensures
            final(self)@.wf(),
            final(self)@.ring == old(self)@.ring,
            final(self)@.group_id == old(self)@.group_id,
            final(self)@.pool.slot_size == old(self)@.pool.slot_size,
            final(self)@.pool.slot_count == old(self)@.pool.slot_count,
            final(self)@.pool.base == old(self)@.pool.base,
            final(self)@.pool.bytes.len() == old(self)@.pool.bytes.len(),
            forall|i: int|
                0 <= i < final(self)@.pool.bytes.len() ==> final(self)@.pool.bytes[i] == (if addr
                    - old(self)@.pool.base <= i < addr - old(self)@.pool.base + data@.len() {
                    data@[i - (addr - old(self)@.pool.base)]
                } else {
                    old(self)@.pool.bytes[i]
                }),
    {
        self.buffer_pool.write_at(addr, data);
    }

    /// Recycles one buffer: writes the slot's descriptor — its address, its
    /// full capacity and its id — at the entry the current tail masks to,
    /// and then advances the tail by one (the 16-bit counter wraps by
    /// design). The entry is written before the tail store, the order the
    /// kernel's acquire-load of the shared tail relies on. Recycle a slot
    /// only once per completion that reported it; the library does not
    /// detect a double recycle.
    pub fn recycle_buffer(&mut self, buffer: &Buffer)
        requires
            old(self)@.wf(),
            old(self)@.buffer_wf(buffer@),
        ensures
            final(self)@.wf(),
            final(self)@.pool == old(self)@.pool,
            final(self)@.group_id == old(self)@.group_id,
            final(self)@.ring.tail == (old(self)@.ring.tail + 1) % 0x10000,
            final(self)@.ring.entries == old(self)@.ring.entries.update(
                old(self)@.ring.tail as int % old(self)@.entry_count() as int,
                old(self)@.pool.slot_entry(buffer@.bid as int),
            ),
    {
        let t = self.mapped_ring.tail();
        let count = self.buffer_pool.slot_count();
        let idx: u16 = t & (count - 1);
        proof {
            lemma_pow2_mask_is_mod(t, count);
            self.buffer_pool.lemma_addr_in_range(buffer@.bid as int);
        }
        let len = self.buffer_pool.slot_size();
        self.mapped_ring.set_entry(idx, RingEntry { addr: buffer.addr(), len, bid: buffer.bid() });
        let new_tail: u16 = ((t as u32 + 1) % 0x10000) as u16;
        self.mapped_ring.store_tail(new_tail);
    }

    /// Recycles a whole range: recovers the slot ids from the segments'
    /// addresses, writes one descriptor per recovered slot at consecutive
    /// masked tail positions, in ascending slot order within each segment,
    /// and only after every entry is written advances the tail by the slot
    /// count in one store — the kernel must never observe the advanced tail
    /// before the entry contents, so the single late store is correctness,
    /// not an optimization.
    pub fn recycle_inner_range(&mut self, buffer: &BufferRange)
        requires
            old(self)@.wf(),
            buffer@.wf(old(self)@.pool),
        ensures
            final(self)@.wf(),
            final(self)@.pool == old(self)@.pool,
            final(self)@.group_id == old(self)@.group_id,
            ({
                let ids = buffer@.ids(old(self)@.pool);
                let t = old(self)@.ring.tail as int;
                let count = old(self)@.entry_count() as int;
                &&& final(self)@.ring.tail == (t + ids.len()) % 0x10000
                &&& (forall|i: int|
                    0 <= i < ids.len()
                        ==> final(self)@.ring.entries[(t + i) % count]
                            == old(self)@.pool.slot_entry(ids[i]))
                &&& (forall|j: int|
                    0 <= j < count && !(exists|i: int|
                        0 <= i < ids.len() && j == #[trigger] ((t + i) % count))
                        ==> final(self)@.ring.entries[j] == old(self)@.ring.entries[j])
            }),
    {
        let ghost pool = old(self)@.pool;
        let ghost ids = buffer@.ids(pool);
        let (s1, e1) = self.get_range(buffer.first());
        let n1: u16 = e1 - s1;
        let (s2, n2): (u16, u16) = match buffer.second() {
            Some(seg) => {
                let (s, e) = self.get_range(seg);
                (s, e - s)
            },
            None => (0u16, 0u16),
        };
        proof {
            lemma_seg_in_pool(buffer@.first, pool);
            match buffer@.second {
                Some(s) => lemma_seg_in_pool(s, pool),
                None => (),
            }
            assert(forall|j: int| 0 <= j < n1 ==> ids[j] == s1 + j);
            assert(forall|j: int| n1 <= j < ids.len() ==> ids[j] == s2 + (j - n1));
        }
        let t = self.mapped_ring.tail();
        let count = self.buffer_pool.slot_count();
        let size = self.buffer_pool.slot_size();
        let mask: u16 = count - 1;
        let n: u16 = n1 + n2;
        let mut i: u16 = 0;
        while i < n
            invariant
                self@.wf(),
                self@.pool == old(self)@.pool,
                self@.pool == pool,
                self@.group_id == old(self)@.group_id,
                self@.ring.tail == t,
                t == old(self)@.ring.tail,
                count == self@.entry_count(),
                size == self@.slot_size(),
                mask == count - 1,
                i <= n,
                n == ids.len(),
                n1 <= n,
                n1 as int + n2 as int == n as int,
                n <= count,
                s1 as int + n1 as int <= count as int,
                s2 as int + n2 as int <= count as int,
                forall|j: int| 0 <= j < n1 ==> ids[j] == s1 + j,
                forall|j: int| n1 <= j < n ==> ids[j] == s2 + (j - n1),
                forall|j: int|
                    0 <= j < i ==> self@.ring.entries[(t as int + j) % count as int] == pool
                        .slot_entry(ids[j]),
                forall|j: int|
                    0 <= j < count && !(exists|jj: int|
                        0 <= jj < i && j == #[trigger] ((t as int + jj) % count as int))
                        ==> self@.ring.entries[j] == old(self)@.ring.entries[j],
            decreases n - i,
        {
            let bid: u16 = if i < n1 {
                s1 + i
            } else {
                s2 + (i - n1)
            };
            let x: u32 = t as u32 + i as u32;
            let idx: u16 = (x & (mask as u32)) as u16;
            proof {
                lemma_pow2_mask_is_mod_u32(x, count);
                self.buffer_pool.lemma_addr_in_range(bid as int);
                assert forall|j: int| 0 <= j < i implies #[trigger] ((t as int + j)
                    % count as int) != (t as int + i as int) % count as int by {
                    lemma_mod_equivalence(t as int + i as int, t as int + j, count as int);
                    lemma_small_mod((i - j) as nat, count as nat);
                }
            }
            let addr = self.buffer_pool.ptr_for_bid(bid);
            self.mapped_ring.set_entry(idx, RingEntry { addr, len: size, bid });
            i += 1;
        }
        let new_tail: u16 = ((t as u32 + n as u32) % 0x10000) as u16;
        self.mapped_ring.store_tail(new_tail);
    }

    /// The half-open id range of the slots one segment covers, recovered
    /// from the segment's address.
    fn get_range(&self, buff_range: &BufferRangeInner) -> (r: (u16, u16))
        requires
            self@.wf(),
            buff_range@.wf(self@.pool),
        ensures
            r.0 == buff_range@.start_id(self@.pool),
            r.1 == r.0 + buff_range@.slot_span(self@.pool),
            r.1 <= self@.entry_count(),
    {
        proof {
            lemma_pow2_u16_bound(self@.entry_count());
            lemma_seg_in_pool(buff_range@, self@.pool);
        }
        let base = self.get_pool_base();
        get_range_inner(self.buffer_pool.slot_size(), base, buff_range.addr(), buff_range.len())
    }
}

/// The slot ids that a completion of `k` slots starting at slot `fid`
/// covers — listed around the ring as `get_buffers_range` returns them —
/// are exactly the ids from `fid` up to the end of the ring together with
/// the wrapped head `[0, fid + k - count)`; when nothing wraps, the second
/// interval is empty and the ids are `[fid, fid + k)` alone.
pub proof fn lemma_range_ids_cover(fid: int, k: int, count: int)
    requires
        0 <= fid < count,
        1 <= k <= count,
    ensures
        Seq::new(k as nat, |i: int| (fid + i) % count).to_set() == Set::new(
            |x: int| (fid <= x < count && x - fid < k) || (0 <= x < fid + k - count),
        ),
{
    let s = Seq::new(k as nat, |i: int| (fid + i) % count);
    let target = Set::new(
        |x: int| (fid <= x < count && x - fid < k) || (0 <= x < fid + k - count),
    );
    assert forall|x: int| s.to_set().contains(x) implies target.contains(x) by {
        let i = choose|i: int| 0 <= i < k && s[i] == x;
        if fid + i < count {
            lemma_small_mod((fid + i) as nat, count as nat);
        } else {
            lemma_mod_add_multiples_vanish(fid + i - count, count);
            lemma_small_mod((fid + i - count) as nat, count as nat);
        }
    }
    assert forall|x: int| target.contains(x) implies s.to_set().contains(x) by {
        if fid <= x < count && x - fid < k {
            let i = x - fid;
            lemma_small_mod(x as nat, count as nat);
            assert(s[i] == x);
            assert(s.contains(x));
        } else {
            let i = x + count - fid;
            lemma_mod_add_multiples_vanish(x, count);
            lemma_small_mod(x as nat, count as nat);
            assert(s[i] == x);
            assert(s.contains(x));
        }
    }
    assert(s.to_set() =~= target);
}

/// Recovers the half-open id range `(start, end)` of the slots covered by a
/// segment of `len` bytes starting at address `ptr`: the id comes back from
/// the address by subtracting the pool base and dividing by the slot size.
/// An address below the base would be a pointer bug, not bad input, and is
/// excluded rather than handled.
pub fn get_range_inner(slot_size: u32, base: u64, ptr: u64, len: usize) -> (r: (u16, u16))
    requires
        slot_size >= 1,
        len >= 1,
        base <= ptr,
        (ptr - base) / (slot_size as int) + div_ceil_spec(len as int, slot_size as int)
            <= u16::MAX,
    ensures
        r.0 == (ptr - base) / (slot_size as int),
        r.1 == r.0 + div_ceil_spec(len as int, slot_size as int),
{
    let offset: u64 = ptr - base;
    proof {
        lemma_div_ceil(len as int, slot_size as int);
        lemma_div_pos_is_pos(offset as int, slot_size as int);
    }
    let start: u16 = (offset / (slot_size as u64)) as u16;
    let last = last_buffer_index(slot_size, start, len);
    (start, last + 1)
}

/// Index of the last slot of a range of `total_len` bytes of data that
/// starts at the first byte of slot `bid`, with slots of `slot_size` bytes.
pub fn last_buffer_index(slot_size: u32, bid: u16, total_len: usize) -> (r: u16)
    requires
        slot_size >= 1,
        total_len >= 1,
        bid + div_ceil_spec(total_len as int, slot_size as int) - 1 <= u16::MAX,
    ensures
        r == bid + div_ceil_spec(total_len as int, slot_size as int) - 1,
{
    proof {
        lemma_div_ceil(total_len as int, slot_size as int);
        let k = div_ceil_spec(total_len as int, slot_size as int);
        assert(k * slot_size <= 0x10000 * 0x1_0000_0000) by (nonlinear_arith)
            requires
                1 <= k <= 0x10000 && 1 <= slot_size <= 0x1_0000_0000,
        ;
    }
    let k: u64 = ((total_len as u64) + ((slot_size - 1) as u64)) / (slot_size as u64);
    (bid as u64 + k - 1) as u16
}

} // verus!
