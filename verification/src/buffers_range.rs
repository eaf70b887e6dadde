use crate::buffer_pool::{BufferPool, PoolModel};
use crate::math::{div_ceil_spec, lemma_div_ceil};
use vstd::arithmetic::div_mod::{
    lemma_div_by_multiple, lemma_div_pos_is_pos, lemma_fundamental_div_mod,
    lemma_mod_multiples_basic,
};
use vstd::prelude::*;

verus! {

/// The mathematical content of one contiguous segment: its address and its
/// byte count.
pub ghost struct SegModel {
    pub ptr: u64,
    pub len: usize,
}

impl SegModel {
    /// The segment's byte offset within the pool's arena.
    pub open spec fn off(self, pool: PoolModel) -> int {
        self.ptr - pool.base
    }

    /// The id of the first slot the segment covers, recovered from the
    /// address: offset divided by slot size.
    pub open spec fn start_id(self, pool: PoolModel) -> int {
        self.off(pool) / (pool.slot_size as int)
    }

    /// How many slots the segment covers.
    pub open spec fn slot_span(self, pool: PoolModel) -> int {
        div_ceil_spec(self.len as int, pool.slot_size as int)
    }

    /// A segment is well formed for a pool when it holds at least one byte,
    /// starts on a slot boundary inside the pool, and the slots it covers
    /// all belong to the pool.
    pub open spec fn wf(self, pool: PoolModel) -> bool {
        &&& 1 <= self.len
        &&& pool.base <= self.ptr
        &&& self.off(pool) % (pool.slot_size as int) == 0
        &&& self.start_id(pool) + self.slot_span(pool) <= pool.slot_count
    }

    /// The bytes the segment views.
    pub open spec fn bytes(self, pool: PoolModel) -> Seq<u8> {
        pool.bytes.subrange(self.off(pool), self.off(pool) + self.len)
    }

    /// The ids of the slots the segment covers, in ascending order.
    pub open spec fn ids(self, pool: PoolModel) -> Seq<int> {
        Seq::new(self.slot_span(pool) as nat, |i: int| self.start_id(pool) + i)
    }
}

/// A well-formed segment lies within the pool's arena and within the
/// capacity of the slots it covers.
pub proof fn lemma_seg_in_pool(seg: SegModel, pool: PoolModel)
    requires
        pool.wf(),
        seg.wf(pool),
    ensures
        0 <= seg.start_id(pool),
        1 <= seg.slot_span(pool),
        seg.off(pool) == seg.start_id(pool) * pool.slot_size,
        seg.len <= seg.slot_span(pool) * pool.slot_size,
        seg.off(pool) + seg.len <= pool.bytes.len(),
{
    let size = pool.slot_size as int;
    let off = seg.off(pool);
    let start = seg.start_id(pool);
    let span = seg.slot_span(pool);
    lemma_div_pos_is_pos(off, size);
    lemma_fundamental_div_mod(off, size);
    assert(off == start * size) by (nonlinear_arith)
        requires
            off == size * start + off % size && off % size == 0,
    ;
    lemma_div_ceil(seg.len as int, size);
    assert(start * size + span * size <= pool.slot_count as int * size) by (nonlinear_arith)
        requires
            size >= 1 && start + span <= pool.slot_count as int,
    ;
}

/// A segment placed at the address of slot `id` starts at slot `id`: the
/// recovery of the id from the address by subtraction and division is
/// exact.
pub proof fn lemma_seg_id_facts(seg: SegModel, pool: PoolModel, id: int)
    requires
        pool.wf(),
        0 <= id,
        seg.ptr == pool.addr_of(id),
    ensures
        seg.off(pool) == id * pool.slot_size,
        seg.off(pool) % (pool.slot_size as int) == 0,
        seg.start_id(pool) == id,
{
    lemma_mod_multiples_basic(id, pool.slot_size as int);
    lemma_div_by_multiple(id, pool.slot_size as int);
}

/// The mathematical content of a buffer range: one mandatory segment and
/// one optional second segment.
pub ghost struct RangeModel {
    pub first: SegModel,
    pub second: Option<SegModel>,
}

impl RangeModel {
    /// All bytes the range views together.
    pub open spec fn total_len(self) -> int {
        self.first.len + (match self.second {
            Some(s) => s.len as int,
            None => 0,
        })
    }

    /// The ids of all covered slots, first segment then second, each in
    /// ascending order.
    pub open spec fn ids(self, pool: PoolModel) -> Seq<int> {
        self.first.ids(pool) + (match self.second {
            Some(s) => s.ids(pool),
            None => Seq::<int>::empty(),
        })
    }

    /// The viewed bytes in slot order.
    pub open spec fn bytes(self, pool: PoolModel) -> Seq<u8> {
        self.first.bytes(pool) + (match self.second {
            Some(s) => s.bytes(pool),
            None => Seq::<u8>::empty(),
        })
    }

    /// Both segments are well formed and together cover at most one full
    /// pass of the ring, so recycling the range rewrites each entry at most
    /// once.
    pub open spec fn wf(self, pool: PoolModel) -> bool {
        &&& self.first.wf(pool)
        &&& (self.second matches Some(s) ==> s.wf(pool))
        &&& self.ids(pool).len() <= pool.slot_count
    }
}

/// One contiguous run of filled slots: an address and a byte count. Slot
/// ids are recovered from the address when the range is recycled.
pub struct BufferRangeInner {
    pub(crate) ptr: u64,
    pub(crate) len: usize,
}

impl View for BufferRangeInner {
    type V = SegModel;

    closed spec fn view(&self) -> SegModel {
        SegModel { ptr: self.ptr, len: self.len }
    }
}

impl BufferRangeInner {
    /// Makes the segment of `len` bytes at `ptr`.
    pub(crate) fn make(ptr: u64, len: usize) -> (r: BufferRangeInner)
        ensures
            r@ == (SegModel { ptr, len }),
    {
        BufferRangeInner { ptr, len }
    }

    /// The address of the segment's first byte.
    pub fn addr(&self) -> (r: u64)
        ensures
            r == self@.ptr,
    {
        self.ptr
    }

    /// The segment's byte count.
    pub fn len(&self) -> (r: usize)
        ensures
            r == self@.len,
    {
        self.len
    }
}

/// A read-only view over the slots of one bundled completion: one mandatory
/// segment, and a second one exactly when the completion's data wrapped
/// past the end of the ring back to slot 0. Like `Buffer` it owns nothing
/// and returns nothing on drop; recycling is an explicit call.
pub struct BufferRange {
    pub(crate) first: BufferRangeInner,
    pub(crate) second: Option<BufferRangeInner>,
}

impl View for BufferRange {
    type V = RangeModel;

    closed spec fn view(&self) -> RangeModel {
        RangeModel {
            first: self.first@,
            second: match self.second {
                Some(s) => Some(s@),
                None => None,
            },
        }
    }
}

impl BufferRange {
    /// Makes the range of one mandatory and one optional segment.
    pub(crate) fn make(first: BufferRangeInner, second: Option<BufferRangeInner>) -> (r:
        BufferRange)
        ensures
            r@.first == first@,
            second matches Some(s) ==> r@.second == Some(s@),
            second is None ==> r@.second is None,
    {
        BufferRange { first, second }
    }

    /// The mandatory first segment.
    pub fn first(&self) -> (r: &BufferRangeInner)
        ensures
            r@ == self@.first,
    {
        &self.first
    }

    /// The second segment, present exactly when the range wraps.
    pub fn second(&self) -> (r: Option<&BufferRangeInner>)
        ensures
            match r {
                Some(s) => self@.second == Some(s@),
                None => self@.second is None,
            },
    {
        match &self.second {
            Some(s) => Some(s),
            None => None,
        }
    }

    /// The one or two byte views, in slot order.
    pub fn as_parts(&self, pool: &BufferPool) -> (r: (Vec<u8>, Option<Vec<u8>>))
        requires
            pool@.wf(),
            self@.wf(pool@),
        ensures
            r.0@ == self@.first.bytes(pool@),
            self@.second is None ==> r.1 is None,
            self@.second matches Some(s) ==> r.1 matches Some(v) && v@ == s.bytes(pool@),
    {
        proof {
            lemma_seg_in_pool(self@.first, pool@);
        }
        let b1 = pool.read_at(self.first.ptr, self.first.len);
        let b2 = match &self.second {
            Some(seg) => {
                proof {
                    lemma_seg_in_pool(seg@, pool@);
                }
                Some(pool.read_at(seg.ptr, seg.len))
            },
            None => None,
        };
        (b1, b2)
    }

    /// Every viewed byte in slot order, the first segment's bytes and then
    /// the second's: the single logical sequence over a possibly wrapped
    /// completion.
    pub fn as_iterator(&self, pool: &BufferPool) -> (r: Vec<u8>)
        requires
            pool@.wf(),
            self@.wf(pool@),
        ensures
            r@ == self@.bytes(pool@),
    {
        let (mut v, rest) = self.as_parts(pool);
        match rest {
            Some(mut b) => {
                v.append(&mut b);
            },
            None => {},
        }
        proof {
            assert(v@ =~= self@.bytes(pool@));
        }
        v
    }
}

} // verus!
