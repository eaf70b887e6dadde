use crate::math::{lemma_pow2_u16_bound, pow2_u16};
use crate::RingError;
use vstd::prelude::*;

verus! {

/// One descriptor record as the kernel-shared ring holds it: the slot's
/// address, its published byte capacity and its slot id. The on-ring record
/// is 16 bytes (8-byte address, 4-byte length, 2-byte id, 2 reserved bytes,
/// all little-endian); the reserved bytes carry no data.
#[derive(Clone, Copy, Debug, PartialEq, Eq, Structural)]
pub struct RingEntry {
    pub addr: u64,
    pub len: u32,
    pub bid: u16,
}

/// The mathematical content of a descriptor ring: its records and the
/// producer's tail counter.
pub ghost struct RingModel {
    pub entries: Seq<RingEntry>,
    pub tail: u16,
}

impl RingModel {
    /// The number of entries, always a power of two so that the tail can be
    /// reduced to an entry index by masking.
    pub open spec fn count(self) -> u16 {
        self.entries.len() as u16
    }

    pub open spec fn wf(self) -> bool {
        &&& self.entries.len() <= 0x8000
        &&& pow2_u16(self.entries.len() as u16)
    }
}

/// The descriptor ring: a bounded array of descriptor records plus the tail
/// counter through which the records are published. In the running system
/// this array and its tail live in one memory mapping shared with the
/// kernel; this type owns the same records as plain values, and the mapping
/// itself, with its release-store of the shared 16-bit tail, is the one
/// concern left outside the library. Teardown is the single drop of the
/// owned array.
pub struct MmapedRing {
    entries: Vec<RingEntry>,
    tail: u16,
}

impl View for MmapedRing {
    type V = RingModel;

    closed spec fn view(&self) -> RingModel {
        RingModel { entries: self.entries@, tail: self.tail }
    }
}

impl MmapedRing {
    /// Reserves a ring of `entry_count` descriptor records, all zero, with
    /// the tail counter at 0. Any count that is not a power of two cannot be
    /// masked and is refused.
    pub fn build(entry_count: u16) -> (r: Result<MmapedRing, RingError>)
        ensures
            r is Ok <==> pow2_u16(entry_count),
            r matches Err(e) ==> e == RingError::InvalidArgument,
            r matches Ok(ring) ==> {
                &&& ring@.wf()
                &&& ring@.count() == entry_count
                &&& ring@.tail == 0
                &&& ring@.entries == Seq::new(
                    entry_count as nat,
                    |i: int| RingEntry { addr: 0, len: 0, bid: 0 },
                )
            },
    {
        if entry_count == 0 || entry_count & (entry_count - 1) != 0 {
            return Err(RingError::InvalidArgument);
        }
        proof {
            lemma_pow2_u16_bound(entry_count);
        }
        let mut entries: Vec<RingEntry> = Vec::new();
        while entries.len() < entry_count as usize
            invariant
                entries@.len() <= entry_count,
                forall|i: int|
                    0 <= i < entries@.len() ==> entries@[i] == (RingEntry {
                        addr: 0,
                        len: 0,
                        bid: 0,
                    }),
            decreases entry_count - entries@.len(),
        {
            entries.push(RingEntry { addr: 0, len: 0, bid: 0 });
        }
        let ring = MmapedRing { entries, tail: 0 };
        proof {
            assert(ring@.entries =~= Seq::new(
                entry_count as nat,
                |i: int| RingEntry { addr: 0, len: 0, bid: 0 },
            ));
        }
        Ok(ring)
    }

    /// The tail counter, as the kernel's acquire-load of the shared counter
    /// would see it.
    pub fn tail(&self) -> (r: u16)
        ensures
            r == self@.tail,
    {
        self.tail
    }

    /// The number of descriptor records.
    pub fn count(&self) -> (r: u16)
        requires
            self@.wf(),
        ensures
            r == self@.count(),
    {
        self.entries.len() as u16
    }

    /// One descriptor record, read back from the ring.
    pub fn entry(&self, i: u16) -> (r: RingEntry)
        requires
            i < self@.entries.len(),
        ensures
            r == self@.entries[i as int],
    {
        self.entries[i as usize]
    }

    /// Writes one descriptor record: the recycler's store into the shared
    /// array, made before the tail that publishes it.
    pub(crate) fn set_entry(&mut self, i: u16, e: RingEntry)
        requires
            i < old(self)@.entries.len(),
        ensures
            final(self)@.entries == old(self)@.entries.update(i as int, e),
            final(self)@.tail == old(self)@.tail,
    {
        self.entries.set(i as usize, e);
    }

    /// Release-stores a new tail, making every record written before it
    /// visible to the kernel.
    pub(crate) fn store_tail(&mut self, t: u16)
        ensures
            final(self)@.tail == t,
            final(self)@.entries == old(self)@.entries,
    {
        self.tail = t;
    }
}

} // verus!
