//! The memory block backing a queue ring: a byte buffer together with the
//! addressing metadata (guest base address, page frame numbers, page frame
//! bias) that a migration snapshot must carry.
//!
//! The wider memory-allocation subsystem is out of scope; queues only need
//! this block abstraction with bounded reads and writes, its length, and its
//! save metadata.

use vstd::prelude::*;

verus! {

/// Saved addressing metadata of a [`MemoryBlock`], sufficient to re-attach an
/// equivalent block on the far side of a migration.
#[derive(Clone, Debug)]
pub struct MemoryBlockSavedState {
    /// Base address of the block in guest memory.
    pub base: u64,
    /// Length of the block in bytes.
    pub len: usize,
    /// The page frame numbers comprising the block.
    pub pfns: Vec<u64>,
    /// The page frame offset of the block.
    pub pfn_bias: u64,
}

/// A block of DMA-capable memory: the bytes a ring reads and writes, plus the
/// addressing metadata that identifies the block to the device.
#[derive(Debug)]
pub struct MemoryBlock {
    data: Vec<u8>,
    base: u64,
    pfns: Vec<u64>,
    pfn_bias: u64,
}

impl View for MemoryBlock {
    type V = Seq<u8>;

    closed spec fn view(&self) -> Seq<u8> {
        self.data@
    }
}

/// Copies a vector of page frame numbers.
fn copy_pfns(v: &Vec<u64>) -> (r: Vec<u64>)
    ensures
        r@ == v@,
{
    let mut r: Vec<u64> = Vec::new();
    let mut i: usize = 0;
    while i < v.len()
        invariant
            i <= v@.len(),
            r@ == v@.subrange(0, i as int),
        decreases v@.len() - i,
    {
        r.push(v[i]);
        i = i + 1;
        proof {
            assert(r@ =~= v@.subrange(0, i as int));
        }
    }
    proof {
        assert(r@ =~= v@);
    }
    r
}

impl MemoryBlock {
    /// Guest base address of the block.
    pub closed spec fn spec_base(&self) -> u64 {
        self.base
    }

    /// Page frame numbers of the block.
    pub closed spec fn spec_pfns(&self) -> Seq<u64> {
        self.pfns@
    }

    /// Page frame offset of the block.
    pub closed spec fn spec_pfn_bias(&self) -> u64 {
        self.pfn_bias
    }

    /// Wraps a byte buffer and its addressing metadata as a memory block.
    pub fn new(base: u64, pfns: Vec<u64>, pfn_bias: u64, data: Vec<u8>) -> (r: Self)
        ensures
            r@ == data@,
            r.spec_base() == base,
            r.spec_pfns() == pfns@,
            r.spec_pfn_bias() == pfn_bias,
    {
        MemoryBlock { data, base, pfns, pfn_bias }
    }

    /// Allocates a zero-filled block of `len` bytes with empty addressing
    /// metadata, as a freshly allocated ring buffer starts out.
    pub fn new_zeroed(len: usize) -> (r: Self)
        ensures
            r@.len() == len,
            forall|i: int| 0 <= i < len ==> r@[i] == 0u8,
            r.spec_base() == 0u64,
            r.spec_pfns() == Seq::<u64>::empty(),
            r.spec_pfn_bias() == 0u64,
    {
        let mut data: Vec<u8> = Vec::new();
        let mut i: usize = 0;
        while i < len
            invariant
                i <= len,
                data@.len() == i,
                forall|j: int| 0 <= j < i ==> data@[j] == 0u8,
            decreases len - i,
        {
            data.push(0u8);
            i = i + 1;
        }
        MemoryBlock { data, base: 0, pfns: Vec::new(), pfn_bias: 0 }
    }

    /// Length of the block in bytes.
    pub fn len(&self) -> (r: usize)
        ensures
            r == self@.len(),
    {
        self.data.len()
    }

    /// Reads the byte at `offset`.
    pub fn read_u8(&self, offset: usize) -> (r: u8)
        requires
            offset < self@.len(),
        ensures
            r == self@[offset as int],
    {
        self.data[offset]
    }

    /// Reads `count` bytes starting at `offset`.
    pub fn read_bytes(&self, offset: usize, count: usize) -> (r: Vec<u8>)
        requires
            offset + count <= self@.len(),
        ensures
            r@ == self@.subrange(offset as int, offset as int + count as int),
    {
        let mut r: Vec<u8> = Vec::new();
        let mut i: usize = 0;
        while i < count
            invariant
                i <= count,
                offset + count <= self@.len(),
                r@ == self@.subrange(offset as int, offset as int + i as int),
            decreases count - i,
        {
            let _n = self.data.len();
            r.push(self.data[offset + i]);
            i = i + 1;
            proof {
                assert(r@ =~= self@.subrange(offset as int, offset as int + i as int));
            }
        }
        r
    }

    /// Writes `data` at `offset`, leaving every other byte unchanged.
    pub fn write_at(&mut self, offset: usize, data: &Vec<u8>)
        requires
            offset + data@.len() <= old(self)@.len(),
        ensures
            final(self)@.len() == old(self)@.len(),
            forall|i: int|
                0 <= i < data@.len() ==> final(self)@[offset + i] == data@[i],
            forall|j: int|
                0 <= j < old(self)@.len() && !(offset <= j < offset + data@.len())
                    ==> final(self)@[j] == old(self)@[j],
            final(self).spec_base() == old(self).spec_base(),
            final(self).spec_pfns() == old(self).spec_pfns(),
            final(self).spec_pfn_bias() == old(self).spec_pfn_bias(),
    {
        let mut i: usize = 0;
        while i < data.len()
            invariant
                i <= data@.len(),
                offset + data@.len() <= self@.len(),
                self@.len() == old(self)@.len(),
                forall|k: int| 0 <= k < i ==> self@[offset + k] == data@[k],
                forall|j: int|
                    0 <= j < old(self)@.len() && !(offset <= j < offset + i)
                        ==> self@[j] == old(self)@[j],
                self.spec_base() == old(self).spec_base(),
                self.spec_pfns() == old(self).spec_pfns(),
                self.spec_pfn_bias() == old(self).spec_pfn_bias(),
            decreases data@.len() - i,
        {
            let _n = self.data.len();
            self.data[offset + i] = data[i];
            i = i + 1;
        }
    }

    /// Captures the addressing metadata of the block for a migration
    /// snapshot. The byte contents stay in place in guest memory and are not
    /// part of the snapshot.
    pub fn save(&self) -> (r: MemoryBlockSavedState)
        ensures
            r.base == self.spec_base(),
            r.len == self@.len(),
            r.pfns@ == self.spec_pfns(),
            r.pfn_bias == self.spec_pfn_bias(),
    {
        MemoryBlockSavedState {
            base: self.base,
            len: self.data.len(),
            pfns: copy_pfns(&self.pfns),
            pfn_bias: self.pfn_bias,
        }
    }
}

} // verus!
