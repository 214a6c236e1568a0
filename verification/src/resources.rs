//! The resource arena: an append-ordered log of every device and host
//! resource allocated while a device is set up and run. Teardown must walk
//! the log in reverse allocation order, because later resources depend on
//! earlier ones; the arena owns the right to release each resource exactly
//! once.

use crate::defs::{GdmaDevId, GdmaQueueType};
use crate::memory::{MemoryBlock, MemoryBlockSavedState};
use std::io::Write;
use vstd::prelude::*;

verus! {

/// One tracked resource.
pub enum Resource {
    /// An owned block of DMA-capable memory.
    MemoryBlock(MemoryBlock),
    /// A device-side DMA region handle.
    DmaRegion { dev_id: GdmaDevId, gdma_region: u64 },
    /// An event-queue handle on the device.
    Eq { dev_id: GdmaDevId, eq_id: u32 },
    /// A device queue-object handle.
    BnicQueue { dev_id: GdmaDevId, wq_type: GdmaQueueType, wq_obj: u64 },
}

/// The serializable identity of one tracked resource. Device-side handles
/// persist in place across a migration, so only their identifying tokens are
/// captured; a memory block captures its addressable description.
#[derive(Debug, Clone)]
pub enum SavedResource {
    /// The addressing metadata of an owned memory block.
    MemoryBlock(MemoryBlockSavedState),
    /// A device-side DMA region handle.
    DmaRegion { dev_id: GdmaDevId, gdma_region: u64 },
    /// An event-queue handle on the device.
    Eq { dev_id: GdmaDevId, eq_id: u32 },
    /// A device queue-object handle.
    BnicQueue { dev_id: GdmaDevId, wq_type: GdmaQueueType, wq_obj: u64 },
}

/// One teardown step. Draining the arena yields these in reverse allocation
/// order; the device-facing caller issues the matching release call for each
/// and carries on past individual failures, so that one failed teardown
/// never blocks the rest.
pub enum TeardownAction {
    /// Release the memory block back to its owner.
    FreeMemory(MemoryBlock),
    /// Ask the device to destroy the DMA region.
    DestroyDmaRegion { dev_id: GdmaDevId, gdma_region: u64 },
    /// Ask the device to disable the event queue.
    DisableEq { dev_id: GdmaDevId, eq_id: u32 },
    /// Ask the device to destroy the queue object.
    DestroyBnicQueue { dev_id: GdmaDevId, wq_type: GdmaQueueType, wq_obj: u64 },
}

/// Whether `s` is the saved identity of `r`.
pub open spec fn resource_saved(r: Resource, s: SavedResource) -> bool {
    match r {
        Resource::MemoryBlock(m) => s matches SavedResource::MemoryBlock(ms) && ms.base
            == m.spec_base() && ms.len == m@.len() && ms.pfns@ == m.spec_pfns() && ms.pfn_bias
            == m.spec_pfn_bias(),
        Resource::DmaRegion { dev_id, gdma_region } => s == (SavedResource::DmaRegion {
            dev_id,
            gdma_region,
        }),
        Resource::Eq { dev_id, eq_id } => s == (SavedResource::Eq { dev_id, eq_id }),
        Resource::BnicQueue { dev_id, wq_type, wq_obj } => s == (SavedResource::BnicQueue {
            dev_id,
            wq_type,
            wq_obj,
        }),
    }
}

/// The teardown step that releases `r`.
pub open spec fn teardown_of(r: Resource) -> TeardownAction {
    match r {
        Resource::MemoryBlock(m) => TeardownAction::FreeMemory(m),
        Resource::DmaRegion { dev_id, gdma_region } => TeardownAction::DestroyDmaRegion {
            dev_id,
            gdma_region,
        },
        Resource::Eq { dev_id, eq_id } => TeardownAction::DisableEq { dev_id, eq_id },
        Resource::BnicQueue { dev_id, wq_type, wq_obj } => TeardownAction::DestroyBnicQueue {
            dev_id,
            wq_type,
            wq_obj,
        },
    }
}

/// Whether `r` is the DMA region tracked under `token`.
pub open spec fn is_dma_region_match(r: Resource, token: u64) -> bool {
    match r {
        Resource::DmaRegion { gdma_region, .. } => gdma_region == token,
        _ => false,
    }
}

/// The index of the most recently pushed DMA region tracked under `token`,
/// or a negative value when none is.
pub open spec fn last_dma_match(s: Seq<Resource>, token: u64) -> int
    decreases s.len(),
{
    if s.len() == 0 {
        -1
    } else if is_dma_region_match(s.last(), token) {
        s.len() - 1
    } else {
        last_dma_match(s.drop_last(), token)
    }
}

/// The matching index with nothing matching above it is the last match.
proof fn lemma_last_dma_match_char(s: Seq<Resource>, token: u64, j: int)
    requires
        0 <= j < s.len(),
        is_dma_region_match(s[j], token),
        forall|jj: int| j < jj < s.len() ==> !is_dma_region_match(s[jj], token),
    ensures
        last_dma_match(s, token) == j,
    decreases s.len(),
{
    if j == s.len() - 1 {
    } else {
        assert(!is_dma_region_match(s.last(), token));
        assert(s.drop_last() == s.subrange(0, s.len() - 1));
        lemma_last_dma_match_char(s.drop_last(), token, j);
    }
}

/// A list of allocated device resources.
///
/// The list is extended as device resources are allocated and must be
/// drained through [`ResourceArena::destroy`]. An arena dropped while
/// non-empty reports the leak; the resources it tracked are gone for good.
pub struct ResourceArena {
    resources: Vec<Resource>,
}

/// The serializable snapshot of a resource arena.
#[derive(Debug, Clone)]
pub struct ResourceArenaSavedState {
    /// The saved identity of every tracked resource, in allocation order.
    pub resources: Vec<SavedResource>,
}

impl Resource {
    /// Captures the saved identity of this resource.
    pub fn to_saved_resource(&self) -> (r: SavedResource)
        ensures
            resource_saved(*self, r),
    {
        match self {
            Resource::MemoryBlock(m) => SavedResource::MemoryBlock(m.save()),
            Resource::DmaRegion { dev_id, gdma_region } => {
                SavedResource::DmaRegion { dev_id: *dev_id, gdma_region: *gdma_region }
            },
            Resource::Eq { dev_id, eq_id } => SavedResource::Eq {
                dev_id: *dev_id,
                eq_id: *eq_id,
            },
            Resource::BnicQueue { dev_id, wq_type, wq_obj } => {
                SavedResource::BnicQueue {
                    dev_id: *dev_id,
                    wq_type: *wq_type,
                    wq_obj: *wq_obj,
                }
            },
        }
    }
}

impl ResourceArena {
    /// The tracked resources, in allocation order.
    pub closed spec fn spec_resources(&self) -> Seq<Resource> {
        self.resources@
    }

    /// Creates a new empty resource arena.
    pub fn new() -> (r: Self)
        ensures
            r.spec_resources() == Seq::<Resource>::empty(),
    {
        ResourceArena { resources: Vec::new() }
    }

    /// Returns true if the arena has no allocated resources. Dropping the
    /// arena is leak-free exactly when this holds.
    pub fn is_empty(&self) -> (r: bool)
        ensures
            r == (self.spec_resources().len() == 0),
    {
        self.resources.len() == 0
    }

    /// Appends a resource to the log.
    pub fn push(&mut self, resource: Resource)
        ensures
            final(self).spec_resources() == old(self).spec_resources().push(resource),
    {
        self.resources.push(resource);
    }

    /// Removes and returns nothing but forgets the most recently pushed DMA
    /// region tracked under `owned_gdma_region`: ownership of that one
    /// region moves back to the caller, which releases it itself. Earlier
    /// entries under the same token stay tracked. Calling this without a
    /// matching entry is an arena bookkeeping error.
    pub fn take_dma_region(&mut self, owned_gdma_region: u64)
        requires
            last_dma_match(old(self).spec_resources(), owned_gdma_region) >= 0,
        ensures
            final(self).spec_resources() == old(self).spec_resources().remove(
                last_dma_match(old(self).spec_resources(), owned_gdma_region),
            ),
    {
        let ghost target = last_dma_match(self.spec_resources(), owned_gdma_region);
        let mut i: usize = self.resources.len();
        loop
            invariant
                0 <= i <= self.spec_resources().len(),
                *self == *old(self),
                last_dma_match(self.spec_resources(), owned_gdma_region) == target,
                target >= 0,
                forall|jj: int|
                    i <= jj < self.spec_resources().len() ==> !is_dma_region_match(
                        self.spec_resources()[jj],
                        owned_gdma_region,
                    ),
            decreases i,
        {
            proof {
                if i == 0 {
                    lemma_last_dma_match_none(
                        self.spec_resources(),
                        owned_gdma_region,
                    );
                }
            }
            i = i - 1;
            let found = match &self.resources[i] {
                Resource::DmaRegion { gdma_region, .. } => *gdma_region == owned_gdma_region,
                _ => false,
            };
            if found {
                proof {
                    lemma_last_dma_match_char(
                        self.spec_resources(),
                        owned_gdma_region,
                        i as int,
                    );
                }
                self.resources.remove(i);
                return ;
            }
        }
    }

    /// Consumes the arena and returns the teardown steps for every tracked
    /// resource, most recently allocated first. The caller performs each
    /// step in order; teardown failures are reported and skipped, never
    /// allowed to block the remaining steps. The drained arena drops without
    /// a leak report.
    pub fn destroy(self) -> (r: Vec<TeardownAction>)
        ensures
            r@.len() == self.spec_resources().len(),
            forall|i: int|
                0 <= i < r@.len() ==> r@[i] == teardown_of(
                    self.spec_resources()[self.spec_resources().len() - 1 - i],
                ),
    {
        let mut this = self;
        let ghost all = this.spec_resources();
        let mut out: Vec<TeardownAction> = Vec::new();
        loop
            invariant
                all == self.spec_resources(),
                this.spec_resources() == all.take(all.len() - out@.len()),
                out@.len() <= all.len(),
                forall|i: int| 0 <= i < out@.len() ==> out@[i] == teardown_of(all[all.len() - 1 - i]),
            decreases all.len() - out@.len(),
        {
            let next = this.resources.pop();
            match next {
                Some(res) => {
                    let action = match res {
                        Resource::MemoryBlock(m) => TeardownAction::FreeMemory(m),
                        Resource::DmaRegion { dev_id, gdma_region } => {
                            TeardownAction::DestroyDmaRegion { dev_id, gdma_region }
                        },
                        Resource::Eq { dev_id, eq_id } => {
                            TeardownAction::DisableEq { dev_id, eq_id }
                        },
                        Resource::BnicQueue { dev_id, wq_type, wq_obj } => {
                            TeardownAction::DestroyBnicQueue { dev_id, wq_type, wq_obj }
                        },
                    };
                    out.push(action);
                    proof {
                        assert(this.spec_resources() =~= all.take(all.len() - out@.len()));
                    }
                },
                None => {
                    return out;
                },
            }
        }
    }

    /// Captures the saved identity of every tracked resource, in allocation
    /// order, without releasing anything.
    pub fn save(&self) -> (r: ResourceArenaSavedState)
        ensures
            r.resources@.len() == self.spec_resources().len(),
            forall|i: int|
                0 <= i < r.resources@.len() ==> resource_saved(
                    self.spec_resources()[i],
                    r.resources@[i],
                ),
    {
        let mut saved: Vec<SavedResource> = Vec::new();
        let mut i: usize = 0;
        while i < self.resources.len()
            invariant
                i <= self.spec_resources().len(),
                saved@.len() == i,
                forall|j: int|
                    0 <= j < i ==> resource_saved(self.spec_resources()[j], saved@[j]),
            decreases self.spec_resources().len() - i,
        {
            let s = self.resources[i].to_saved_resource();
            saved.push(s);
            i = i + 1;
        }
        ResourceArenaSavedState { resources: saved }
    }
}

/// No match anywhere means no last match.
proof fn lemma_last_dma_match_none(s: Seq<Resource>, token: u64)
    requires
        forall|jj: int| 0 <= jj < s.len() ==> !is_dma_region_match(s[jj], token),
    ensures
        last_dma_match(s, token) < 0,
    decreases s.len(),
{
    if s.len() > 0 {
        assert(s.drop_last() == s.subrange(0, s.len() - 1));
        lemma_last_dma_match_none(s.drop_last(), token);
    }
}

impl Drop for ResourceArena {
    /// An arena dropped while it still tracks resources leaks them; report
    /// the leak as the designed safety net against forgotten teardown.
    /// Relies on `Vec::is_empty` and on `std::io::Write` for
    /// `std::io::Stderr`: writes one report line when resources leak and
    /// does nothing otherwise.
    #[verifier::external_body]
    fn drop(&mut self)
        opens_invariants none
        no_unwind
    {
        if !self.resources.is_empty() {
            let mut err = std::io::stderr();
            let _ = writeln!(err, "leaking resources");
        }
    }
}

/// The number of memory-block entries among the saved resources.
pub open spec fn n_mem_blocks(s: Seq<SavedResource>) -> int
    decreases s.len(),
{
    if s.len() == 0 {
        0
    } else {
        n_mem_blocks(s.drop_last()) + (if s.last() is MemoryBlock {
            1int
        } else {
            0int
        })
    }
}

/// Counting memory blocks over a prefix grows by the entry just included.
proof fn lemma_n_mem_blocks_step(s: Seq<SavedResource>, i: int)
    requires
        0 <= i < s.len(),
    ensures
        n_mem_blocks(s.take(i + 1)) == n_mem_blocks(s.take(i)) + (if s[i] is MemoryBlock {
            1int
        } else {
            0int
        }),
{
    assert(s.take(i + 1).drop_last() =~= s.take(i));
    assert(s.take(i + 1).last() == s[i]);
}

/// Prefix counts never exceed the total count.
proof fn lemma_n_mem_blocks_bounds(s: Seq<SavedResource>, i: int)
    requires
        0 <= i <= s.len(),
    ensures
        0 <= n_mem_blocks(s.take(i)) <= n_mem_blocks(s),
    decreases s.len() - i,
{
    if i == s.len() {
        assert(s.take(i) =~= s);
        lemma_n_mem_blocks_nonneg(s);
    } else {
        lemma_n_mem_blocks_step(s, i);
        lemma_n_mem_blocks_bounds(s, i + 1);
        lemma_n_mem_blocks_nonneg(s.take(i));
    }
}

/// The count is never negative.
proof fn lemma_n_mem_blocks_nonneg(s: Seq<SavedResource>)
    ensures
        n_mem_blocks(s) >= 0,
    decreases s.len(),
{
    if s.len() > 0 {
        lemma_n_mem_blocks_nonneg(s.drop_last());
    }
}

/// Whether `r` is the live resource rebuilt from `sr`, where a memory-block
/// entry re-attaches to the freshly provided block at index `j`.
pub open spec fn restores_resource(
    sr: SavedResource,
    r: Resource,
    mems: Seq<MemoryBlock>,
    j: int,
) -> bool {
    match sr {
        SavedResource::MemoryBlock(ms) => r == Resource::MemoryBlock(mems[j]),
        SavedResource::DmaRegion { dev_id, gdma_region } => r == (Resource::DmaRegion {
            dev_id,
            gdma_region,
        }),
        SavedResource::Eq { dev_id, eq_id } => r == (Resource::Eq { dev_id, eq_id }),
        SavedResource::BnicQueue { dev_id, wq_type, wq_obj } => r == (Resource::BnicQueue {
            dev_id,
            wq_type,
            wq_obj,
        }),
    }
}

impl ResourceArenaSavedState {
    /// Rebuilds an arena from its snapshot. Device-side handles are re-wrapped
    /// from their identifying tokens without reissuing any allocation call;
    /// each memory-block entry takes the next of the freshly re-attached
    /// blocks in `mems`, which the caller obtained for the saved base
    /// addresses and lengths, in log order.
    pub fn restore(self, mems: Vec<MemoryBlock>) -> (r: ResourceArena)
        requires
            mems@.len() == n_mem_blocks(self.resources@),
        ensures
            r.spec_resources().len() == self.resources@.len(),
            forall|i: int|
                0 <= i < self.resources@.len() ==> restores_resource(
                    self.resources@[i],
                    r.spec_resources()[i],
                    mems@,
                    n_mem_blocks(self.resources@.take(i)),
                ),
    {
        let ghost all_mems = mems@;
        let ghost saved = self.resources@;
        let mut mems = mems;
        let mut arena = ResourceArena::new();
        let mut i: usize = 0;
        while i < self.resources.len()
            invariant
                i <= saved.len(),
                self.resources@ == saved,
                arena.spec_resources().len() == i,
                all_mems.len() == n_mem_blocks(saved),
                mems@ == all_mems.subrange(n_mem_blocks(saved.take(i as int)), all_mems.len() as int),
                forall|j: int|
                    0 <= j < i ==> restores_resource(
                        saved[j],
                        arena.spec_resources()[j],
                        all_mems,
                        n_mem_blocks(saved.take(j)),
                    ),
            decreases saved.len() - i,
        {
            proof {
                lemma_n_mem_blocks_step(saved, i as int);
                lemma_n_mem_blocks_bounds(saved, i as int);
                lemma_n_mem_blocks_bounds(saved, i as int + 1);
            }
            let res = match &self.resources[i] {
                SavedResource::MemoryBlock(_) => {
                    let m = mems.remove(0);
                    Resource::MemoryBlock(m)
                },
                SavedResource::DmaRegion { dev_id, gdma_region } => {
                    Resource::DmaRegion { dev_id: *dev_id, gdma_region: *gdma_region }
                },
                SavedResource::Eq { dev_id, eq_id } => {
                    Resource::Eq { dev_id: *dev_id, eq_id: *eq_id }
                },
                SavedResource::BnicQueue { dev_id, wq_type, wq_obj } => {
                    Resource::BnicQueue { dev_id: *dev_id, wq_type: *wq_type, wq_obj: *wq_obj }
                },
            };
            arena.push(res);
            i = i + 1;
            proof {
                assert(mems@ =~= all_mems.subrange(
                    n_mem_blocks(saved.take(i as int)),
                    all_mems.len() as int,
                ));
            }
        }
        arena
    }
}

} // verus!
