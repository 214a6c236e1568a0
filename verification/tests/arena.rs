use mana_driver::defs::{GdmaDevId, GdmaQueueType};
use mana_driver::memory::MemoryBlock;
use mana_driver::resources::{
    Resource, ResourceArena, ResourceArenaSavedState, SavedResource, TeardownAction,
};

fn dev(instance: u16) -> GdmaDevId {
    GdmaDevId { ty: 2, instance }
}

#[test]
fn new_arena_is_empty() {
    let arena = ResourceArena::new();
    assert!(arena.is_empty());
}

#[test]
fn pushed_arena_is_not_empty() {
    let mut arena = ResourceArena::new();
    arena.push(Resource::Eq { dev_id: dev(0), eq_id: 4 });
    assert!(!arena.is_empty());
}

#[test]
fn destroy_tears_down_in_reverse_order() {
    // Resources pushed in order [memory, DMA region, event queue] must be
    // torn down in order [event queue, DMA region, memory].
    let mut arena = ResourceArena::new();
    arena.push(Resource::MemoryBlock(MemoryBlock::new_zeroed(64)));
    arena.push(Resource::DmaRegion { dev_id: dev(1), gdma_region: 0xabc });
    arena.push(Resource::Eq { dev_id: dev(1), eq_id: 4 });
    let actions = arena.destroy();
    assert_eq!(actions.len(), 3);
    assert!(matches!(actions[0], TeardownAction::DisableEq { eq_id: 4, .. }));
    assert!(matches!(
        actions[1],
        TeardownAction::DestroyDmaRegion { gdma_region: 0xabc, .. }
    ));
    assert!(matches!(actions[2], TeardownAction::FreeMemory(_)));
}

#[test]
fn destroy_keeps_every_step_despite_failures() {
    // The plan lists every resource; a teardown runner that fails on one
    // step still holds the remaining steps and can attempt them all.
    let mut arena = ResourceArena::new();
    arena.push(Resource::Eq { dev_id: dev(0), eq_id: 1 });
    arena.push(Resource::Eq { dev_id: dev(0), eq_id: 2 });
    arena.push(Resource::Eq { dev_id: dev(0), eq_id: 3 });
    let actions = arena.destroy();
    let ids: Vec<u32> = actions
        .iter()
        .map(|a| match a {
            TeardownAction::DisableEq { eq_id, .. } => *eq_id,
            _ => unreachable!(),
        })
        .collect();
    // Simulate the middle teardown failing: the later step is still there.
    assert_eq!(ids, vec![3, 2, 1]);
}

#[test]
fn take_dma_region_removes_most_recent_duplicate() {
    let mut arena = ResourceArena::new();
    arena.push(Resource::DmaRegion { dev_id: dev(1), gdma_region: 5 });
    arena.push(Resource::Eq { dev_id: dev(1), eq_id: 9 });
    arena.push(Resource::DmaRegion { dev_id: dev(2), gdma_region: 5 });
    arena.take_dma_region(5);
    let saved = arena.save();
    assert_eq!(saved.resources.len(), 2);
    // The earlier duplicate, pushed for device instance 1, stays tracked.
    match &saved.resources[0] {
        SavedResource::DmaRegion { dev_id, gdma_region } => {
            assert_eq!(*gdma_region, 5);
            assert_eq!(dev_id.instance, 1);
        }
        other => panic!("unexpected first entry: {:?}", other),
    }
    assert!(matches!(
        saved.resources[1],
        SavedResource::Eq { eq_id: 9, .. }
    ));
    let _ = arena.destroy();
}

#[test]
fn take_dma_region_keeps_unrelated_tokens() {
    let mut arena = ResourceArena::new();
    arena.push(Resource::DmaRegion { dev_id: dev(1), gdma_region: 7 });
    arena.push(Resource::DmaRegion { dev_id: dev(1), gdma_region: 8 });
    arena.take_dma_region(7);
    let saved = arena.save();
    assert_eq!(saved.resources.len(), 1);
    assert!(matches!(
        saved.resources[0],
        SavedResource::DmaRegion { gdma_region: 8, .. }
    ));
    let _ = arena.destroy();
}

#[test]
fn save_captures_identities_in_allocation_order() {
    let mut arena = ResourceArena::new();
    let mem = MemoryBlock::new(0x4000, vec![4, 5], 1, vec![0u8; 128]);
    arena.push(Resource::MemoryBlock(mem));
    arena.push(Resource::BnicQueue {
        dev_id: dev(3),
        wq_type: GdmaQueueType::GDMA_SQ,
        wq_obj: 0x77,
    });
    let saved = arena.save();
    assert_eq!(saved.resources.len(), 2);
    match &saved.resources[0] {
        SavedResource::MemoryBlock(ms) => {
            assert_eq!(ms.base, 0x4000);
            assert_eq!(ms.len, 128);
            assert_eq!(ms.pfns, vec![4, 5]);
            assert_eq!(ms.pfn_bias, 1);
        }
        other => panic!("unexpected first entry: {:?}", other),
    }
    match &saved.resources[1] {
        SavedResource::BnicQueue { dev_id, wq_type, wq_obj } => {
            assert_eq!(dev_id.instance, 3);
            assert_eq!(*wq_type, GdmaQueueType::GDMA_SQ);
            assert_eq!(*wq_obj, 0x77);
        }
        other => panic!("unexpected second entry: {:?}", other),
    }
    let _ = arena.destroy();
}

#[test]
fn restore_rebuilds_arena_from_snapshot() {
    // Build, save, drain; then restore from the snapshot with a freshly
    // attached memory block and check the rebuilt arena saves identically.
    let mut arena = ResourceArena::new();
    let mem = MemoryBlock::new(0x4000, vec![4], 0, vec![0u8; 64]);
    arena.push(Resource::MemoryBlock(mem));
    arena.push(Resource::DmaRegion { dev_id: dev(1), gdma_region: 0xd });
    arena.push(Resource::Eq { dev_id: dev(1), eq_id: 2 });
    arena.push(Resource::BnicQueue {
        dev_id: dev(1),
        wq_type: GdmaQueueType::GDMA_RQ,
        wq_obj: 0x99,
    });
    let saved = arena.save();
    let _ = arena.destroy();

    let reattached = MemoryBlock::new(0x4000, vec![4], 0, vec![0u8; 64]);
    let restored = saved.clone().restore(vec![reattached]);
    let saved_again = restored.save();
    assert_eq!(saved_again.resources.len(), saved.resources.len());
    for (a, b) in saved.resources.iter().zip(saved_again.resources.iter()) {
        match (a, b) {
            (SavedResource::MemoryBlock(x), SavedResource::MemoryBlock(y)) => {
                assert_eq!(x.base, y.base);
                assert_eq!(x.len, y.len);
                assert_eq!(x.pfns, y.pfns);
                assert_eq!(x.pfn_bias, y.pfn_bias);
            }
            (
                SavedResource::DmaRegion { gdma_region: x, .. },
                SavedResource::DmaRegion { gdma_region: y, .. },
            ) => assert_eq!(x, y),
            (SavedResource::Eq { eq_id: x, .. }, SavedResource::Eq { eq_id: y, .. }) => {
                assert_eq!(x, y)
            }
            (
                SavedResource::BnicQueue { wq_obj: x, .. },
                SavedResource::BnicQueue { wq_obj: y, .. },
            ) => assert_eq!(x, y),
            other => panic!("entry kind changed across restore: {:?}", other),
        }
    }
    let _ = restored.destroy();
}

#[test]
fn restore_of_empty_snapshot_is_empty() {
    let snapshot = ResourceArenaSavedState { resources: Vec::new() };
    let arena = snapshot.restore(Vec::new());
    assert!(arena.is_empty());
}

#[test]
fn drained_arena_is_empty_before_drop() {
    let mut arena = ResourceArena::new();
    arena.push(Resource::Eq { dev_id: dev(0), eq_id: 1 });
    assert!(!arena.is_empty());
    let actions = arena.destroy();
    assert_eq!(actions.len(), 1);
    // Dropping an empty arena makes no leak report; dropping a non-empty
    // one does. The report goes to the error stream; the observable arena
    // state that decides it is exactly `is_empty`.
    let empty = ResourceArena::new();
    assert!(empty.is_empty());
    drop(empty);
    let mut leaky = ResourceArena::new();
    leaky.push(Resource::Eq { dev_id: dev(0), eq_id: 2 });
    assert!(!leaky.is_empty());
    drop(leaky);
}
