use std::collections::HashMap;

use mana_driver::build_info::{BaseBuildInfo, BuildInfo, DebugBuildInfo};
use mana_driver::memory::MemoryBlock;
use mana_driver::save_restore::{
    CqEqSavedState, DoorbellSavedState, GdmaDriverSavedState, InterruptSavedState,
    ManaDeviceSavedState, MemoryBlockSavedState, SavedMemoryState, WqSavedState,
};

fn sample_doorbell() -> DoorbellSavedState {
    DoorbellSavedState { doorbell_id: 3, page_count: 8 }
}

fn sample_mem() -> MemoryBlockSavedState {
    MemoryBlockSavedState { base: 0x10000, len: 4096, pfns: vec![16, 17], pfn_bias: 2 }
}

fn sample_cq_eq(id: u32) -> CqEqSavedState {
    CqEqSavedState {
        doorbell: sample_doorbell(),
        doorbell_addr: 0x800,
        mem: sample_mem(),
        id,
        next: 4096,
        size: 4096,
        shift: 12,
    }
}

fn sample_wq(id: u32) -> WqSavedState {
    WqSavedState {
        doorbell: sample_doorbell(),
        doorbell_addr: 0x400,
        mem: sample_mem(),
        id,
        head: 4096,
        tail: 0,
        mask: 4095,
    }
}

#[test]
fn driver_saved_state_round_trips_through_clone() {
    let mut eq_id_msix = HashMap::new();
    eq_id_msix.insert(4u32, 1u32);
    let state = GdmaDriverSavedState {
        mem: SavedMemoryState { base_pfn: 0x100, len: 65536 },
        eq: sample_cq_eq(4),
        cq: sample_cq_eq(5),
        rq: sample_wq(6),
        sq: sample_wq(7),
        db_id: 1,
        gpa_mkey: 0x2468,
        pdid: 9,
        hwc_subscribed: true,
        eq_armed: true,
        cq_armed: false,
        eq_id_msix,
        hwc_activity_id: 21,
        num_msix: 32,
        min_queue_avail: 4,
        interrupt_config: vec![InterruptSavedState { msix_index: 1, cpu: 3 }],
    };
    let device = ManaDeviceSavedState { gdma: state };
    let copy = device.clone();
    assert_eq!(copy.gdma.mem.base_pfn, 0x100);
    assert_eq!(copy.gdma.eq.id, 4);
    assert_eq!(copy.gdma.cq.id, 5);
    assert_eq!(copy.gdma.rq.id, 6);
    assert_eq!(copy.gdma.sq.id, 7);
    assert_eq!(copy.gdma.eq_id_msix.get(&4), Some(&1));
    assert_eq!(copy.gdma.interrupt_config.len(), 1);
    assert_eq!(copy.gdma.interrupt_config[0].cpu, 3);
    assert!(copy.gdma.hwc_subscribed);
    assert!(!copy.gdma.cq_armed);
}

#[test]
fn memory_block_save_reports_metadata() {
    let mem = MemoryBlock::new(0x4000, vec![7, 8, 9], 5, vec![0u8; 96]);
    assert_eq!(mem.len(), 96);
    let saved = mem.save();
    assert_eq!(saved.base, 0x4000);
    assert_eq!(saved.len, 96);
    assert_eq!(saved.pfns, vec![7, 8, 9]);
    assert_eq!(saved.pfn_bias, 5);
}

#[test]
fn memory_block_reads_back_writes() {
    let mut mem = MemoryBlock::new_zeroed(64);
    mem.write_at(10, &vec![1, 2, 3]);
    let r = mem.read_bytes(9, 5);
    assert_eq!(r, vec![0, 1, 2, 3, 0]);
    assert_eq!(mem.read_u8(12), 3);
    // Neighbouring bytes stay zero.
    assert_eq!(mem.read_bytes(0, 9), vec![0; 9]);
}

#[test]
fn build_info_accessors_return_the_recorded_fields() {
    let base = BaseBuildInfo::new(
        "mana_driver".to_string(),
        "1234abcd".to_string(),
        "main".to_string(),
        String::new(),
        String::new(),
        String::new(),
    );
    let info = BuildInfo::WithoutDebugInfo(base);
    assert_eq!(info.crate_name(), "mana_driver");
    assert_eq!(info.scm_revision(), "1234abcd");
    assert_eq!(info.scm_branch(), "main");

    let base = BaseBuildInfo::new(
        "mana_driver".to_string(),
        "ffff".to_string(),
        "release".to_string(),
        String::new(),
        String::new(),
        String::new(),
    );
    let debug = DebugBuildInfo::new(
        "a developer".to_string(),
        "dev@example.com".to_string(),
        "0".to_string(),
        "build-host".to_string(),
        "false".to_string(),
    );
    let info = BuildInfo::WithDebugInfo { build: base, debug_build_info: debug };
    assert_eq!(info.crate_name(), "mana_driver");
    assert_eq!(info.scm_revision(), "ffff");
    assert_eq!(info.scm_branch(), "release");
}
