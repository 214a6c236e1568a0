use mana_driver::defs::{
    encode_cq_eq_doorbell, encode_wq_doorbell, sge_to_bytes, wqe_header, wqe_params, Eqe,
    GdmaQueueType, QueueEntry, Sge, CLIENT_OOB_24, DB_EQ, DB_RQ,
};
use mana_driver::doorbell::{DoorbellPage, NullDoorbell, RecordingDoorbell};
use mana_driver::memory::MemoryBlock;
use mana_driver::queues::{CqEq, Wq};

fn recording_page(pages: u32) -> DoorbellPage<RecordingDoorbell> {
    DoorbellPage::new(RecordingDoorbell::new(pages), 0).unwrap()
}

#[test]
fn entry_size_values() {
    assert_eq!(Wq::<NullDoorbell>::entry_size(0, 0), 32);
    assert_eq!(Wq::<NullDoorbell>::entry_size(8, 1), 32);
    assert_eq!(Wq::<NullDoorbell>::entry_size(24, 2), 64);
    assert_eq!(Wq::<NullDoorbell>::entry_size(32, 0), 64);
    assert_eq!(Wq::<NullDoorbell>::entry_size(32, 3), 96);
}

#[test]
fn entry_size_is_aligned_and_monotone() {
    let mut prev = 0;
    for sge in 0..16 {
        let n = Wq::<NullDoorbell>::entry_size(24, sge);
        assert_eq!(n % 32, 0);
        assert!(n >= prev);
        prev = n;
    }
    for &oob in &[0usize, 8, 24, 32] {
        let n = Wq::<NullDoorbell>::entry_size(oob, 4);
        assert_eq!(n % 32, 0);
        assert!(n as usize >= 8 + oob + 64);
    }
}

#[test]
fn ring_fills_to_capacity_and_reports_full() {
    // A 4096-byte ring and 64-byte entries give room for exactly 64 entries.
    let mem = MemoryBlock::new_zeroed(4096);
    let mut wq = Wq::new_sq(mem, recording_page(1), 7);
    let oob = vec![0u8; 24];
    let sgl = vec![
        Sge { address: 0x1000, mem_key: 1, size: 64 },
        Sge { address: 0x2000, mem_key: 1, size: 64 },
    ];
    assert_eq!(Wq::<RecordingDoorbell>::entry_size(oob.len(), sgl.len()), 64);
    for _ in 0..64 {
        let r = wq.push(&oob, &sgl, None, 0);
        assert_eq!(r.unwrap(), 64);
    }
    // The 65th push must fail, with no state change.
    assert!(wq.push(&oob, &sgl, None, 0).is_err());
    assert_eq!(wq.available(), 0);
    // One entry of head space readmits exactly one push.
    wq.advance_head(64);
    assert_eq!(wq.push(&oob, &sgl, None, 0).unwrap(), 64);
    assert!(wq.push(&oob, &sgl, None, 0).is_err());
}

#[test]
fn commit_encodes_uncommitted_count_then_resets() {
    let mem = MemoryBlock::new_zeroed(4096);
    let mut rq = Wq::new_rq(mem, recording_page(1), 9);
    let oob = vec![0u8; 8];
    let sgl = vec![Sge { address: 0x3000, mem_key: 2, size: 2048 }];
    for _ in 0..3 {
        rq.push(&oob, &sgl, None, 0).unwrap();
    }
    rq.commit();
    assert_eq!(rq.get_tail(), 96);
    // A second commit with nothing new pushed reports a zero count.
    rq.commit();
    let writes = rq.doorbell().doorbell.writes();
    assert_eq!(writes.len(), 2);
    assert_eq!(writes[0].page, 0);
    assert_eq!(writes[0].address, DB_RQ);
    assert_eq!(writes[0].value, 9 | (3u64 << 24) | (96u64 << 32));
    assert_eq!(writes[0].value, encode_wq_doorbell(9, 3, 96));
    assert_eq!(writes[1].value, 9 | (96u64 << 32));
    let saved = rq.save();
    assert_eq!(saved.tail, 96);
    assert_eq!(saved.doorbell_addr, DB_RQ);
}

#[test]
fn sq_commit_carries_no_count() {
    let mem = MemoryBlock::new_zeroed(4096);
    let mut sq = Wq::new_sq(mem, recording_page(1), 9);
    let oob = vec![0u8; 8];
    let sgl = vec![Sge { address: 0x3000, mem_key: 2, size: 2048 }];
    for _ in 0..3 {
        sq.push(&oob, &sgl, None, 0).unwrap();
    }
    sq.commit();
    let writes = sq.doorbell().doorbell.writes();
    assert_eq!(writes.len(), 1);
    // A send queue reports no entry count, whatever was pushed.
    assert_eq!(writes[0].value, 9 | (96u64 << 32));
}

#[test]
fn push_rejects_then_succeeds_boundary() {
    // A minimal 32-byte ring takes exactly one empty entry.
    let mem = MemoryBlock::new_zeroed(32);
    let mut sq = Wq::new_sq(mem, recording_page(1), 1);
    let oob: Vec<u8> = Vec::new();
    let sgl: Vec<Sge> = Vec::new();
    assert_eq!(sq.push(&oob, &sgl, None, 0).unwrap(), 32);
    assert!(sq.push(&oob, &sgl, None, 0).is_err());
}

#[test]
fn wq_save_restore_round_trip() {
    let mem = MemoryBlock::new_zeroed(4096);
    let mut sq = Wq::new_sq(mem, recording_page(2), 5);
    let oob = vec![0u8; 24];
    let sgl = vec![Sge { address: 0x8000, mem_key: 3, size: 512 }];
    sq.push(&oob, &sgl, Some(4), 11).unwrap();
    sq.advance_head(64);
    let saved = sq.save();
    assert_eq!(saved.head, 4096 + 64);
    assert_eq!(saved.tail, 64);
    assert_eq!(saved.mask, 4095);
    assert_eq!(saved.id, 5);

    let mem2 = MemoryBlock::new_zeroed(4096);
    let mut restored = Wq::restore_sq(mem2, &saved, recording_page(2));
    assert_eq!(restored.id(), 5);
    assert_eq!(restored.get_tail(), 64);
    assert_eq!(restored.available(), sq.available());
    // The restored ring accepts the same pushes the original would.
    let a = sq.push(&oob, &sgl, None, 0).unwrap();
    let b = restored.push(&oob, &sgl, None, 0).unwrap();
    assert_eq!(a, b);
    assert_eq!(sq.get_tail(), restored.get_tail());
}

fn eqe_memory(size: usize, published: &[(usize, u8, [u8; 12])]) -> MemoryBlock {
    // Builds ring memory with the given (slot index, owner count, data)
    // event entries published.
    let mut data = vec![0u8; size];
    for &(slot, owner, payload) in published {
        let base = slot * 16;
        data[base..base + 12].copy_from_slice(&payload);
        // The parameter word: event type 7, owner count in the top bits.
        let params: u32 = 7 | ((owner as u32) << 29);
        data[base + 12..base + 16].copy_from_slice(&params.to_le_bytes());
    }
    MemoryBlock::new(0, Vec::new(), 0, data)
}

#[test]
fn fresh_consumer_ring_pops_nothing() {
    let mem = MemoryBlock::new_zeroed(256);
    let mut eq: CqEq<RecordingDoorbell, Eqe> = CqEq::new_eq(mem, recording_page(1), 2);
    for _ in 0..100 {
        assert!(eq.pop().is_none());
    }
    assert_eq!(eq.get_next(), 256);
}

#[test]
fn pop_returns_published_entry_and_advances() {
    // The fresh cursor expects owner count 1 at slot 0.
    let payload = [9u8; 12];
    let mem = eqe_memory(256, &[(0, 1, payload)]);
    let mut eq: CqEq<RecordingDoorbell, Eqe> = CqEq::new_eq(mem, recording_page(1), 2);
    let e = eq.pop().expect("published entry must pop");
    assert_eq!(e.data, payload.to_vec());
    assert_eq!(e.params.event_type(), 7);
    assert_eq!(e.params.owner_count(), 1);
    assert_eq!(eq.get_next(), 256 + 16);
    // The next slot is still stale.
    assert!(eq.pop().is_none());
}

#[test]
fn pop_treats_desynchronized_ring_as_empty() {
    // Owner count 5 is neither this lap's count (1) nor the previous one (0).
    let mem = eqe_memory(256, &[(0, 5, [0u8; 12])]);
    let mut eq: CqEq<RecordingDoorbell, Eqe> = CqEq::new_eq(mem, recording_page(1), 2);
    assert!(eq.pop().is_none());
    assert_eq!(eq.get_next(), 256);
}

#[test]
fn cq_eq_save_restore_round_trip() {
    let payload = [3u8; 12];
    let mem = eqe_memory(256, &[(0, 1, payload), (1, 1, payload)]);
    let mut eq: CqEq<RecordingDoorbell, Eqe> = CqEq::new_eq(mem, recording_page(1), 6);
    eq.pop().unwrap();
    let saved = eq.save();
    assert_eq!(saved.id, 6);
    assert_eq!(saved.next, 256 + 16);
    assert_eq!(saved.size, 256);
    assert_eq!(saved.shift, 8);
    assert_eq!(saved.doorbell_addr, DB_EQ);

    // Restore over memory holding the same ring bytes.
    let mem2 = eqe_memory(256, &[(0, 1, payload), (1, 1, payload)]);
    let mut restored =
        CqEq::<RecordingDoorbell, Eqe>::restore(mem2, &saved, recording_page(1));
    assert_eq!(restored.id(), 6);
    assert_eq!(restored.get_next(), 256 + 16);
    // The restored ring continues exactly where the original would.
    let a = eq.pop().expect("original continues");
    let b = restored.pop().expect("restored continues");
    assert_eq!(a.data, b.data);
    assert_eq!(a.params.0, b.params.0);
    assert_eq!(eq.get_next(), restored.get_next());
    assert!(eq.pop().is_none());
    assert!(restored.pop().is_none());
}

#[test]
fn arm_and_ack_write_doorbell_values() {
    let mem = MemoryBlock::new_zeroed(256);
    let mut eq: CqEq<RecordingDoorbell, Eqe> = CqEq::new_eq(mem, recording_page(1), 2);
    eq.arm();
    eq.ack();
    let saved = eq.save();
    assert_eq!(saved.doorbell_addr, DB_EQ);
    // Entry counter: next (256) masked to the doorbell width, in entries.
    let expect_tail = 256 / 16;
    let writes = eq.doorbell().doorbell.writes();
    assert_eq!(writes.len(), 2);
    assert_eq!(writes[0].address, DB_EQ);
    assert_eq!(writes[0].value, 2 | ((expect_tail as u64) << 32) | (1u64 << 63));
    assert_eq!(writes[0].value, encode_cq_eq_doorbell(true, 2, expect_tail));
    assert_eq!(writes[1].value, 2 | ((expect_tail as u64) << 32));
    assert_ne!(writes[0].value, writes[1].value);
}

#[test]
fn doorbell_tail_stays_unmasked_past_the_ring_end() {
    // Fill a small ring twice over; the committed tail keeps growing past
    // the ring size instead of masking down.
    let mem = MemoryBlock::new_zeroed(64);
    let mut sq = Wq::new_sq(mem, recording_page(1), 1);
    let oob: Vec<u8> = Vec::new();
    let sgl: Vec<Sge> = Vec::new();
    for lap in 0..3u64 {
        assert_eq!(sq.push(&oob, &sgl, None, 0).unwrap(), 32);
        assert_eq!(sq.push(&oob, &sgl, None, 0).unwrap(), 32);
        assert!(sq.push(&oob, &sgl, None, 0).is_err());
        sq.commit();
        sq.advance_head(32);
        sq.advance_head(32);
        let writes = sq.doorbell().doorbell.writes();
        assert_eq!(writes[writes.len() - 1].value, 1 | ((64 * (lap + 1)) << 32));
    }
}

#[test]
fn doorbell_page_rejects_out_of_range_id() {
    let r = DoorbellPage::new(RecordingDoorbell::new(2), 2);
    let e = r.err().expect("page index beyond the region must be rejected");
    assert_eq!(e.doorbell_id, 2);
    assert_eq!(e.page_count, 2);
    assert!(DoorbellPage::new(RecordingDoorbell::new(2), 1).is_ok());
}

#[test]
fn wire_encoders_produce_exact_bytes() {
    let params = wqe_params(2, CLIENT_OOB_24, true, 0x1234);
    assert_eq!(params, 2 | (6 << 8) | (1 << 12) | (0x1234 << 16));
    let hdr = wqe_header(5, params);
    assert_eq!(hdr.len(), 8);
    assert_eq!(&hdr[..4], &[0, 0, 0, 5]);
    assert_eq!(&hdr[4..], &params.to_le_bytes());

    let sge = Sge { address: 0x1122334455667788, mem_key: 0xa1b2c3d4, size: 0x55 };
    let bytes = sge_to_bytes(&sge);
    assert_eq!(&bytes[..8], &0x1122334455667788u64.to_le_bytes());
    assert_eq!(&bytes[8..12], &0xa1b2c3d4u32.to_le_bytes());
    assert_eq!(&bytes[12..16], &0x55u32.to_le_bytes());
}

#[test]
fn queue_ids_and_types_are_kept() {
    let mem = MemoryBlock::new_zeroed(4096);
    let mut sq = Wq::new_sq(mem, recording_page(1), 3);
    assert_eq!(sq.id(), 3);
    assert_eq!(sq.available(), 4096);
    sq.advance_head(0);
    assert_eq!(sq.available(), 4096);
    assert_eq!(GdmaQueueType::GDMA_SQ, GdmaQueueType::GDMA_SQ);
    assert_eq!(Eqe::size_of_entry(), 16);
}

#[test]
fn cursors_wrap_across_the_32_bit_boundary() {
    // A restored ring whose cursors sit just below the 32-bit limit keeps
    // working: the tail wraps to zero while the byte accounting stays exact.
    let saved = mana_driver::queues::WqSavedState {
        doorbell: mana_driver::doorbell::DoorbellSavedState { doorbell_id: 0, page_count: 1 },
        doorbell_addr: mana_driver::defs::DB_SQ,
        mem: MemoryBlock::new_zeroed(4096).save(),
        id: 1,
        head: 0,
        tail: 0xffff_f000,
        mask: 4095,
    };
    let mem = MemoryBlock::new_zeroed(4096);
    let mut sq = Wq::restore_sq(mem, &saved, recording_page(1));
    assert_eq!(sq.available(), 4096);
    let oob: Vec<u8> = Vec::new();
    let sgl: Vec<Sge> = Vec::new();
    for _ in 0..128 {
        assert_eq!(sq.push(&oob, &sgl, None, 0).unwrap(), 32);
    }
    assert!(sq.push(&oob, &sgl, None, 0).is_err());
    // 128 entries of 32 bytes moved the tail across the wrap to zero.
    assert_eq!(sq.get_tail(), 0);
    assert_eq!(sq.available(), 0);
    sq.advance_head(32);
    assert_eq!(sq.available(), 32);
    assert!(sq.push(&oob, &sgl, None, 0).is_ok());
    assert_eq!(sq.get_tail(), 32);
}
