//! The saved-state records that carry a device driver's complete state
//! across a live migration. These are plain data mirrors of the live
//! objects; their field order is part of the wire contract between driver
//! versions and may only grow, never be reordered or renumbered.

use std::collections::HashMap;
use vstd::prelude::*;

verus! {

/// Top level saved state of a device.
#[derive(Debug, Clone)]
pub struct ManaDeviceSavedState {
    /// Saved state for restoration of the underlying channel driver.
    pub gdma: GdmaDriverSavedState,
}

/// Top level saved state of the channel driver.
#[derive(Debug, Clone)]
pub struct GdmaDriverSavedState {
    /// Memory to be restored by a DMA client.
    pub mem: SavedMemoryState,
    /// Event queue to be restored.
    pub eq: CqEqSavedState,
    /// Completion queue to be restored.
    pub cq: CqEqSavedState,
    /// Receive work queue to be restored.
    pub rq: WqSavedState,
    /// Send work queue to be restored.
    pub sq: WqSavedState,
    /// Doorbell id.
    pub db_id: u64,
    /// Guest physical address memory key.
    pub gpa_mkey: u32,
    /// Protection domain id.
    pub pdid: u32,
    /// Whether the driver is subscribed to the hardware channel.
    pub hwc_subscribed: bool,
    /// Whether the event queue is armed.
    pub eq_armed: bool,
    /// Whether the completion queue is armed.
    pub cq_armed: bool,
    /// Event queue id to interrupt vector mapping.
    pub eq_id_msix: HashMap<u32, u32>,
    /// The id of the hardware channel activity.
    pub hwc_activity_id: u32,
    /// How many interrupt vectors are available.
    pub num_msix: u32,
    /// Minimum number of queues available.
    pub min_queue_avail: u32,
    /// Saved interrupts for restoration.
    pub interrupt_config: Vec<InterruptSavedState>,
}

/// Saved state for the memory region used by the driver, to be re-attached
/// by a DMA client on the far side of a migration.
#[derive(Debug, Clone)]
pub struct SavedMemoryState {
    /// The base page frame number of the memory region.
    pub base_pfn: u64,
    /// How long the memory region is.
    pub len: usize,
}

/// The saved state of a completion queue or event queue.
#[derive(Debug, Clone)]
pub struct CqEqSavedState {
    /// The doorbell state of the queue, which is how the device is notified.
    pub doorbell: DoorbellSavedState,
    /// The address of the doorbell register.
    pub doorbell_addr: u32,
    /// The memory region used by the queue.
    pub mem: MemoryBlockSavedState,
    /// The id of the queue.
    pub id: u32,
    /// The index of the next entry in the queue.
    pub next: u32,
    /// The total size of the queue.
    pub size: u32,
    /// The bit shift value for the queue.
    pub shift: u32,
}

/// Saved state of a memory region allocated for queues.
#[derive(Debug, Clone)]
pub struct MemoryBlockSavedState {
    /// Base address of the block in guest memory.
    pub base: u64,
    /// Length of the memory block.
    pub len: usize,
    /// The page frame numbers comprising the block.
    pub pfns: Vec<u64>,
    /// The page frame offset of the block.
    pub pfn_bias: u64,
}

/// The saved state of a work queue.
#[derive(Debug, Clone)]
pub struct WqSavedState {
    /// The doorbell state of the queue, which is how the device is notified.
    pub doorbell: DoorbellSavedState,
    /// The address of the doorbell.
    pub doorbell_addr: u32,
    /// The memory region used by the queue.
    pub mem: MemoryBlockSavedState,
    /// The id of the queue.
    pub id: u32,
    /// The head of the queue.
    pub head: u32,
    /// The tail of the queue.
    pub tail: u32,
    /// The bitmask for wrapping queue indices.
    pub mask: u32,
}

/// The saved identity of a doorbell page allocation.
#[derive(Debug, Clone)]
pub struct DoorbellSavedState {
    /// The doorbell's id.
    pub doorbell_id: u64,
    /// The number of pages allocated for the doorbell.
    pub page_count: u32,
}

/// The saved state of an interrupt binding.
#[derive(Debug, Clone)]
pub struct InterruptSavedState {
    /// The index in the interrupt table for this interrupt.
    pub msix_index: u32,
    /// Which processor this interrupt is assigned to.
    pub cpu: u32,
}

} // verus!
