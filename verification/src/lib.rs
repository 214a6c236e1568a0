//! A user-mode driver core for a network adapter family that talks to its
//! device through shared-memory ring buffers and memory-mapped doorbell
//! registers.
//!
//! The crate verifies the three load-bearing pieces of such a driver:
//!
//! - the queue ring primitives ([`queues::CqEq`] for completion/event queues
//!   that the device fills and the driver drains, [`queues::Wq`] for work
//!   queues that the driver fills and the device drains), including the
//!   owner-bit generation tracking, wraparound cursor arithmetic and doorbell
//!   value encoding;
//! - the resource arena ([`resources::ResourceArena`]), an append-ordered log
//!   of every allocated device and host resource whose teardown must happen
//!   in reverse allocation order;
//! - the saved-state records ([`save_restore`]) that carry the complete
//!   driver state across a live migration, together with the `save`/`restore`
//!   operations of the rings and the arena.

pub mod build_info;
pub mod defs;
pub mod doorbell;
pub mod memory;
pub mod queues;
pub mod resources;
pub mod ring_math;
pub mod save_restore;
