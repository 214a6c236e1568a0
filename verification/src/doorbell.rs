//! Doorbell capability: the ability to write a 64-bit value at a byte offset
//! within one page of the device's doorbell region.
//!
//! The real implementation performs a memory-mapped register write and lives
//! with the device mapping code, outside this crate; implementors promise to
//! account for every write in the abstract write history that the queue
//! contracts are stated over. [`NullDoorbell`] is the no-op implementation,
//! and [`RecordingDoorbell`] keeps its history in memory so that tests can
//! observe exactly which doorbell values the queues produced.

use vstd::prelude::*;

verus! {

/// Saved identity of a doorbell page allocation.
#[derive(Clone, Debug)]
pub struct DoorbellSavedState {
    /// The doorbell's id.
    pub doorbell_id: u64,
    /// The number of pages allocated for the doorbell.
    pub page_count: u32,
}

/// One doorbell register write: a page number, a byte offset within the page,
/// and the value written.
#[derive(Clone, Copy, Debug, PartialEq, Eq, Structural)]
pub struct DoorbellWrite {
    pub page: u32,
    pub address: u32,
    pub value: u64,
}

/// An interface to write a doorbell value to signal the device.
pub trait Doorbell: Sized {
    /// The maximum page number.
    spec fn spec_page_count(&self) -> u32;

    /// Every doorbell write performed through this capability, oldest first.
    spec fn spec_writes(&self) -> Seq<DoorbellWrite>;

    /// Returns the maximum page number.
    fn page_count(&self) -> (r: u32)
        ensures
            r == self.spec_page_count(),
    ;

    /// Writes a doorbell value at page `page`, offset `address`.
    fn write(&mut self, page: u32, address: u32, value: u64)
        ensures
            final(self).spec_writes() == old(self).spec_writes().push(
                DoorbellWrite { page, address, value },
            ),
            final(self).spec_page_count() == old(self).spec_page_count(),
    ;

    /// Captures the doorbell's identity for a migration snapshot.
    fn save(&self, doorbell_id: Option<u64>) -> (r: DoorbellSavedState)
        ensures
            r.page_count == self.spec_page_count(),
    ;
}

/// A doorbell that accepts and discards every write; it backs queues during
/// tests and during transitional states where no device is attached.
pub struct NullDoorbell {
    writes: Ghost<Seq<DoorbellWrite>>,
}

impl NullDoorbell {
    /// Creates a no-op doorbell.
    pub fn new() -> (r: Self)
        ensures
            r.spec_writes() == Seq::<DoorbellWrite>::empty(),
    {
        NullDoorbell { writes: Ghost(Seq::empty()) }
    }
}

impl Doorbell for NullDoorbell {
    closed spec fn spec_page_count(&self) -> u32 {
        0u32
    }

    closed spec fn spec_writes(&self) -> Seq<DoorbellWrite> {
        self.writes@
    }

    fn page_count(&self) -> u32 {
        0
    }

    fn write(&mut self, page: u32, address: u32, value: u64) {
        self.writes = Ghost(self.writes@.push(DoorbellWrite { page, address, value }));
    }

    fn save(&self, _doorbell_id: Option<u64>) -> DoorbellSavedState {
        DoorbellSavedState { doorbell_id: 0, page_count: 0 }
    }
}

/// A doorbell that keeps every write in memory, so that a caller can check
/// which values reached the device register.
pub struct RecordingDoorbell {
    pages: u32,
    log: Vec<DoorbellWrite>,
}

impl RecordingDoorbell {
    /// Creates a recording doorbell with `pages` doorbell pages.
    pub fn new(pages: u32) -> (r: Self)
        ensures
            r.spec_page_count() == pages,
            r.spec_writes() == Seq::<DoorbellWrite>::empty(),
    {
        RecordingDoorbell { pages, log: Vec::new() }
    }

    /// The writes performed so far, oldest first.
    pub fn writes(&self) -> (r: &Vec<DoorbellWrite>)
        ensures
            r@ == self.spec_writes(),
    {
        &self.log
    }
}

impl Doorbell for RecordingDoorbell {
    closed spec fn spec_page_count(&self) -> u32 {
        self.pages
    }

    closed spec fn spec_writes(&self) -> Seq<DoorbellWrite> {
        self.log@
    }

    fn page_count(&self) -> u32 {
        self.pages
    }

    fn write(&mut self, page: u32, address: u32, value: u64) {
        self.log.push(DoorbellWrite { page, address, value });
    }

    fn save(&self, doorbell_id: Option<u64>) -> DoorbellSavedState {
        let id = match doorbell_id {
            Some(id) => id,
            None => 0,
        };
        DoorbellSavedState { doorbell_id: id, page_count: self.pages }
    }
}

/// The error returned when a doorbell page index lies beyond the doorbell
/// region.
#[derive(Clone, Copy, Debug)]
pub struct InvalidDoorbellId {
    /// The rejected page index.
    pub doorbell_id: u32,
    /// The number of pages the doorbell region actually has.
    pub page_count: u32,
}

/// A single doorbell page of a doorbell region.
pub struct DoorbellPage<D: Doorbell> {
    /// The doorbell capability.
    pub doorbell: D,
    /// The page this handle writes to.
    pub doorbell_id: u32,
}

impl DoorbellPage<NullDoorbell> {
    /// Returns a doorbell page whose writes go nowhere.
    pub fn null() -> (r: Self)
        ensures
            r.doorbell_id == 0u32,
            r.doorbell.spec_writes() == Seq::<DoorbellWrite>::empty(),
    {
        DoorbellPage { doorbell: NullDoorbell::new(), doorbell_id: 0 }
    }
}

impl<D: Doorbell> DoorbellPage<D> {
    /// Returns a doorbell page at index `doorbell_id` of the doorbell region,
    /// or an error if the index lies beyond the region.
    pub fn new(doorbell: D, doorbell_id: u32) -> (r: Result<Self, InvalidDoorbellId>)
        ensures
            r is Ok <==> doorbell_id < doorbell.spec_page_count(),
            r matches Ok(p) ==> p.doorbell == doorbell && p.doorbell_id == doorbell_id,
            r matches Err(e) ==> e.doorbell_id == doorbell_id && e.page_count
                == doorbell.spec_page_count(),
    {
        let page_count = doorbell.page_count();
        if doorbell_id >= page_count {
            return Err(InvalidDoorbellId { doorbell_id, page_count });
        }
        Ok(DoorbellPage { doorbell, doorbell_id })
    }

    /// Writes a doorbell value at byte offset `address` of this page.
    pub fn write(&mut self, address: u32, value: u64)
        requires
            address < 4096,
        ensures
            final(self).doorbell_id == old(self).doorbell_id,
            final(self).doorbell.spec_page_count() == old(self).doorbell.spec_page_count(),
            final(self).doorbell.spec_writes() == old(self).doorbell.spec_writes().push(
                DoorbellWrite { page: old(self).doorbell_id, address, value },
            ),
    {
        let page = self.doorbell_id;
        self.doorbell.write(page, address, value);
    }
}

} // verus!
