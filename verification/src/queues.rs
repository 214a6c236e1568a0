//! The queue ring primitives: [`CqEq`], the consumer ring for completion and
//! event queues that the device fills and the driver drains, and [`Wq`], the
//! producer ring for send and receive work queues that the driver fills and
//! the device drains.
//!
//! Both rings live over a power-of-two-sized [`MemoryBlock`] and are driven
//! by wrapping 32-bit cursors; the consumer ring additionally derives an
//! owner count from its cursor and compares it against the count the device
//! stamps into each entry's final byte.
//!
//! In deployment the device writes entries concurrently and publishes each
//! one by writing the owner byte last; the driver must read that byte with
//! an acquire-ordered load before reading the rest of the entry. This crate
//! models the ring memory as exclusively owned, which is the single-owner
//! view the rest of the protocol arithmetic is verified under; the ordering
//! obligation stays with the memory mapping code that shares the block with
//! a real device.

use crate::defs::{
    cq_eq_doorbell_value, encode_cq_eq_doorbell, encode_wq_doorbell, sge_bytes, sge_to_bytes,
    vec_range, wq_doorbell_value, wqe_header, wqe_header_bytes, wqe_params, wqe_params_value,
    GdmaQueueType, QueueEntry, Sge, CLIENT_OOB_24, CLIENT_OOB_32, CLIENT_OOB_8, DB_CQ, DB_EQ,
    DB_RQ, DB_SQ, OWNER_BITS, OWNER_MASK,
};
use crate::defs::{Cqe, Eqe};
use crate::doorbell::{Doorbell, DoorbellPage, DoorbellSavedState, DoorbellWrite};
use crate::memory::{MemoryBlock, MemoryBlockSavedState};
use crate::ring_math::{
    lemma_aligned_slot_fits, lemma_masked_wrap_is_slot, lemma_mod_mod_divides,
    lemma_pow2_divides_u32_range, lemma_slot_injective, lemma_slot_step, lemma_wrapping_add_mod,
    log2_u32, owner_expected, owner_stale, ring_slot,
};
use vstd::arithmetic::div_mod::{
    lemma_fundamental_div_mod, lemma_mod_multiples_basic, lemma_mod_multiples_vanish,
    lemma_small_mod,
};
use vstd::arithmetic::power::pow;
use vstd::arithmetic::power2::{
    is_pow2, is_pow2_equiv, lemma2_to64, lemma_pow2, lemma_pow2_adds, lemma_pow2_pos,
    lemma_pow2_strictly_increases, pow2,
};
use vstd::bits::{lemma_u32_low_bits_mask_is_mod, lemma_u32_shl_is_mul, low_bits_mask};
use vstd::prelude::*;

verus! {

/// A power of two no greater than `pow2(bound)` has an exponent no greater
/// than `bound`.
pub proof fn lemma_pow2_witness(n: int, bound: nat)
    requires
        is_pow2(n),
        bound <= 31,
        n <= pow2(bound),
    ensures
        exists|k: nat| k <= bound && n == pow2(k),
{
    is_pow2_equiv(n);
    let i = choose|i: nat| pow(2, i) == n;
    lemma_pow2(i);
    if i > bound {
        lemma_pow2_strictly_increases(bound, i);
        assert(false);
    }
    assert(i <= bound && n == pow2(i));
}

/// The saved state of a completion or event queue, sufficient to reconstruct
/// an identical consumer ring — including its generation-count position —
/// on the far side of a migration.
#[derive(Clone, Debug)]
pub struct CqEqSavedState {
    /// The identity of the doorbell the queue was bound to.
    pub doorbell: DoorbellSavedState,
    /// The doorbell register byte offset the queue writes.
    pub doorbell_addr: u32,
    /// The addressing metadata of the ring memory.
    pub mem: MemoryBlockSavedState,
    /// The queue id.
    pub id: u32,
    /// The wrapping cursor, encoding both the ring offset and the owner
    /// count.
    pub next: u32,
    /// The ring size in bytes.
    pub size: u32,
    /// The base-two logarithm of the ring size.
    pub shift: u32,
}

/// A consumer ring: a completion queue or an event queue, parameterized by
/// its entry type.
pub struct CqEq<D: Doorbell, T: QueueEntry> {
    doorbell: DoorbellPage<D>,
    doorbell_addr: u32,
    queue_type: GdmaQueueType,
    mem: MemoryBlock,
    id: u32,
    next: u32,
    size: u32,
    shift: u32,
    entry: core::marker::PhantomData<T>,
}

impl<D: Doorbell, T: QueueEntry> CqEq<D, T> {
    /// The doorbell page the queue signals through.
    pub closed spec fn spec_doorbell(&self) -> DoorbellPage<D> {
        self.doorbell
    }

    /// The doorbell register byte offset the queue writes.
    pub closed spec fn spec_doorbell_addr(&self) -> u32 {
        self.doorbell_addr
    }

    /// The kind of the queue.
    pub closed spec fn spec_queue_type(&self) -> GdmaQueueType {
        self.queue_type
    }

    /// The memory block backing the ring.
    pub closed spec fn spec_mem(&self) -> MemoryBlock {
        self.mem
    }

    /// The bytes of the ring.
    pub open spec fn spec_contents(&self) -> Seq<u8> {
        self.spec_mem()@
    }

    /// The queue id.
    pub closed spec fn spec_id(&self) -> u32 {
        self.id
    }

    /// The wrapping cursor.
    pub closed spec fn spec_next(&self) -> u32 {
        self.next
    }

    /// The ring size in bytes.
    pub closed spec fn spec_size(&self) -> u32 {
        self.size
    }

    /// The base-two logarithm of the ring size.
    pub closed spec fn spec_shift(&self) -> u32 {
        self.shift
    }

    /// The entry size in bytes.
    pub open spec fn entry_size_spec() -> int {
        pow2(T::spec_shift()) as int
    }

    /// Well-formedness: the ring size is a power of two that holds a whole
    /// number of entries, the cursor stays entry aligned, and the doorbell
    /// binding is in range.
    pub open spec fn wf(&self) -> bool {
        &&& T::spec_shift() <= self.spec_shift() as nat
        &&& self.spec_shift() <= 28
        &&& self.spec_size() as nat == pow2(self.spec_shift() as nat)
        &&& self.spec_mem()@.len() == self.spec_size()
        &&& self.spec_next() as int % Self::entry_size_spec() == 0
        &&& self.spec_doorbell_addr() < 4096
        &&& self.spec_id() < 0x1000000
    }

    /// Arithmetic consequences of well-formedness.
    proof fn wf_facts(&self)
        requires
            self.wf(),
        ensures
            0 < Self::entry_size_spec() <= 4096,
            Self::entry_size_spec() <= self.spec_size(),
            self.spec_size() as int % Self::entry_size_spec() == 0,
            1 <= self.spec_size() <= 0x10000000,
            0x100000000int % (self.spec_size() as int) == 0,
            0x100000000int % Self::entry_size_spec() == 0,
    {
        T::shift_bounds();
        lemma2_to64();
        let es_sh = T::spec_shift();
        let sh = self.spec_shift() as nat;
        lemma_pow2_pos(es_sh);
        lemma_pow2_pos(sh);
        if es_sh < sh {
            lemma_pow2_strictly_increases(es_sh, sh);
        }
        if sh < 28 {
            lemma_pow2_strictly_increases(sh, 28);
        }
        if es_sh < 12 {
            lemma_pow2_strictly_increases(es_sh, 12);
        }
        lemma_pow2_adds(es_sh, (sh - es_sh) as nat);
        lemma_mod_multiples_basic(pow2((sh - es_sh) as nat) as int, pow2(es_sh) as int);
        assert(pow2(es_sh) as int * pow2((sh - es_sh) as nat) as int == pow2((sh - es_sh) as nat) as int
            * pow2(es_sh) as int) by (nonlinear_arith);
        lemma_pow2_divides_u32_range(sh);
        lemma_pow2_divides_u32_range(es_sh);
    }

    /// Masks a wrapped cursor-plus-offset down to its ring byte index.
    fn ring_index(&self, cursor: u32, offset: u32) -> (r: usize)
        requires
            self.wf(),
            offset < 0x80000000,
        ensures
            r as int == ring_slot(cursor, offset as int, self.spec_size() as int),
            r < self.spec_size(),
    {
        proof {
            self.wf_facts();
            lemma_masked_wrap_is_slot(cursor, offset, self.shift as nat);
        }
        (cursor.wrapping_add(offset) & (self.size - 1)) as usize
    }

    /// Creates a new consumer ring over `mem`.
    fn new(
        queue_type: GdmaQueueType,
        doorbell_addr: u32,
        mem: MemoryBlock,
        doorbell: DoorbellPage<D>,
        id: u32,
    ) -> (r: Self)
        requires
            is_pow2(mem@.len() as int),
            pow2(T::spec_shift()) <= mem@.len() <= 0x10000000,
            doorbell_addr < 4096,
            id < 0x1000000,
        ensures
            r.wf(),
            r.spec_queue_type() == queue_type,
            r.spec_doorbell_addr() == doorbell_addr,
            r.spec_mem() == mem,
            r.spec_doorbell() == doorbell,
            r.spec_id() == id,
            r.spec_size() == mem@.len(),
            r.spec_next() == r.spec_size(),
            r.spec_size() as nat == pow2(r.spec_shift() as nat),
    {
        proof {
            lemma2_to64();
            lemma_pow2_witness(mem@.len() as int, 28);
        }
        let size = mem.len() as u32;
        let shift = log2_u32(size);
        proof {
            T::shift_bounds();
            // The exponent lies between the entry shift and 28.
            if (shift as nat) < T::spec_shift() {
                lemma_pow2_strictly_increases(shift as nat, T::spec_shift());
                assert(false);
            }
            if shift > 28 {
                lemma_pow2_strictly_increases(28, shift as nat);
                assert(false);
            }
            // The initial cursor, one full lap ahead, is entry aligned.
            lemma_pow2_adds(T::spec_shift(), (shift as nat - T::spec_shift()) as nat);
            lemma_mod_multiples_basic(
                pow2((shift as nat - T::spec_shift()) as nat) as int,
                pow2(T::spec_shift()) as int,
            );
            assert(pow2(T::spec_shift()) as int * pow2((shift as nat - T::spec_shift()) as nat) as int
                == pow2((shift as nat - T::spec_shift()) as nat) as int * pow2(T::spec_shift()) as int)
                by (nonlinear_arith);
        }
        CqEq {
            doorbell,
            doorbell_addr,
            queue_type,
            mem,
            id,
            next: size,
            size,
            shift,
            entry: core::marker::PhantomData,
        }
    }

    /// Captures the queue state for a migration snapshot: the doorbell
    /// binding, the ring memory metadata, and the exact cursor, size and
    /// shift, so that the restored ring resumes at the same generation-count
    /// position.
    pub fn save(&self) -> (r: CqEqSavedState)
        ensures
            self.matches_saved(r),
            r.doorbell.doorbell_id == self.spec_doorbell().doorbell_id as u64,
            r.doorbell.page_count == self.spec_doorbell().doorbell.spec_page_count(),
            r.mem.base == self.spec_mem().spec_base(),
            r.mem.len == self.spec_mem()@.len(),
            r.mem.pfns@ == self.spec_mem().spec_pfns(),
            r.mem.pfn_bias == self.spec_mem().spec_pfn_bias(),
    {
        CqEqSavedState {
            doorbell: DoorbellSavedState {
                doorbell_id: self.doorbell.doorbell_id as u64,
                page_count: self.doorbell.doorbell.page_count(),
            },
            doorbell_addr: self.doorbell_addr,
            mem: self.mem.save(),
            id: self.id,
            next: self.next,
            size: self.size,
            shift: self.shift,
        }
    }

    /// Whether `st` is a faithful snapshot of this queue's ring position.
    pub open spec fn matches_saved(&self, st: CqEqSavedState) -> bool {
        &&& st.doorbell_addr == self.spec_doorbell_addr()
        &&& st.id == self.spec_id()
        &&& st.next == self.spec_next()
        &&& st.size == self.spec_size()
        &&& st.shift == self.spec_shift()
    }

    /// Whether a saved state is consistent enough to restore a well-formed
    /// ring over memory of length `mem_len`. The size and shift must come
    /// from the snapshot itself, not be re-derived, because the cursor's
    /// owner-count interpretation depends on them matching what was true at
    /// save time.
    pub open spec fn restorable(st: CqEqSavedState, mem_len: int) -> bool {
        &&& st.size == mem_len
        &&& T::spec_shift() <= st.shift as nat <= 28
        &&& st.size as nat == pow2(st.shift as nat)
        &&& st.next as int % Self::entry_size_spec() == 0
        &&& st.doorbell_addr < 4096
        &&& st.id < 0x1000000
    }

    /// Reconstructs a consumer ring from a snapshot, a freshly attached
    /// memory block over the same ring memory, and a freshly obtained
    /// doorbell page.
    fn restore_inner(
        queue_type: GdmaQueueType,
        mem: MemoryBlock,
        state: &CqEqSavedState,
        doorbell: DoorbellPage<D>,
    ) -> (r: Self)
        requires
            Self::restorable(*state, mem@.len() as int),
        ensures
            r.wf(),
            r.matches_saved(*state),
            r.spec_queue_type() == queue_type,
            r.spec_mem() == mem,
            r.spec_doorbell() == doorbell,
    {
        CqEq {
            doorbell,
            doorbell_addr: state.doorbell_addr,
            queue_type,
            mem,
            id: state.id,
            next: state.next,
            size: state.size,
            shift: state.shift,
            entry: core::marker::PhantomData,
        }
    }

    /// Updates the queue id.
    pub fn set_id(&mut self, id: u32)
        requires
            id < 0x1000000,
        ensures
            final(self).spec_id() == id,
            final(self).spec_next() == old(self).spec_next(),
            final(self).spec_size() == old(self).spec_size(),
            final(self).spec_shift() == old(self).spec_shift(),
            final(self).spec_mem() == old(self).spec_mem(),
            final(self).spec_doorbell() == old(self).spec_doorbell(),
            final(self).spec_doorbell_addr() == old(self).spec_doorbell_addr(),
            final(self).spec_queue_type() == old(self).spec_queue_type(),
            old(self).wf() ==> final(self).wf(),
    {
        self.id = id;
    }

    /// Rebinds the queue to another doorbell page.
    pub fn set_doorbell(&mut self, page: DoorbellPage<D>)
        ensures
            final(self).spec_doorbell() == page,
            final(self).spec_id() == old(self).spec_id(),
            final(self).spec_next() == old(self).spec_next(),
            final(self).spec_size() == old(self).spec_size(),
            final(self).spec_shift() == old(self).spec_shift(),
            final(self).spec_mem() == old(self).spec_mem(),
            final(self).spec_doorbell_addr() == old(self).spec_doorbell_addr(),
            final(self).spec_queue_type() == old(self).spec_queue_type(),
            old(self).wf() ==> final(self).wf(),
    {
        self.doorbell = page;
    }

    /// The doorbell page the queue signals through.
    pub fn doorbell(&self) -> (r: &DoorbellPage<D>)
        ensures
            r == self.spec_doorbell(),
    {
        &self.doorbell
    }

    /// Gets the queue ID.
    pub fn id(&self) -> (r: u32)
        ensures
            r == self.spec_id(),
    {
        self.id
    }

    /// Reports the cursor value for diagnostics.
    pub fn get_next(&mut self) -> (r: u32)
        ensures
            r == old(self).spec_next(),
            *final(self) == *old(self),
    {
        self.next
    }

    /// Pops the entry at the cursor, if the device has published one.
    ///
    /// The owner count stamped in the top bits of the entry's final byte is
    /// compared against the count of the lap the cursor is on: one count
    /// behind means no new entry; an exact match means the entry is ready,
    /// and the cursor advances past it; any other value means the ring
    /// desynchronized ("wrapped"), which is treated as no entry ready rather
    /// than a fault.
    pub fn pop(&mut self) -> (r: Option<T>)
        requires
            old(self).wf(),
        ensures
            final(self).wf(),
            final(self).spec_size() == old(self).spec_size(),
            final(self).spec_shift() == old(self).spec_shift(),
            final(self).spec_id() == old(self).spec_id(),
            final(self).spec_queue_type() == old(self).spec_queue_type(),
            final(self).spec_doorbell() == old(self).spec_doorbell(),
            final(self).spec_doorbell_addr() == old(self).spec_doorbell_addr(),
            final(self).spec_mem() == old(self).spec_mem(),
            ({
                let es = Self::entry_size_spec();
                let size = old(self).spec_size() as int;
                let next = old(self).spec_next();
                let start = next as int % size;
                let observed = old(self).spec_contents()[start + es - 1] as int / 32;
                if observed == owner_stale(next, size) {
                    r is None && final(self).spec_next() == next
                } else if observed == owner_expected(next, size) {
                    &&& r is Some
                    &&& (r matches Some(e) ==> e.decoded_from(
                        old(self).spec_contents().subrange(start, start + es),
                    ))
                    &&& final(self).spec_next() == next.wrapping_add(es as u32)
                } else {
                    r is None && final(self).spec_next() == next
                }
            }),
    {
        proof {
            self.wf_facts();
            lemma2_to64();
        }
        let es = T::size_of_entry();
        let es32 = es as u32;
        let ghost size = self.spec_size() as int;
        let ghost next = self.spec_next();

        // The owner byte is the final byte of the entry the cursor addresses.
        let owner_idx = self.ring_index(self.next, es32 - 1);
        proof {
            // The cursor is entry aligned, so the whole entry lies before
            // the ring end and the final byte sits at start + es - 1.
            lemma_mod_mod_divides(next as int, Self::entry_size_spec(), size);
            lemma_aligned_slot_fits(next as int % size, Self::entry_size_spec(), size);
            lemma_wrapping_add_mod(next, (es32 - 1) as u32, size);
            vstd::arithmetic::div_mod::lemma_add_mod_noop(next as int, es as int - 1, size);
            lemma_small_mod((es - 1) as nat, size as nat);
            lemma_small_mod((next as int % size + es - 1) as nat, size as nat);
            assert(owner_idx as int == next as int % size + Self::entry_size_spec() - 1);
        }
        let b = self.mem.read_u8(owner_idx);
        let owner_count = (b >> 5) as u32;
        proof {
            vstd::bits::lemma_u8_shr_is_div(b, 5);
            assert(owner_count as int == b as int / 32);
        }
        // The owner count of the lap the cursor is on.
        let cur = (self.next >> self.shift) & OWNER_MASK;
        proof {
            vstd::bits::lemma_u32_shr_is_div(self.next, self.shift);
            lemma_u32_low_bits_mask_is_mod(self.next >> self.shift, 3);
            vstd::bits::lemma_low_bits_mask_values();
            assert(cur as int == owner_expected(next, size));
        }
        if owner_count == (cur + 7) % 8 {
            proof {
                vstd::arithmetic::div_mod::lemma_add_mod_noop(next as int / size, 7, 8);
                lemma_small_mod((cur as int % 8) as nat, 8);
                assert((cur + 7) % 8 == owner_stale(next, size));
            }
            // No new entry this lap.
            None
        } else if owner_count == cur {
            let start = self.ring_index(self.next, 0);
            proof {
                lemma_wrapping_add_mod(next, 0, size);
                assert(start as int == next as int % size);
            }
            let bytes = self.mem.read_bytes(start, es);
            let qe = T::decode(bytes);
            self.next = self.next.wrapping_add(es32);
            proof {
                // The advanced cursor stays entry aligned.
                lemma_wrapping_add_mod(next, es32, Self::entry_size_spec());
                vstd::arithmetic::div_mod::lemma_mod_add_multiples_vanish(
                    next as int,
                    Self::entry_size_spec(),
                );
            }
            Some(qe)
        } else {
            proof {
                vstd::arithmetic::div_mod::lemma_add_mod_noop(next as int / size, 7, 8);
                lemma_small_mod((cur as int % 8) as nat, 8);
            }
            // Ring desynchronization ("wrapped"): the device's count is
            // neither this lap's nor the previous lap's. Degrade to "no
            // entry" rather than faulting.
            None
        }
    }

    /// The entry-counter value a flush writes to the doorbell: the cursor
    /// masked to the doorbell-visible width, in units of entries.
    pub open spec fn flush_tail(next: u32, size: u32) -> int {
        (next as int % (8 * size)) / Self::entry_size_spec()
    }

    /// Writes the queue's doorbell, optionally requesting an interrupt.
    fn flush(&mut self, arm: bool)
        requires
            old(self).wf(),
        ensures
            final(self).wf(),
            final(self).spec_size() == old(self).spec_size(),
            final(self).spec_shift() == old(self).spec_shift(),
            final(self).spec_id() == old(self).spec_id(),
            final(self).spec_queue_type() == old(self).spec_queue_type(),
            final(self).spec_doorbell_addr() == old(self).spec_doorbell_addr(),
            final(self).spec_mem() == old(self).spec_mem(),
            final(self).spec_next() == old(self).spec_next(),
            final(self).spec_doorbell().doorbell_id == old(self).spec_doorbell().doorbell_id,
            final(self).spec_doorbell().doorbell.spec_page_count() == old(
                self,
            ).spec_doorbell().doorbell.spec_page_count(),
            final(self).spec_doorbell().doorbell.spec_writes() == old(
                self,
            ).spec_doorbell().doorbell.spec_writes().push(
                DoorbellWrite {
                    page: old(self).spec_doorbell().doorbell_id,
                    address: old(self).spec_doorbell_addr(),
                    value: cq_eq_doorbell_value(
                        arm,
                        old(self).spec_id(),
                        Self::flush_tail(old(self).spec_next(), old(self).spec_size()) as u32,
                    ),
                },
            ),
    {
        proof {
            self.wf_facts();
            lemma2_to64();
            lemma_u32_shl_is_mul(self.size, 3);
            lemma_pow2_adds(self.shift as nat, 3);
            if self.shift + 3 < 31 {
                lemma_pow2_strictly_increases((self.shift + 3) as nat, 31);
            }
            lemma_u32_low_bits_mask_is_mod(self.next, (self.shift + 3) as nat);
            assert(low_bits_mask((self.shift + 3) as nat) == (pow2((self.shift + 3) as nat)
                - 1) as nat);
        }
        let tail = self.next & ((self.size << OWNER_BITS) - 1);
        proof {
            assert(tail as int == self.spec_next() as int % (8 * self.spec_size() as int));
        }
        let es32 = T::size_of_entry() as u32;
        let value = encode_cq_eq_doorbell(arm, self.id, tail / es32);
        let addr = self.doorbell_addr;
        self.doorbell.write(addr, value);
    }

    /// Arms the queue so that an interrupt will be delivered the next time
    /// an entry arrives.
    pub fn arm(&mut self)
        requires
            old(self).wf(),
        ensures
            final(self).wf(),
            final(self).spec_size() == old(self).spec_size(),
            final(self).spec_shift() == old(self).spec_shift(),
            final(self).spec_id() == old(self).spec_id(),
            final(self).spec_queue_type() == old(self).spec_queue_type(),
            final(self).spec_doorbell_addr() == old(self).spec_doorbell_addr(),
            final(self).spec_mem() == old(self).spec_mem(),
            final(self).spec_next() == old(self).spec_next(),
            final(self).spec_doorbell().doorbell_id == old(self).spec_doorbell().doorbell_id,
            final(self).spec_doorbell().doorbell.spec_page_count() == old(
                self,
            ).spec_doorbell().doorbell.spec_page_count(),
            final(self).spec_doorbell().doorbell.spec_writes() == old(
                self,
            ).spec_doorbell().doorbell.spec_writes().push(
                DoorbellWrite {
                    page: old(self).spec_doorbell().doorbell_id,
                    address: old(self).spec_doorbell_addr(),
                    value: cq_eq_doorbell_value(
                        true,
                        old(self).spec_id(),
                        Self::flush_tail(old(self).spec_next(), old(self).spec_size()) as u32,
                    ),
                },
            ),
    {
        self.flush(true);
    }

    /// Acknowledges consumed entries without requesting an interrupt.
    pub fn ack(&mut self)
        requires
            old(self).wf(),
        ensures
            final(self).wf(),
            final(self).spec_size() == old(self).spec_size(),
            final(self).spec_shift() == old(self).spec_shift(),
            final(self).spec_id() == old(self).spec_id(),
            final(self).spec_queue_type() == old(self).spec_queue_type(),
            final(self).spec_doorbell_addr() == old(self).spec_doorbell_addr(),
            final(self).spec_mem() == old(self).spec_mem(),
            final(self).spec_next() == old(self).spec_next(),
            final(self).spec_doorbell().doorbell_id == old(self).spec_doorbell().doorbell_id,
            final(self).spec_doorbell().doorbell.spec_page_count() == old(
                self,
            ).spec_doorbell().doorbell.spec_page_count(),
            final(self).spec_doorbell().doorbell.spec_writes() == old(
                self,
            ).spec_doorbell().doorbell.spec_writes().push(
                DoorbellWrite {
                    page: old(self).spec_doorbell().doorbell_id,
                    address: old(self).spec_doorbell_addr(),
                    value: cq_eq_doorbell_value(
                        false,
                        old(self).spec_id(),
                        Self::flush_tail(old(self).spec_next(), old(self).spec_size()) as u32,
                    ),
                },
            ),
    {
        self.flush(false);
    }
}

impl<D: Doorbell> CqEq<D, Cqe> {
    /// Creates a new completion queue.
    pub fn new_cq(mem: MemoryBlock, doorbell: DoorbellPage<D>, id: u32) -> (r: Self)
        requires
            is_pow2(mem@.len() as int),
            pow2(Cqe::spec_shift()) <= mem@.len() <= 0x10000000,
            id < 0x1000000,
        ensures
            r.wf(),
            r.spec_queue_type() == GdmaQueueType::GDMA_CQ,
            r.spec_doorbell_addr() == DB_CQ,
            r.spec_mem() == mem,
            r.spec_doorbell() == doorbell,
            r.spec_id() == id,
            r.spec_size() == mem@.len(),
            r.spec_next() == r.spec_size(),
    {
        Self::new(GdmaQueueType::GDMA_CQ, DB_CQ, mem, doorbell, id)
    }

    /// Reconstructs a completion queue from a snapshot, a freshly attached
    /// memory block, and a freshly obtained doorbell page.
    pub fn restore(mem: MemoryBlock, state: &CqEqSavedState, doorbell: DoorbellPage<D>) -> (r: Self)
        requires
            Self::restorable(*state, mem@.len() as int),
        ensures
            r.wf(),
            r.matches_saved(*state),
            r.spec_queue_type() == GdmaQueueType::GDMA_CQ,
            r.spec_mem() == mem,
            r.spec_doorbell() == doorbell,
    {
        Self::restore_inner(GdmaQueueType::GDMA_CQ, mem, state, doorbell)
    }
}

impl<D: Doorbell> CqEq<D, Eqe> {
    /// Creates a new event queue.
    pub fn new_eq(mem: MemoryBlock, doorbell: DoorbellPage<D>, id: u32) -> (r: Self)
        requires
            is_pow2(mem@.len() as int),
            pow2(Eqe::spec_shift()) <= mem@.len() <= 0x10000000,
            id < 0x1000000,
        ensures
            r.wf(),
            r.spec_queue_type() == GdmaQueueType::GDMA_EQ,
            r.spec_doorbell_addr() == DB_EQ,
            r.spec_mem() == mem,
            r.spec_doorbell() == doorbell,
            r.spec_id() == id,
            r.spec_size() == mem@.len(),
            r.spec_next() == r.spec_size(),
    {
        Self::new(GdmaQueueType::GDMA_EQ, DB_EQ, mem, doorbell, id)
    }

    /// Reconstructs an event queue from a snapshot, a freshly attached
    /// memory block, and a freshly obtained doorbell page.
    pub fn restore(mem: MemoryBlock, state: &CqEqSavedState, doorbell: DoorbellPage<D>) -> (r: Self)
        requires
            Self::restorable(*state, mem@.len() as int),
        ensures
            r.wf(),
            r.matches_saved(*state),
            r.spec_queue_type() == GdmaQueueType::GDMA_EQ,
            r.spec_mem() == mem,
            r.spec_doorbell() == doorbell,
    {
        Self::restore_inner(GdmaQueueType::GDMA_EQ, mem, state, doorbell)
    }
}

/// Law: a snapshot and a restore over memory with the same bytes reproduce
/// the whole observable ring state — cursor, id, size, shift and contents —
/// so every later `pop`, `arm` and `ack` of the restored ring behaves as the
/// original ring's continuation would, their contracts depending on nothing
/// else.
pub proof fn lemma_cq_eq_save_restore_round_trip<D1: Doorbell, D2: Doorbell, T: QueueEntry>(
    q: &CqEq<D1, T>,
    st: CqEqSavedState,
    r: &CqEq<D2, T>,
)
    requires
        q.matches_saved(st),
        r.matches_saved(st),
        r.spec_contents() == q.spec_contents(),
    ensures
        r.spec_next() == q.spec_next(),
        r.spec_id() == q.spec_id(),
        r.spec_size() == q.spec_size(),
        r.spec_shift() == q.spec_shift(),
        r.spec_contents() == q.spec_contents(),
{
}

/// Law: a freshly created consumer ring over zeroed memory observes the
/// stale owner count at its cursor, so `pop` returns nothing and leaves the
/// ring unchanged; by induction the same holds for every later `pop`, and
/// zeroed memory is never misread as a published entry.
pub proof fn lemma_fresh_ring_pop_is_stale<D: Doorbell, T: QueueEntry>(q: &CqEq<D, T>)
    requires
        q.wf(),
        q.spec_next() == q.spec_size(),
        forall|i: int| 0 <= i < q.spec_contents().len() ==> q.spec_contents()[i] == 0,
    ensures
        ({
            let es = CqEq::<D, T>::entry_size_spec();
            let size = q.spec_size() as int;
            let start = q.spec_next() as int % size;
            let observed = q.spec_contents()[start + es - 1] as int / 32;
            &&& observed == owner_stale(q.spec_next(), size)
            &&& observed != owner_expected(q.spec_next(), size)
        }),
{
    q.wf_facts();
    let es = CqEq::<D, T>::entry_size_spec();
    let size = q.spec_size() as int;
    let next = q.spec_next() as int;
    assert(next % size == 0);
    assert(next / size == 1);
    lemma_mod_mod_divides(next, es, size);
    lemma_aligned_slot_fits(next % size, es, size);
    assert(q.spec_contents()[es - 1] == 0);
    assert(owner_stale(q.spec_next(), size) == 0);
    assert(owner_expected(q.spec_next(), size) == 1);
}

/// An error indicating the queue is full.
#[derive(Debug)]
pub struct QueueFull;

/// The saved state of a work queue, sufficient to reconstruct an identical
/// producer ring on the far side of a migration.
#[derive(Clone, Debug)]
pub struct WqSavedState {
    /// The identity of the doorbell the queue was bound to.
    pub doorbell: DoorbellSavedState,
    /// The doorbell register byte offset the queue writes.
    pub doorbell_addr: u32,
    /// The addressing metadata of the ring memory.
    pub mem: MemoryBlockSavedState,
    /// The queue id.
    pub id: u32,
    /// The wrapping cursor of bytes the device has made available.
    pub head: u32,
    /// The wrapping cursor of the next write position, unmasked.
    pub tail: u32,
    /// The ring size minus one.
    pub mask: u32,
}

/// The byte size of a work-queue entry carrying `oob_len` out-of-band bytes
/// and `sge_count` scatter-gather entries: the eight header bytes, the
/// payload, and the descriptors, rounded up to the entry alignment.
pub open spec fn wq_entry_size(oob_len: int, sge_count: int) -> int {
    ((8 + oob_len + 16 * sge_count + 31) / 32) * 32
}

/// The inline out-of-band size class encoded for a payload of `oob_len`
/// bytes.
pub open spec fn wq_oob_size_class(oob_len: int) -> u8 {
    if oob_len == 24 {
        CLIENT_OOB_24
    } else if oob_len == 32 {
        CLIENT_OOB_32
    } else {
        CLIENT_OOB_8
    }
}

/// The entry-relative byte offset at which the scatter-gather descriptors
/// start.
pub open spec fn wq_sge_offset(oob_len: int) -> int {
    if oob_len <= 8 {
        16
    } else if oob_len == 24 {
        32
    } else {
        48
    }
}

/// The eight header bytes a push writes for the given payload shape.
pub open spec fn wq_pushed_header(
    oob_len: int,
    sge_count: int,
    client_oob_in_sgl: Option<u8>,
    gd_client_unit_data: u16,
) -> Seq<u8> {
    wqe_header_bytes(
        match client_oob_in_sgl {
            Some(v) => v,
            None => 0u8,
        },
        wqe_params_value(
            sge_count as u8,
            wq_oob_size_class(oob_len),
            client_oob_in_sgl is Some,
            gd_client_unit_data,
        ),
    )
}

/// Layout facts about one entry: it is aligned, bounded, and its regions
/// nest inside its rounded size.
proof fn lemma_entry_layout_bounds(ob: int, n: int)
    requires
        ob == 0 || ob == 8 || ob == 24 || ob == 32,
        0 <= n <= 255,
    ensures
        wq_entry_size(ob, n) % 32 == 0,
        32 <= wq_entry_size(ob, n) <= 4160,
        8 + ob <= wq_sge_offset(ob),
        wq_sge_offset(ob) + 16 * n <= wq_entry_size(ob, n),
        8 + ob + 16 * n <= wq_entry_size(ob, n),
{
    let x = 8 + ob + 16 * n;
    let len = wq_entry_size(ob, n);
    lemma_fundamental_div_mod(x + 31, 32);
    assert(len == 32 * ((x + 31) / 32));
    lemma_mod_multiples_basic((x + 31) / 32, 32);
    assert(x <= len < x + 32);
    assert(len >= 32) by (nonlinear_arith)
        requires
            len == 32 * ((x + 31) / 32),
            len >= x,
            x >= 8,
    {
    }
    assert(len % 16 == 0) by {
        lemma_fundamental_div_mod(len, 32);
        lemma_mod_multiples_basic(2 * (len / 32), 16);
        assert(len == 16 * (2 * (len / 32)));
    }
    let soff = wq_sge_offset(ob);
    if soff + 16 * n > len {
        lemma_mod_multiples_vanish(-n, len, 16);
        assert(16 * (-n) + len == len - 16 * n) by (nonlinear_arith);
        let w = len - 16 * n;
        assert(w % 16 == 0);
        lemma_fundamental_div_mod(w, 16);
        let q = w / 16;
        if ob <= 8 {
            assert(8 <= w < 16);
            assert(false) by (nonlinear_arith)
                requires
                    w == 16 * q + w % 16,
                    w % 16 == 0,
                    8 <= w < 16,
            {
            }
        } else if ob == 24 {
            assert(false);
        } else {
            assert(40 <= w < 48);
            assert(false) by (nonlinear_arith)
                requires
                    w == 16 * q + w % 16,
                    w % 16 == 0,
                    40 <= w < 48,
            {
            }
        }
    }
}

/// A multiple of sixteen sits either at the start or the middle of its
/// 32-byte segment.
proof fn lemma_16m_mod_32(m: int)
    requires
        m >= 0,
    ensures
        (16 * m) % 32 == 16 * (m % 2),
        0 <= (16 * m) % 32 <= 16,
{
    let q = m / 2;
    let r = m % 2;
    lemma_fundamental_div_mod(m, 2);
    assert(16 * m == 32 * q + 16 * r) by (nonlinear_arith)
        requires
            m == 2 * q + r,
    {
    }
    lemma_mod_multiples_vanish(q, 16 * r, 32);
    lemma_small_mod((16 * r) as nat, 32);
}

/// A slot addressed by an offset outside a written range lies outside the
/// written slots.
proof fn lemma_slot_outside_write(t: u32, rel: int, off: int, n: int, size: int)
    requires
        size > 0,
        size % 32 == 0,
        t as int % 32 == 0,
        0 <= off,
        off + n <= size,
        0 <= n <= 32,
        off % 32 + n <= 32,
        0 <= rel < size,
        !(off <= rel < off + n),
    ensures
        !(ring_slot(t, off, size) <= ring_slot(t, rel, size) < ring_slot(t, off, size) + n),
{
    let w = ring_slot(t, off, size);
    let x = ring_slot(t, rel, size);
    if w <= x < w + n {
        let d = x - w;
        lemma_slot_step(t, off, d, size);
        lemma_slot_injective(t, rel, off + d, size);
        assert(false);
    }
}


/// One scatter-gather descriptor write extends the entry image and leaves
/// the header, the payload, the earlier descriptors and the rest of the
/// ring in place.
proof fn lemma_sge_loop_step(
    c0: Seq<u8>,
    c1: Seq<u8>,
    c2: Seq<u8>,
    t: u32,
    s: int,
    ob: int,
    soff: int,
    i: int,
    hdr: Seq<u8>,
    oob: Seq<u8>,
    sgl: Seq<Sge>,
    sb: Seq<u8>,
)
    requires
        s >= 32,
        s % 32 == 0,
        t as int % 32 == 0,
        ob == 0 || ob == 8 || ob == 24 || ob == 32,
        soff == wq_sge_offset(ob),
        0 <= i < sgl.len() <= 255,
        soff + 16 * sgl.len() <= s,
        sb == sge_bytes(sgl[i]),
        c0.len() == s,
        c1.len() == s,
        c2.len() == s,
        forall|b: int|
            0 <= b < 16 ==> c2[ring_slot(t, soff + 16 * i, s) + b] == sb[b],
        forall|j: int|
            0 <= j < s && !(ring_slot(t, soff + 16 * i, s) <= j < ring_slot(t, soff + 16 * i, s)
                + 16) ==> c2[j] == c1[j],
        forall|x: int| 0 <= x < 8 ==> c1[ring_slot(t, x, s)] == hdr[x],
        forall|x: int| 0 <= x < ob ==> c1[ring_slot(t, 8 + x, s)] == oob[x],
        forall|j: int, b: int|
            0 <= j < i && 0 <= b < 16 ==> c1[ring_slot(t, soff + 16 * j + b, s)] == sge_bytes(
                sgl[j],
            )[b],
        forall|rel: int|
            (8 + ob <= rel < soff || soff + 16 * i <= rel < s) ==> c1[ring_slot(t, rel, s)]
                == c0[ring_slot(t, rel, s)],
    ensures
        forall|x: int| 0 <= x < 8 ==> c2[ring_slot(t, x, s)] == hdr[x],
        forall|x: int| 0 <= x < ob ==> c2[ring_slot(t, 8 + x, s)] == oob[x],
        forall|j: int, b: int|
            0 <= j < i + 1 && 0 <= b < 16 ==> c2[ring_slot(t, soff + 16 * j + b, s)] == sge_bytes(
                sgl[j],
            )[b],
        forall|rel: int|
            (8 + ob <= rel < soff || soff + 16 * (i + 1) <= rel < s) ==> c2[ring_slot(t, rel, s)]
                == c0[ring_slot(t, rel, s)],
{
    let woff = soff + 16 * i;
    lemma_fundamental_div_mod(soff, 16);
    lemma_16m_mod_32(soff / 16 + i);
    assert(16 * (soff / 16 + i) == woff) by (nonlinear_arith)
        requires
            soff == 16 * (soff / 16),
            woff == soff + 16 * i,
    {
    }
    assert(woff % 32 + 16 <= 32);
    assert(16 * (i + 1) <= 16 * sgl.len()) by (nonlinear_arith)
        requires
            i + 1 <= sgl.len(),
    {
    }
    assert(woff + 16 <= s);
    assert forall|x: int| 0 <= x < 8 implies c2[ring_slot(t, x, s)] == hdr[x] by {
        lemma_slot_outside_write(t, x, woff, 16, s);
    }
    assert forall|x: int| 0 <= x < ob implies c2[ring_slot(t, 8 + x, s)] == oob[x] by {
        lemma_slot_outside_write(t, 8 + x, woff, 16, s);
    }
    assert forall|j: int, b: int| 0 <= j < i + 1 && 0 <= b < 16 implies c2[ring_slot(
        t,
        soff + 16 * j + b,
        s,
    )] == sge_bytes(sgl[j])[b] by {
        if j < i {
            lemma_slot_outside_write(t, soff + 16 * j + b, woff, 16, s);
        } else {
            lemma_slot_step(t, woff, b, s);
        }
    }
    assert forall|rel: int| (8 + ob <= rel < soff || soff + 16 * (i + 1) <= rel < s) implies c2[
        ring_slot(t, rel, s)] == c0[ring_slot(t, rel, s)] by {
        lemma_slot_outside_write(t, rel, woff, 16, s);
    }
}

/// A work queue: a producer ring for send or receive work-queue entries.
pub struct Wq<D: Doorbell> {
    doorbell: DoorbellPage<D>,
    queue_type: GdmaQueueType,
    doorbell_addr: u32,
    mem: MemoryBlock,
    id: u32,
    head: u32,
    tail: u32,
    mask: u32,
    uncommitted_count: u32,
}

impl<D: Doorbell> Wq<D> {
    /// The doorbell page the queue signals through.
    pub closed spec fn spec_doorbell(&self) -> DoorbellPage<D> {
        self.doorbell
    }

    /// The doorbell register byte offset the queue writes.
    pub closed spec fn spec_doorbell_addr(&self) -> u32 {
        self.doorbell_addr
    }

    /// The kind of the queue.
    pub closed spec fn spec_queue_type(&self) -> GdmaQueueType {
        self.queue_type
    }

    /// The memory block backing the ring.
    pub closed spec fn spec_mem(&self) -> MemoryBlock {
        self.mem
    }

    /// The bytes of the ring.
    pub open spec fn spec_contents(&self) -> Seq<u8> {
        self.spec_mem()@
    }

    /// The queue id.
    pub closed spec fn spec_id(&self) -> u32 {
        self.id
    }

    /// The cursor of bytes the device has made available.
    pub closed spec fn spec_head(&self) -> u32 {
        self.head
    }

    /// The cursor of the next write position, unmasked.
    pub closed spec fn spec_tail(&self) -> u32 {
        self.tail
    }

    /// The ring size minus one.
    pub closed spec fn spec_mask(&self) -> u32 {
        self.mask
    }

    /// The count of entries pushed since the last commit.
    pub closed spec fn spec_uncommitted(&self) -> u32 {
        self.uncommitted_count
    }

    /// The ring size in bytes.
    pub open spec fn spec_size(&self) -> int {
        self.spec_mask() as int + 1
    }

    /// The bytes available for pushing.
    pub open spec fn spec_available(&self) -> u32 {
        self.spec_head().wrapping_sub(self.spec_tail())
    }

    /// Well-formedness: the ring size is a power of two of at least one
    /// segment, the write cursor stays segment aligned, no more than a ring
    /// of bytes is ever available, and the doorbell binding is in range.
    pub open spec fn wf(&self) -> bool {
        &&& exists|k: nat| 5 <= k <= 28 && self.spec_size() == pow2(k)
        &&& self.spec_mem()@.len() == self.spec_size()
        &&& self.spec_tail() as int % 32 == 0
        &&& self.spec_available() <= self.spec_size()
        &&& self.spec_doorbell_addr() < 4096
        &&& self.spec_id() < 0x1000000
    }

    /// Arithmetic consequences of well-formedness.
    proof fn wf_facts(&self)
        requires
            self.wf(),
        ensures
            32 <= self.spec_size() <= 0x10000000,
            self.spec_size() % 32 == 0,
            0x100000000int % self.spec_size() == 0,
    {
        let k = choose|k: nat| 5 <= k <= 28 && self.spec_size() == pow2(k);
        lemma2_to64();
        if k > 5 {
            lemma_pow2_strictly_increases(5, k);
        }
        if k < 28 {
            lemma_pow2_strictly_increases(k, 28);
        }
        lemma_pow2_adds(5, (k - 5) as nat);
        lemma_mod_multiples_basic(pow2((k - 5) as nat) as int, 32);
        assert(pow2(5) as int * pow2((k - 5) as nat) as int == pow2((k - 5) as nat) as int
            * 32) by (nonlinear_arith)
            requires
                pow2(5) == 32,
        {
        }
        lemma_pow2_divides_u32_range(k);
    }

    /// Masks a wrapped cursor-plus-offset down to its ring byte index.
    fn ring_index(&self, cursor: u32, offset: u32) -> (r: usize)
        requires
            self.wf(),
            offset < 0x80000000,
        ensures
            r as int == ring_slot(cursor, offset as int, self.spec_size()),
            r < self.spec_size(),
    {
        proof {
            let k = choose|k: nat| 5 <= k <= 28 && self.spec_size() == pow2(k);
            lemma_masked_wrap_is_slot(cursor, offset, k);
        }
        (cursor.wrapping_add(offset) & self.mask) as usize
    }

    /// Creates a new work queue over `mem`.
    fn new(
        queue_type: GdmaQueueType,
        doorbell_addr: u32,
        mem: MemoryBlock,
        doorbell: DoorbellPage<D>,
        id: u32,
    ) -> (r: Self)
        requires
            is_pow2(mem@.len() as int),
            32 <= mem@.len() <= 0x10000000,
            doorbell_addr < 4096,
            id < 0x1000000,
        ensures
            r.wf(),
            r.spec_queue_type() == queue_type,
            r.spec_doorbell_addr() == doorbell_addr,
            r.spec_mem() == mem,
            r.spec_doorbell() == doorbell,
            r.spec_id() == id,
            r.spec_size() == mem@.len(),
            r.spec_head() == mem@.len(),
            r.spec_tail() == 0u32,
            r.spec_uncommitted() == 0u32,
            r.spec_available() == r.spec_size(),
    {
        proof {
            lemma2_to64();
            lemma_pow2_witness(mem@.len() as int, 28);
            let k = choose|k: nat| k <= 28 && mem@.len() == pow2(k);
            if k < 5 {
                lemma_pow2_strictly_increases(k, 5);
                assert(false);
            }
        }
        let size = mem.len() as u32;
        Wq {
            doorbell,
            queue_type,
            doorbell_addr,
            mem,
            id,
            head: size,
            tail: 0,
            mask: size - 1,
            uncommitted_count: 0,
        }
    }

    /// Creates a new send work queue.
    pub fn new_sq(mem: MemoryBlock, doorbell: DoorbellPage<D>, id: u32) -> (r: Self)
        requires
            is_pow2(mem@.len() as int),
            32 <= mem@.len() <= 0x10000000,
            id < 0x1000000,
        ensures
            r.wf(),
            r.spec_queue_type() == GdmaQueueType::GDMA_SQ,
            r.spec_doorbell_addr() == DB_SQ,
            r.spec_mem() == mem,
            r.spec_doorbell() == doorbell,
            r.spec_id() == id,
            r.spec_size() == mem@.len(),
            r.spec_head() == mem@.len(),
            r.spec_tail() == 0u32,
            r.spec_uncommitted() == 0u32,
            r.spec_available() == r.spec_size(),
    {
        Self::new(GdmaQueueType::GDMA_SQ, DB_SQ, mem, doorbell, id)
    }

    /// Creates a new receive work queue.
    pub fn new_rq(mem: MemoryBlock, doorbell: DoorbellPage<D>, id: u32) -> (r: Self)
        requires
            is_pow2(mem@.len() as int),
            32 <= mem@.len() <= 0x10000000,
            id < 0x1000000,
        ensures
            r.wf(),
            r.spec_queue_type() == GdmaQueueType::GDMA_RQ,
            r.spec_doorbell_addr() == DB_RQ,
            r.spec_mem() == mem,
            r.spec_doorbell() == doorbell,
            r.spec_id() == id,
            r.spec_size() == mem@.len(),
            r.spec_head() == mem@.len(),
            r.spec_tail() == 0u32,
            r.spec_uncommitted() == 0u32,
            r.spec_available() == r.spec_size(),
    {
        Self::new(GdmaQueueType::GDMA_RQ, DB_RQ, mem, doorbell, id)
    }

    /// Whether `st` is a faithful snapshot of this queue's ring position.
    pub open spec fn matches_saved(&self, st: WqSavedState) -> bool {
        &&& st.doorbell_addr == self.spec_doorbell_addr()
        &&& st.id == self.spec_id()
        &&& st.head == self.spec_head()
        &&& st.tail == self.spec_tail()
        &&& st.mask == self.spec_mask()
    }

    /// Whether a saved state is consistent enough to restore a well-formed
    /// ring over memory of length `mem_len`.
    pub open spec fn restorable(st: WqSavedState, mem_len: int) -> bool {
        &&& exists|k: nat| 5 <= k <= 28 && st.mask as int + 1 == pow2(k)
        &&& mem_len == st.mask + 1
        &&& st.tail as int % 32 == 0
        &&& st.head.wrapping_sub(st.tail) <= st.mask + 1
        &&& st.doorbell_addr < 4096
        &&& st.id < 0x1000000
    }

    /// Reconstructs a work queue from a snapshot. Entries pushed but not
    /// committed before the snapshot are considered lost: the uncommitted
    /// count restarts at zero and the caller regenerates any such entries.
    fn restore_inner(
        queue_type: GdmaQueueType,
        mem: MemoryBlock,
        state: &WqSavedState,
        doorbell: DoorbellPage<D>,
    ) -> (r: Self)
        requires
            Self::restorable(*state, mem@.len() as int),
        ensures
            r.wf(),
            r.matches_saved(*state),
            r.spec_queue_type() == queue_type,
            r.spec_mem() == mem,
            r.spec_doorbell() == doorbell,
            r.spec_uncommitted() == 0u32,
    {
        Wq {
            doorbell,
            doorbell_addr: state.doorbell_addr,
            queue_type,
            mem,
            id: state.id,
            head: state.head,
            tail: state.tail,
            mask: state.mask,
            uncommitted_count: 0,
        }
    }

    /// Reconstructs a receive work queue from a snapshot, a freshly
    /// attached memory block, and a freshly obtained doorbell page.
    pub fn restore_rq(mem: MemoryBlock, state: &WqSavedState, doorbell: DoorbellPage<D>) -> (r:
        Self)
        requires
            Self::restorable(*state, mem@.len() as int),
        ensures
            r.wf(),
            r.matches_saved(*state),
            r.spec_queue_type() == GdmaQueueType::GDMA_RQ,
            r.spec_mem() == mem,
            r.spec_doorbell() == doorbell,
            r.spec_uncommitted() == 0u32,
    {
        Self::restore_inner(GdmaQueueType::GDMA_RQ, mem, state, doorbell)
    }

    /// Reconstructs a send work queue from a snapshot, a freshly attached
    /// memory block, and a freshly obtained doorbell page.
    pub fn restore_sq(mem: MemoryBlock, state: &WqSavedState, doorbell: DoorbellPage<D>) -> (r:
        Self)
        requires
            Self::restorable(*state, mem@.len() as int),
        ensures
            r.wf(),
            r.matches_saved(*state),
            r.spec_queue_type() == GdmaQueueType::GDMA_SQ,
            r.spec_mem() == mem,
            r.spec_doorbell() == doorbell,
            r.spec_uncommitted() == 0u32,
    {
        Self::restore_inner(GdmaQueueType::GDMA_SQ, mem, state, doorbell)
    }

    /// Captures the queue state for a migration snapshot.
    pub fn save(&self) -> (r: WqSavedState)
        ensures
            self.matches_saved(r),
            r.doorbell.doorbell_id == self.spec_doorbell().doorbell_id as u64,
            r.doorbell.page_count == self.spec_doorbell().doorbell.spec_page_count(),
            r.mem.base == self.spec_mem().spec_base(),
            r.mem.len == self.spec_mem()@.len(),
            r.mem.pfns@ == self.spec_mem().spec_pfns(),
            r.mem.pfn_bias == self.spec_mem().spec_pfn_bias(),
    {
        WqSavedState {
            doorbell: DoorbellSavedState {
                doorbell_id: self.doorbell.doorbell_id as u64,
                page_count: self.doorbell.doorbell.page_count(),
            },
            doorbell_addr: self.doorbell_addr,
            mem: self.mem.save(),
            id: self.id,
            head: self.head,
            tail: self.tail,
            mask: self.mask,
        }
    }

    /// The doorbell page the queue signals through.
    pub fn doorbell(&self) -> (r: &DoorbellPage<D>)
        ensures
            r == self.spec_doorbell(),
    {
        &self.doorbell
    }

    /// Returns the queue id.
    pub fn id(&self) -> (r: u32)
        ensures
            r == self.spec_id(),
    {
        self.id
    }

    /// Reports the tail value for diagnostics.
    pub fn get_tail(&mut self) -> (r: u32)
        ensures
            r == old(self).spec_tail(),
            *final(self) == *old(self),
    {
        self.tail
    }

    /// Returns the number of bytes available in the ring.
    pub fn available(&self) -> (r: u32)
        ensures
            r == self.spec_available(),
    {
        self.head.wrapping_sub(self.tail)
    }

    /// Advances the head, indicating that `n` more bytes are available in
    /// the ring. The head cursor wraps naturally as it cycles far beyond the
    /// ring size; the device never makes more than a ring of bytes
    /// available.
    pub fn advance_head(&mut self, n: u32)
        requires
            old(self).wf(),
            n as int % 32 == 0,
            old(self).spec_available() + n <= old(self).spec_size(),
        ensures
            final(self).wf(),
            final(self).spec_head() == old(self).spec_head().wrapping_add(n),
            final(self).spec_tail() == old(self).spec_tail(),
            final(self).spec_mask() == old(self).spec_mask(),
            final(self).spec_id() == old(self).spec_id(),
            final(self).spec_uncommitted() == old(self).spec_uncommitted(),
            final(self).spec_mem() == old(self).spec_mem(),
            final(self).spec_doorbell() == old(self).spec_doorbell(),
            final(self).spec_doorbell_addr() == old(self).spec_doorbell_addr(),
            final(self).spec_queue_type() == old(self).spec_queue_type(),
            final(self).spec_available() == old(self).spec_available() + n,
    {
        proof {
            self.wf_facts();
        }
        self.head = self.head.wrapping_add(n);
        proof {
            let h = old(self).spec_head() as int;
            let t = old(self).spec_tail() as int;
            let av = old(self).spec_available() as int;
            assert(av == h - t || av == h - t + 0x100000000);
            let h2 = self.spec_head() as int;
            assert(h2 == h + n || h2 == h + n - 0x100000000);
            let av2 = self.spec_available() as int;
            assert(av2 == h2 - t || av2 == h2 - t + 0x100000000);
        }
    }

    /// Computes the size of an entry with `oob_len` out-of-band bytes and
    /// `sge_count` scatter-gather entries.
    pub fn entry_size(oob_len: usize, sge_count: usize) -> (r: u32)
        requires
            8 + oob_len + 16 * sge_count + 31 <= u32::MAX,
        ensures
            r == wq_entry_size(oob_len as int, sge_count as int),
            r as int % 32 == 0,
            8 + oob_len + 16 * sge_count <= r < 8 + oob_len + 16 * sge_count + 32,
    {
        let x = 8 + oob_len + 16 * sge_count;
        let len = ((x + 31) / 32) * 32;
        proof {
            lemma_fundamental_div_mod(x as int + 31, 32);
            lemma_mod_multiples_basic((x as int + 31) / 32, 32);
            assert(len as int == 32 * ((x as int + 31) / 32));
        }
        len as u32
    }

    /// Writes `data` into the ring at byte offset `offset` past the tail.
    /// A single write never straddles a 32-byte segment boundary.
    fn write_tail(&mut self, offset: u32, data: &Vec<u8>)
        requires
            old(self).wf(),
            offset as int % 32 + data@.len() <= 32,
            offset as int + data@.len() <= old(self).spec_size(),
        ensures
            final(self).wf(),
            final(self).spec_head() == old(self).spec_head(),
            final(self).spec_tail() == old(self).spec_tail(),
            final(self).spec_mask() == old(self).spec_mask(),
            final(self).spec_id() == old(self).spec_id(),
            final(self).spec_uncommitted() == old(self).spec_uncommitted(),
            final(self).spec_doorbell() == old(self).spec_doorbell(),
            final(self).spec_doorbell_addr() == old(self).spec_doorbell_addr(),
            final(self).spec_queue_type() == old(self).spec_queue_type(),
            final(self).spec_mem().spec_base() == old(self).spec_mem().spec_base(),
            final(self).spec_mem().spec_pfns() == old(self).spec_mem().spec_pfns(),
            final(self).spec_mem().spec_pfn_bias() == old(self).spec_mem().spec_pfn_bias(),
            final(self).spec_contents().len() == old(self).spec_contents().len(),
            ({
                let s = old(self).spec_size();
                let w = ring_slot(old(self).spec_tail(), offset as int, s);
                let n = data@.len() as int;
                &&& w + n <= s
                &&& forall|i: int|
                    0 <= i < n ==> final(self).spec_contents()[w + i] == data@[i]
                &&& forall|j: int|
                    0 <= j < s && !(w <= j < w + n) ==> final(self).spec_contents()[j] == old(
                        self,
                    ).spec_contents()[j]
            }),
    {
        proof {
            self.wf_facts();
            let s = self.spec_size();
            let n = data@.len() as int;
            if n > 0 {
                lemma_slot_step(self.spec_tail(), offset as int, n - 1, s);
            }
            lemma_slot_step(self.spec_tail(), offset as int, 0, s);
        }
        let idx = self.ring_index(self.tail, offset);
        self.mem.write_at(idx, data);
    }

    /// Pushes a new work-queue entry: eight header bytes, the inline
    /// out-of-band payload, then the scatter-gather descriptors, all written
    /// relative to the tail without straddling any 32-byte segment. Returns
    /// the entry's byte size, or [`QueueFull`] — with nothing written and no
    /// state changed — when fewer bytes are available than the entry needs.
    #[verifier::rlimit(100)]
    #[verifier::spinoff_prover]
    pub fn push(
        &mut self,
        oob: &Vec<u8>,
        sgl: &Vec<Sge>,
        client_oob_in_sgl: Option<u8>,
        gd_client_unit_data: u16,
    ) -> (r: Result<u32, QueueFull>)
        requires
            old(self).wf(),
            oob@.len() == 0 || oob@.len() == 8 || oob@.len() == 24 || oob@.len() == 32,
            sgl@.len() <= 255,
            old(self).spec_uncommitted() < 0xffffffff,
        ensures
            final(self).wf(),
            final(self).spec_head() == old(self).spec_head(),
            final(self).spec_mask() == old(self).spec_mask(),
            final(self).spec_id() == old(self).spec_id(),
            final(self).spec_doorbell() == old(self).spec_doorbell(),
            final(self).spec_doorbell_addr() == old(self).spec_doorbell_addr(),
            final(self).spec_queue_type() == old(self).spec_queue_type(),
            final(self).spec_mem().spec_base() == old(self).spec_mem().spec_base(),
            final(self).spec_mem().spec_pfns() == old(self).spec_mem().spec_pfns(),
            final(self).spec_mem().spec_pfn_bias() == old(self).spec_mem().spec_pfn_bias(),
            ({
                let ob = oob@.len() as int;
                let nsge = sgl@.len() as int;
                let len = wq_entry_size(ob, nsge);
                if old(self).spec_available() < len {
                    &&& r is Err
                    &&& *final(self) == *old(self)
                } else {
                    let s = old(self).spec_size();
                    let t = old(self).spec_tail();
                    let hdr = wq_pushed_header(ob, nsge, client_oob_in_sgl, gd_client_unit_data);
                    let soff = wq_sge_offset(ob);
                    &&& r == Ok::<u32, QueueFull>(len as u32)
                    &&& final(self).spec_tail() == t.wrapping_add(len as u32)
                    &&& final(self).spec_uncommitted() == old(self).spec_uncommitted() + 1
                    &&& final(self).spec_available() == old(self).spec_available() - len
                    &&& final(self).spec_contents().len() == s
                    &&& forall|i: int|
                        0 <= i < 8 ==> final(self).spec_contents()[ring_slot(t, i, s)] == hdr[i]
                    &&& forall|i: int|
                        0 <= i < ob ==> final(self).spec_contents()[ring_slot(t, 8 + i, s)]
                            == oob@[i]
                    &&& forall|j: int, b: int|
                        0 <= j < nsge && 0 <= b < 16 ==> final(self).spec_contents()[ring_slot(
                            t,
                            soff + 16 * j + b,
                            s,
                        )] == sge_bytes(sgl@[j])[b]
                    &&& forall|rel: int|
                        (8 + ob <= rel < soff || soff + 16 * nsge <= rel < s)
                            ==> final(self).spec_contents()[ring_slot(t, rel, s)] == old(
                            self,
                        ).spec_contents()[ring_slot(t, rel, s)]
                }
            }),
    {
        proof {
            self.wf_facts();
            lemma_entry_layout_bounds(oob@.len() as int, sgl@.len() as int);
        }
        let ghost s = self.spec_size();
        let ghost t = self.spec_tail();
        let oob_len = oob.len();
        let oob_size = if oob_len == 0 || oob_len == 8 {
            CLIENT_OOB_8
        } else if oob_len == 24 {
            CLIENT_OOB_24
        } else {
            CLIENT_OOB_32
        };
        let sge_count = sgl.len();
        let len = Self::entry_size(oob_len, sge_count);
        if self.available() < len {
            return Err(QueueFull);
        }
        let ghost ob = oob@.len() as int;
        let ghost nsge = sgl@.len() as int;
        let ghost soff = wq_sge_offset(ob);
        let ghost hdrspec = wq_pushed_header(ob, nsge, client_oob_in_sgl, gd_client_unit_data);

        let last_vbytes = match client_oob_in_sgl {
            Some(v) => v,
            None => 0,
        };
        let params = wqe_params(
            sge_count as u8,
            oob_size,
            client_oob_in_sgl.is_some(),
            gd_client_unit_data,
        );
        let hdr = wqe_header(last_vbytes, params);
        proof {
            assert(hdr@ == hdrspec);
        }
        self.write_tail(0, &hdr);
        proof {
            assert forall|rel: int| 8 <= rel < s implies self.spec_contents()[ring_slot(
                t,
                rel,
                s,
            )] == old(self).spec_contents()[ring_slot(t, rel, s)] by {
                lemma_slot_outside_write(t, rel, 0, 8, s);
            }
            assert forall|i: int| 0 <= i < 8 implies self.spec_contents()[ring_slot(t, i, s)]
                == hdrspec[i] by {
                lemma_slot_step(t, 0, i, s);
            }
        }
        // The out-of-band payload lands right after the header; the largest
        // class straddles a segment boundary and is written in two parts.
        let offset: u32 = if oob_len == 0 {
            16
        } else if oob_len == 8 || oob_len == 24 {
            self.write_tail(8, oob);
            proof {
                assert forall|x: int| 0 <= x < 8 implies self.spec_contents()[ring_slot(t, x, s)]
                    == hdrspec[x] by {
                    lemma_slot_outside_write(t, x, 8, ob, s);
                }
                assert forall|x: int| 0 <= x < ob implies self.spec_contents()[ring_slot(
                    t,
                    8 + x,
                    s,
                )] == oob@[x] by {
                    lemma_slot_step(t, 8, x, s);
                }
                assert forall|rel: int| 8 + ob <= rel < s implies self.spec_contents()[ring_slot(
                    t,
                    rel,
                    s,
                )] == old(self).spec_contents()[ring_slot(t, rel, s)] by {
                    lemma_slot_outside_write(t, rel, 8, ob, s);
                }
            }
            if oob_len == 8 {
                16
            } else {
                32
            }
        } else {
            let oob_head = vec_range(oob, 0, 24);
            let oob_tail = vec_range(oob, 24, 32);
            self.write_tail(8, &oob_head);
            let ghost ca = self.spec_contents();
            proof {
                assert forall|x: int| 0 <= x < 8 implies ca[ring_slot(t, x, s)] == hdrspec[x] by {
                    lemma_slot_outside_write(t, x, 8, 24, s);
                }
                assert forall|x: int| 0 <= x < 24 implies ca[ring_slot(t, 8 + x, s)]
                    == oob@[x] by {
                    lemma_slot_step(t, 8, x, s);
                    assert(ca[ring_slot(t, 8, s) + x] == oob_head@[x]);
                    assert(oob_head@[x] == oob@[x]);
                }
                assert forall|rel: int| 32 <= rel < s implies ca[ring_slot(t, rel, s)] == old(
                    self,
                ).spec_contents()[ring_slot(t, rel, s)] by {
                    lemma_slot_outside_write(t, rel, 8, 24, s);
                }
            }
            self.write_tail(32, &oob_tail);
            proof {
                assert forall|x: int| 0 <= x < 8 implies self.spec_contents()[ring_slot(t, x, s)]
                    == hdrspec[x] by {
                    lemma_slot_outside_write(t, x, 32, 8, s);
                }
                assert forall|x: int| 0 <= x < ob implies self.spec_contents()[ring_slot(
                    t,
                    8 + x,
                    s,
                )] == oob@[x] by {
                    if x < 24 {
                        lemma_slot_outside_write(t, 8 + x, 32, 8, s);
                        assert(self.spec_contents()[ring_slot(t, 8 + x, s)] == ca[ring_slot(
                            t,
                            8 + x,
                            s,
                        )]);
                    } else {
                        lemma_slot_step(t, 32, x - 24, s);
                        assert(self.spec_contents()[ring_slot(t, 32, s) + (x - 24)]
                            == oob_tail@[x - 24]);
                    }
                }
                assert forall|rel: int| 40 <= rel < s implies self.spec_contents()[ring_slot(
                    t,
                    rel,
                    s,
                )] == old(self).spec_contents()[ring_slot(t, rel, s)] by {
                    lemma_slot_outside_write(t, rel, 32, 8, s);
                    assert(self.spec_contents()[ring_slot(t, rel, s)] == ca[ring_slot(t, rel, s)]);
                }
            }
            48
        };
        proof {
            assert(offset as int == soff);
        }
        let mut i: usize = 0;
        while i < sge_count
            invariant
                self.wf(),
                old(self).wf(),
                i <= sge_count,
                sge_count == nsge,
                sgl@.len() == nsge,
                oob@.len() == ob,
                ob == 0 || ob == 8 || ob == 24 || ob == 32,
                nsge <= 255,
                offset as int == soff,
                soff == wq_sge_offset(ob),
                soff + 16 * nsge <= wq_entry_size(ob, nsge) <= s,
                s == self.spec_size(),
                t == self.spec_tail(),
                self.spec_size() == old(self).spec_size(),
                self.spec_head() == old(self).spec_head(),
                self.spec_tail() == old(self).spec_tail(),
                self.spec_mask() == old(self).spec_mask(),
                self.spec_id() == old(self).spec_id(),
                self.spec_uncommitted() == old(self).spec_uncommitted(),
                self.spec_doorbell() == old(self).spec_doorbell(),
                self.spec_doorbell_addr() == old(self).spec_doorbell_addr(),
                self.spec_queue_type() == old(self).spec_queue_type(),
                self.spec_mem().spec_base() == old(self).spec_mem().spec_base(),
                self.spec_mem().spec_pfns() == old(self).spec_mem().spec_pfns(),
                self.spec_mem().spec_pfn_bias() == old(self).spec_mem().spec_pfn_bias(),
                self.spec_contents().len() == s,
                forall|x: int|
                    0 <= x < 8 ==> self.spec_contents()[ring_slot(t, x, s)] == hdrspec[x],
                forall|x: int|
                    0 <= x < ob ==> self.spec_contents()[ring_slot(t, 8 + x, s)] == oob@[x],
                forall|j: int, b: int|
                    0 <= j < i && 0 <= b < 16 ==> self.spec_contents()[ring_slot(
                        t,
                        soff + 16 * j + b,
                        s,
                    )] == sge_bytes(sgl@[j])[b],
                forall|rel: int|
                    (8 + ob <= rel < soff || soff + 16 * i <= rel < s)
                        ==> self.spec_contents()[ring_slot(t, rel, s)] == old(
                        self,
                    ).spec_contents()[ring_slot(t, rel, s)],
            decreases sge_count - i,
        {
            let ghost c0 = old(self).spec_contents();
            let ghost c1 = self.spec_contents();
            let ghost i0 = i as int;
            let sb = sge_to_bytes(&sgl[i]);
            let woff = offset + (i as u32) * 16;
            proof {
                self.wf_facts();
                // The descriptor write stays within one segment.
                assert(soff == 16 * (soff / 16)) by {
                    lemma_fundamental_div_mod(soff, 16);
                }
                lemma_16m_mod_32(soff / 16 + i0);
                assert(16 * (soff / 16 + i0) == soff + 16 * i0) by (nonlinear_arith)
                    requires
                        soff == 16 * (soff / 16),
                {
                }
                assert(16 * (i0 + 1) <= 16 * nsge) by (nonlinear_arith)
                    requires
                        i0 + 1 <= nsge,
                {
                }
            }
            self.write_tail(woff, &sb);
            i = i + 1;
            proof {
                lemma_sge_loop_step(
                    c0,
                    c1,
                    self.spec_contents(),
                    t,
                    s,
                    ob,
                    soff,
                    i0,
                    hdrspec,
                    oob@,
                    sgl@,
                    sb@,
                );
            }
        }
        let ghost avail = self.spec_available();
        self.tail = self.tail.wrapping_add(len);
        self.uncommitted_count = self.uncommitted_count + 1;
        proof {
            self.wf_facts_after_push(t, len, avail);
        }
        Ok(len)
    }

    /// The advanced tail stays segment aligned and the available count
    /// shrinks by exactly the entry size.
    proof fn wf_facts_after_push(&self, t: u32, len: u32, avail: u32)
        requires
            exists|k: nat| 5 <= k <= 28 && self.spec_size() == pow2(k),
            self.spec_mem()@.len() == self.spec_size(),
            self.spec_doorbell_addr() < 4096,
            self.spec_id() < 0x1000000,
            t as int % 32 == 0,
            len as int % 32 == 0,
            len <= avail <= self.spec_size(),
            avail == self.spec_head().wrapping_sub(t),
            self.spec_tail() == t.wrapping_add(len),
        ensures
            self.wf(),
            self.spec_available() == avail - len,
    {
        lemma2_to64();
        let k = choose|k: nat| 5 <= k <= 28 && self.spec_size() == pow2(k);
        lemma_pow2_divides_u32_range(k);
        if k > 5 {
            lemma_pow2_strictly_increases(5, k);
        }
        lemma_wrapping_add_mod(t, len, 32);
        vstd::arithmetic::div_mod::lemma_add_mod_noop(t as int, len as int, 32);
    }

    /// Commits all written entries by writing the doorbell value the device
    /// observes: the queue id and the unmasked tail, and — for receive
    /// queues only — the count of entries pushed since the last commit,
    /// truncated to eight bits. The uncommitted count resets either way.
    pub fn commit(&mut self)
        requires
            old(self).wf(),
        ensures
            final(self).wf(),
            final(self).spec_head() == old(self).spec_head(),
            final(self).spec_tail() == old(self).spec_tail(),
            final(self).spec_mask() == old(self).spec_mask(),
            final(self).spec_id() == old(self).spec_id(),
            final(self).spec_queue_type() == old(self).spec_queue_type(),
            final(self).spec_mem() == old(self).spec_mem(),
            final(self).spec_doorbell_addr() == old(self).spec_doorbell_addr(),
            final(self).spec_uncommitted() == 0u32,
            final(self).spec_doorbell().doorbell_id == old(self).spec_doorbell().doorbell_id,
            final(self).spec_doorbell().doorbell.spec_page_count() == old(
                self,
            ).spec_doorbell().doorbell.spec_page_count(),
            final(self).spec_doorbell().doorbell.spec_writes() == old(
                self,
            ).spec_doorbell().doorbell.spec_writes().push(
                DoorbellWrite {
                    page: old(self).spec_doorbell().doorbell_id,
                    address: old(self).spec_doorbell_addr(),
                    value: wq_doorbell_value(
                        old(self).spec_id(),
                        if old(self).spec_queue_type() == GdmaQueueType::GDMA_RQ {
                            (old(self).spec_uncommitted() as int % 256) as u8
                        } else {
                            0u8
                        },
                        old(self).spec_tail(),
                    ),
                },
            ),
    {
        // The tail is written unmasked. A receive queue also reports how
        // many entries were pushed; past 255 the count wraps, which devices
        // that ignore the field tolerate.
        let num_rwqe: u8 = match self.queue_type {
            GdmaQueueType::GDMA_RQ => (self.uncommitted_count % 256) as u8,
            _ => 0,
        };
        let value = encode_wq_doorbell(self.id, num_rwqe, self.tail);
        let addr = self.doorbell_addr;
        self.doorbell.write(addr, value);
        self.uncommitted_count = 0;
    }
}

/// Law: a snapshot and a restore over memory with the same bytes reproduce
/// the whole observable ring state — head, tail, mask, id and contents — so
/// every later `push`, `advance_head` and `commit` of the restored ring
/// behaves as the original ring's continuation would, except that the
/// uncommitted count restarts at zero.
pub proof fn lemma_wq_save_restore_round_trip<D1: Doorbell, D2: Doorbell>(
    q: &Wq<D1>,
    st: WqSavedState,
    r: &Wq<D2>,
)
    requires
        q.matches_saved(st),
        r.matches_saved(st),
        r.spec_contents() == q.spec_contents(),
    ensures
        r.spec_head() == q.spec_head(),
        r.spec_tail() == q.spec_tail(),
        r.spec_mask() == q.spec_mask(),
        r.spec_id() == q.spec_id(),
        r.spec_available() == q.spec_available(),
        r.spec_contents() == q.spec_contents(),
{
}

/// Law: the entry size is deterministic in its two arguments, monotonically
/// non-decreasing in each, and always a multiple of the entry alignment.
pub proof fn lemma_entry_size_monotone(o1: int, s1: int, o2: int, s2: int)
    requires
        0 <= o1 <= o2,
        0 <= s1 <= s2,
    ensures
        wq_entry_size(o1, s1) <= wq_entry_size(o2, s2),
        wq_entry_size(o1, s1) % 32 == 0,
{
    let x1 = 8 + o1 + 16 * s1;
    let x2 = 8 + o2 + 16 * s2;
    assert(x1 <= x2);
    vstd::arithmetic::div_mod::lemma_div_is_ordered(x1 + 31, x2 + 31, 32);
    vstd::arithmetic::mul::lemma_mul_inequality((x1 + 31) / 32, (x2 + 31) / 32, 32);
    lemma_mod_multiples_basic((x1 + 31) / 32, 32);
}

/// The tail cursor after `k` entries of size `e` have been pushed onto a
/// fresh ring.
pub open spec fn tail_after_pushes(e: u32, k: nat) -> u32
    decreases k,
{
    if k == 0 {
        0u32
    } else {
        tail_after_pushes(e, (k - 1) as nat).wrapping_add(e)
    }
}

/// Law: a ring of `s` bytes filled from fresh (head at `s`, tail at zero)
/// with entries of `e` bytes, where `e` divides `s`, accepts exactly `s / e`
/// of them: after `k` pushes the tail stands at `k * e` and `s - k * e`
/// bytes remain, enough for the next entry exactly while `k < s / e`; once
/// the ring is full, advancing the head by one entry makes room for exactly
/// one more. Each push moves the tail as `push`'s contract states, so this
/// induction describes any sequence of successful pushes.
#[verifier::rlimit(100)]
#[verifier::spinoff_prover]
pub proof fn lemma_ring_capacity(s: u32, e: u32, k: nat)
    requires
        e > 0,
        s >= e,
        s as int % e as int == 0,
        s <= 0x10000000,
        k <= s as int / e as int,
    ensures
        tail_after_pushes(e, k) == k * e,
        s.wrapping_sub(tail_after_pushes(e, k)) == s - k * e,
        k < s as int / e as int ==> s.wrapping_sub(tail_after_pushes(e, k)) >= e,
        k == s as int / e as int ==> s.wrapping_sub(tail_after_pushes(e, k)) == 0,
        k == s as int / e as int ==> s.wrapping_add(e).wrapping_sub(tail_after_pushes(e, k)) == e,
    decreases k,
{
    lemma_fundamental_div_mod(s as int, e as int);
    let q = s as int / e as int;
    assert(s == e * q);
    assert(k * e <= s) by (nonlinear_arith)
        requires
            s == e * q,
            k <= q,
            e > 0,
            k >= 0,
    {
    }
    if k == 0 {
        assert(tail_after_pushes(e, 0) == 0u32);
    } else {
        lemma_ring_capacity(s, e, (k - 1) as nat);
        assert((k - 1) * e + e == k * e) by (nonlinear_arith)
            requires
                k >= 1,
        {
        }
        assert((k - 1) * e <= k * e);
        assert(tail_after_pushes(e, (k - 1) as nat) == (k - 1) * e);
        assert(tail_after_pushes(e, k) == tail_after_pushes(e, (k - 1) as nat).wrapping_add(e));
        assert(tail_after_pushes(e, k) == k * e);
    }
    if k == q {
        assert(k * e == e * q) by (nonlinear_arith)
            requires
                k == q,
        {
        }
    }
    if k < q {
        assert(k * e + e <= s) by (nonlinear_arith)
            requires
                s == e * q,
                k < q,
                e > 0,
                k >= 0,
        {
        }
    }
}


} // verus!
