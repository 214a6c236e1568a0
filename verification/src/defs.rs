//! Wire-format definitions for the device family: queue kinds, doorbell
//! register offsets and value encodings, work-queue entry headers,
//! scatter-gather entries, and completion/event queue entries.
//!
//! Entry layout, owner-bit placement and doorbell encoding are fixed by the
//! device and must be reproduced exactly; every encoder here therefore comes
//! with a specification that pins the produced value or byte sequence.

use vstd::arithmetic::power2::pow2;
use vstd::prelude::*;

verus! {

/// Byte alignment of every work-queue entry, and the size of the queue
/// segment that no single ring write may straddle.
pub const WQE_ALIGNMENT: usize = 32;

/// Number of owner-count bits carried in the top of the final byte of a
/// completion or event queue entry.
pub const OWNER_BITS: u32 = 3;

/// Mask selecting the owner-count bits after they are shifted down.
pub const OWNER_MASK: u32 = 0x7;

/// Doorbell register byte offset for send work queues.
pub const DB_SQ: u32 = 0x0;

/// Doorbell register byte offset for receive work queues.
pub const DB_RQ: u32 = 0x400;

/// Doorbell register byte offset for completion queues.
pub const DB_CQ: u32 = 0x800;

/// Doorbell register byte offset for event queues.
pub const DB_EQ: u32 = 0xff8;

/// Inline out-of-band size class for 0- or 8-byte payloads (bytes / 4).
pub const CLIENT_OOB_8: u8 = 2;

/// Inline out-of-band size class for 24-byte payloads (bytes / 4).
pub const CLIENT_OOB_24: u8 = 6;

/// Inline out-of-band size class for 32-byte payloads (bytes / 4).
pub const CLIENT_OOB_32: u8 = 8;

/// The kind of a device queue.
#[derive(Clone, Copy, Debug, PartialEq, Eq, Structural)]
#[allow(non_camel_case_types)]
pub enum GdmaQueueType {
    GDMA_INVALID,
    GDMA_SQ,
    GDMA_RQ,
    GDMA_CQ,
    GDMA_EQ,
}

/// Identity of a device-side client (device type plus instance number).
#[derive(Clone, Copy, Debug, PartialEq, Eq, Structural)]
pub struct GdmaDevId {
    pub ty: u16,
    pub instance: u16,
}

/// A scatter-gather entry: a guest physical address range plus the memory key
/// that grants the device access to it.
#[derive(Clone, Copy, Debug, PartialEq, Eq, Structural)]
pub struct Sge {
    pub address: u64,
    pub mem_key: u32,
    pub size: u32,
}

/// Little-endian byte image of a 32-bit value.
pub open spec fn u32_le_bytes(x: u32) -> Seq<u8> {
    seq![
        (x as int % 0x100) as u8,
        (x as int / 0x100 % 0x100) as u8,
        (x as int / 0x10000 % 0x100) as u8,
        (x as int / 0x1000000 % 0x100) as u8,
    ]
}

/// The 32-bit value read back from four little-endian bytes.
pub open spec fn u32_from_le(b: Seq<u8>) -> u32
    recommends
        b.len() == 4,
{
    (b[0] + b[1] * 0x100 + b[2] * 0x10000 + b[3] * 0x1000000) as u32
}

/// Little-endian byte image of a 64-bit value.
pub open spec fn u64_le_bytes(x: u64) -> Seq<u8> {
    seq![
        (x as int % 0x100) as u8,
        (x as int / 0x100 % 0x100) as u8,
        (x as int / 0x10000 % 0x100) as u8,
        (x as int / 0x1000000 % 0x100) as u8,
        (x as int / 0x100000000 % 0x100) as u8,
        (x as int / 0x10000000000 % 0x100) as u8,
        (x as int / 0x1000000000000 % 0x100) as u8,
        (x as int / 0x100000000000000 % 0x100) as u8,
    ]
}

/// Appends the little-endian bytes of `x` to `out`.
pub fn push_u32_le(out: &mut Vec<u8>, x: u32)
    ensures
        final(out)@ == old(out)@ + u32_le_bytes(x),
{
    out.push((x % 0x100) as u8);
    out.push((x / 0x100 % 0x100) as u8);
    out.push((x / 0x10000 % 0x100) as u8);
    out.push((x / 0x1000000 % 0x100) as u8);
    proof {
        assert(out@ =~= old(out)@ + u32_le_bytes(x));
    }
}

/// Appends the little-endian bytes of `x` to `out`.
pub fn push_u64_le(out: &mut Vec<u8>, x: u64)
    ensures
        final(out)@ == old(out)@ + u64_le_bytes(x),
{
    out.push((x % 0x100) as u8);
    out.push((x / 0x100 % 0x100) as u8);
    out.push((x / 0x10000 % 0x100) as u8);
    out.push((x / 0x1000000 % 0x100) as u8);
    out.push((x / 0x100000000 % 0x100) as u8);
    out.push((x / 0x10000000000 % 0x100) as u8);
    out.push((x / 0x1000000000000 % 0x100) as u8);
    out.push((x / 0x100000000000000 % 0x100) as u8);
    proof {
        assert(out@ =~= old(out)@ + u64_le_bytes(x));
    }
}

/// Reads a 32-bit value from four little-endian bytes of `b` starting at
/// `offset`.
pub fn read_u32_le(b: &Vec<u8>, offset: usize) -> (r: u32)
    requires
        offset + 4 <= b@.len(),
    ensures
        r == u32_from_le(b@.subrange(offset as int, offset as int + 4)),
{
    let _n = b.len();
    let r = b[offset] as u32 + b[offset + 1] as u32 * 0x100 + b[offset + 2] as u32 * 0x10000
        + b[offset + 3] as u32 * 0x1000000;
    proof {
        let s = b@.subrange(offset as int, offset as int + 4);
        assert(s[0] == b@[offset as int]);
        assert(s[1] == b@[offset as int + 1]);
        assert(s[2] == b@[offset as int + 2]);
        assert(s[3] == b@[offset as int + 3]);
    }
    r
}

/// The packed parameter word of a work-queue entry header: the scatter-gather
/// entry count in bits 0..8, the inline out-of-band size class in bits 8..12,
/// the out-of-band-in-scatter-gather flag at bit 12, and the client unit data
/// in bits 16..32.
pub open spec fn wqe_params_value(
    num_sgl_entries: u8,
    inline_client_oob_size: u8,
    client_oob_in_sgl: bool,
    gd_client_unit_data: u16,
) -> u32
    recommends
        inline_client_oob_size < 16,
{
    (num_sgl_entries as int + inline_client_oob_size as int * 0x100 + (if client_oob_in_sgl {
        0x1000int
    } else {
        0int
    }) + gd_client_unit_data as int * 0x10000) as u32
}

/// Packs the parameter word of a work-queue entry header.
pub fn wqe_params(
    num_sgl_entries: u8,
    inline_client_oob_size: u8,
    client_oob_in_sgl: bool,
    gd_client_unit_data: u16,
) -> (r: u32)
    requires
        inline_client_oob_size < 16,
    ensures
        r == wqe_params_value(
            num_sgl_entries,
            inline_client_oob_size,
            client_oob_in_sgl,
            gd_client_unit_data,
        ),
{
    num_sgl_entries as u32 + inline_client_oob_size as u32 * 0x100 + (if client_oob_in_sgl {
        0x1000u32
    } else {
        0u32
    }) + gd_client_unit_data as u32 * 0x10000
}

/// The eight header bytes of a work-queue entry: three reserved zero bytes,
/// the count of trailing valid bytes, then the little-endian parameter word.
pub open spec fn wqe_header_bytes(last_vbytes: u8, params: u32) -> Seq<u8> {
    seq![0u8, 0u8, 0u8, last_vbytes] + u32_le_bytes(params)
}

/// Builds the eight header bytes of a work-queue entry.
pub fn wqe_header(last_vbytes: u8, params: u32) -> (r: Vec<u8>)
    ensures
        r@ == wqe_header_bytes(last_vbytes, params),
        r@.len() == 8,
{
    let mut r: Vec<u8> = Vec::new();
    r.push(0u8);
    r.push(0u8);
    r.push(0u8);
    r.push(last_vbytes);
    push_u32_le(&mut r, params);
    proof {
        assert(r@ =~= wqe_header_bytes(last_vbytes, params));
    }
    r
}

/// The sixteen-byte image of a scatter-gather entry: address, memory key and
/// size, each little-endian.
pub open spec fn sge_bytes(sge: Sge) -> Seq<u8> {
    u64_le_bytes(sge.address) + u32_le_bytes(sge.mem_key) + u32_le_bytes(sge.size)
}

/// Builds the sixteen-byte image of a scatter-gather entry.
pub fn sge_to_bytes(sge: &Sge) -> (r: Vec<u8>)
    ensures
        r@ == sge_bytes(*sge),
        r@.len() == 16,
{
    let mut r: Vec<u8> = Vec::new();
    push_u64_le(&mut r, sge.address);
    push_u32_le(&mut r, sge.mem_key);
    push_u32_le(&mut r, sge.size);
    proof {
        assert(r@ =~= sge_bytes(*sge));
    }
    r
}

/// The doorbell value that advances a completion or event queue: the queue id
/// in bits 0..24, the tail entry counter in bits 32..63, and the
/// interrupt-arm flag at bit 63.
pub open spec fn cq_eq_doorbell_value(arm: bool, id: u32, tail: u32) -> u64
    recommends
        id < 0x1000000,
        tail < 0x80000000,
{
    (id as int + tail as int * 0x100000000 + (if arm {
        0x8000000000000000int
    } else {
        0int
    })) as u64
}

/// Encodes the doorbell value for a completion or event queue.
pub fn encode_cq_eq_doorbell(arm: bool, id: u32, tail: u32) -> (r: u64)
    requires
        id < 0x1000000,
        tail < 0x80000000,
    ensures
        r == cq_eq_doorbell_value(arm, id, tail),
{
    id as u64 + tail as u64 * 0x100000000 + (if arm {
        0x8000000000000000u64
    } else {
        0u64
    })
}

/// The doorbell value that commits work-queue entries: the queue id in bits
/// 0..24, the count of newly posted receive entries in bits 24..32, and the
/// unmasked tail in bits 32..64.
pub open spec fn wq_doorbell_value(id: u32, num_rwqe: u8, tail: u32) -> u64
    recommends
        id < 0x1000000,
{
    (id as int + num_rwqe as int * 0x1000000 + tail as int * 0x100000000) as u64
}

/// Encodes the doorbell value for a work queue.
pub fn encode_wq_doorbell(id: u32, num_rwqe: u8, tail: u32) -> (r: u64)
    requires
        id < 0x1000000,
    ensures
        r == wq_doorbell_value(id, num_rwqe, tail),
{
    id as u64 + num_rwqe as u64 * 0x1000000 + tail as u64 * 0x100000000
}

/// Copies the byte range `[start, end)` of `v`.
pub fn vec_range(v: &Vec<u8>, start: usize, end: usize) -> (r: Vec<u8>)
    requires
        start <= end <= v@.len(),
    ensures
        r@ == v@.subrange(start as int, end as int),
{
    let mut r: Vec<u8> = Vec::new();
    let mut i: usize = start;
    while i < end
        invariant
            start <= i <= end <= v@.len(),
            r@ == v@.subrange(start as int, i as int),
        decreases end - i,
    {
        let n = v.len();
        r.push(v[i]);
        i = i + 1;
        proof {
            assert(r@ =~= v@.subrange(start as int, i as int));
        }
    }
    r
}

/// An entry type that a consumer ring can decode: a fixed power-of-two size
/// and a decoding relation from the raw ring bytes.
pub trait QueueEntry: Sized {
    /// Base-two logarithm of the entry size in bytes.
    spec fn spec_shift() -> nat;

    /// Relates a decoded entry to the ring bytes it was decoded from.
    spec fn decoded_from(self, bytes: Seq<u8>) -> bool;

    /// The entry size is a power of two between 4 and 4096 bytes.
    proof fn shift_bounds()
        ensures
            2 <= Self::spec_shift() <= 12,
    ;

    /// The entry size in bytes.
    fn size_of_entry() -> (r: usize)
        ensures
            r as nat == pow2(Self::spec_shift()),
    ;

    /// Decodes one entry from its ring bytes.
    fn decode(bytes: Vec<u8>) -> (r: Self)
        requires
            bytes@.len() == pow2(Self::spec_shift()),
        ensures
            r.decoded_from(bytes@),
    ;
}

/// The packed parameter word of a completion queue entry: the work-queue
/// number in bits 0..24, the send-queue flag at bit 24, and the owner count
/// in bits 29..32.
#[derive(Clone, Copy, Debug, PartialEq, Eq, Structural)]
pub struct CqeParams(pub u32);

impl CqeParams {
    /// The number of the work queue this completion belongs to.
    pub open spec fn spec_wq_number(self) -> u32 {
        (self.0 as int % 0x1000000) as u32
    }

    /// Whether the completion is for a send work queue.
    pub open spec fn spec_is_send_wq(self) -> bool {
        self.0 as int / 0x1000000 % 2 == 1
    }

    /// The owner count stamped into the entry by the device.
    pub open spec fn spec_owner_count(self) -> u32 {
        (self.0 as int / 0x20000000) as u32
    }

    /// The number of the work queue this completion belongs to.
    pub fn wq_number(self) -> (r: u32)
        ensures
            r == self.spec_wq_number(),
    {
        self.0 % 0x1000000
    }

    /// Whether the completion is for a send work queue.
    pub fn is_send_wq(self) -> (r: bool)
        ensures
            r == self.spec_is_send_wq(),
    {
        self.0 / 0x1000000 % 2 == 1
    }

    /// The owner count stamped into the entry by the device.
    pub fn owner_count(self) -> (r: u32)
        ensures
            r == self.spec_owner_count(),
    {
        self.0 / 0x20000000
    }
}

/// A completion queue entry: 60 bytes of completion data followed by the
/// little-endian parameter word whose top bits carry the owner count.
#[derive(Clone, Debug)]
pub struct Cqe {
    /// The completion data, opaque to the ring.
    pub data: Vec<u8>,
    /// The packed parameter word.
    pub params: CqeParams,
}

impl QueueEntry for Cqe {
    closed spec fn spec_shift() -> nat {
        6
    }

    closed spec fn decoded_from(self, bytes: Seq<u8>) -> bool {
        &&& bytes.len() == 64
        &&& self.data@ == bytes.subrange(0, 60)
        &&& self.params.0 == u32_from_le(bytes.subrange(60, 64))
    }

    proof fn shift_bounds() {
    }

    fn size_of_entry() -> (r: usize)
    {
        proof {
            vstd::arithmetic::power2::lemma2_to64();
        }
        64
    }

    fn decode(bytes: Vec<u8>) -> (r: Self) {
        proof {
            vstd::arithmetic::power2::lemma2_to64();
        }
        let data = vec_range(&bytes, 0, 60);
        let params = CqeParams(read_u32_le(&bytes, 60));
        Cqe { data, params }
    }
}

/// The packed parameter word of an event queue entry: the event type in bits
/// 0..8 and the owner count in bits 29..32.
#[derive(Clone, Copy, Debug, PartialEq, Eq, Structural)]
pub struct EqeParams(pub u32);

impl EqeParams {
    /// The type of the event.
    pub open spec fn spec_event_type(self) -> u32 {
        (self.0 as int % 0x100) as u32
    }

    /// The owner count stamped into the entry by the device.
    pub open spec fn spec_owner_count(self) -> u32 {
        (self.0 as int / 0x20000000) as u32
    }

    /// The type of the event.
    pub fn event_type(self) -> (r: u32)
        ensures
            r == self.spec_event_type(),
    {
        self.0 % 0x100
    }

    /// The owner count stamped into the entry by the device.
    pub fn owner_count(self) -> (r: u32)
        ensures
            r == self.spec_owner_count(),
    {
        self.0 / 0x20000000
    }
}

/// An event queue entry: 12 bytes of event data followed by the
/// little-endian parameter word whose top bits carry the owner count.
#[derive(Clone, Debug)]
pub struct Eqe {
    /// The event data, opaque to the ring.
    pub data: Vec<u8>,
    /// The packed parameter word.
    pub params: EqeParams,
}

impl QueueEntry for Eqe {
    closed spec fn spec_shift() -> nat {
        4
    }

    closed spec fn decoded_from(self, bytes: Seq<u8>) -> bool {
        &&& bytes.len() == 16
        &&& self.data@ == bytes.subrange(0, 12)
        &&& self.params.0 == u32_from_le(bytes.subrange(12, 16))
    }

    proof fn shift_bounds() {
    }

    fn size_of_entry() -> (r: usize)
    {
        proof {
            vstd::arithmetic::power2::lemma2_to64();
        }
        16
    }

    fn decode(bytes: Vec<u8>) -> (r: Self) {
        proof {
            vstd::arithmetic::power2::lemma2_to64();
        }
        let data = vec_range(&bytes, 0, 12);
        let params = EqeParams(read_u32_le(&bytes, 12));
        Eqe { data, params }
    }
}

} // verus!
