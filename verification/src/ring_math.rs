//! Modular arithmetic shared by both ring kinds: how a wrapping 32-bit
//! cursor addresses a byte slot of a power-of-two-sized ring, how the owner
//! count of a lap is derived from the cursor, and the bridging proofs between
//! the masked bit operations the code performs and the division view the
//! contracts are stated in.

use vstd::arithmetic::div_mod::{
    lemma_add_mod_noop, lemma_fundamental_div_mod, lemma_mod_mod, lemma_mod_multiples_basic,
    lemma_mod_multiples_vanish, lemma_small_mod,
};
use vstd::arithmetic::power2::{
    lemma2_to64, lemma_pow2_adds, lemma_pow2_pos, lemma_pow2_strictly_increases, pow2,
};
use vstd::bits::{lemma_u32_low_bits_mask_is_mod, low_bits_mask};
use vstd::prelude::*;

verus! {

/// The ring byte index addressed by cursor `cursor` plus byte offset `rel`,
/// in a ring of `size` bytes. The cursor wraps at 2^32 and the ring size is
/// a power of two dividing 2^32, so the wrap never shows in the slot.
pub open spec fn ring_slot(cursor: u32, rel: int, size: int) -> int
    recommends
        size > 0,
{
    (cursor + rel) % size
}

/// The owner count of the lap the cursor is on: the count the device must
/// have stamped into an entry for it to be ready at this cursor.
pub open spec fn owner_expected(cursor: u32, size: int) -> int
    recommends
        size > 0,
{
    (cursor as int / size) % 8
}

/// The owner count one lap behind the cursor: the count observed when the
/// device has not yet written the entry this lap.
pub open spec fn owner_stale(cursor: u32, size: int) -> int
    recommends
        size > 0,
{
    (cursor as int / size + 7) % 8
}

/// 2^32 is a multiple of every smaller power of two.
pub proof fn lemma_pow2_divides_u32_range(k: nat)
    requires
        k <= 32,
    ensures
        0x100000000int % (pow2(k) as int) == 0,
{
    lemma_pow2_adds(k, (32 - k) as nat);
    lemma_pow2_pos(k);
    lemma2_to64();
    lemma_mod_multiples_basic(pow2((32 - k) as nat) as int, pow2(k) as int);
}

/// Wrapping 32-bit addition does not change a value modulo a power of two
/// that divides 2^32.
pub proof fn lemma_wrapping_add_mod(cursor: u32, delta: u32, m: int)
    requires
        m > 0,
        0x100000000int % m == 0,
    ensures
        cursor.wrapping_add(delta) as int % m == (cursor + delta) % m,
{
    if cursor + delta > u32::MAX {
        let w = cursor.wrapping_add(delta) as int;
        let q = 0x100000000int / m;
        lemma_fundamental_div_mod(0x100000000int, m);
        assert(m * q == 0x100000000int);
        lemma_mod_multiples_vanish(q, w, m);
        assert(m * q + w == cursor + delta);
    }
}

/// Masking a wrapped cursor with `2^shift - 1` yields the ring slot of the
/// unwrapped sum.
pub proof fn lemma_masked_wrap_is_slot(cursor: u32, rel: u32, shift: nat)
    requires
        shift <= 31,
    ensures
        pow2(shift) <= 0x80000000,
        (cursor.wrapping_add(rel) & (pow2(shift) - 1) as u32) as int == ring_slot(
            cursor,
            rel as int,
            pow2(shift) as int,
        ),
        0 <= ring_slot(cursor, rel as int, pow2(shift) as int) < pow2(shift),
{
    lemma2_to64();
    if shift < 31 {
        lemma_pow2_strictly_increases(shift, 31);
    }
    lemma_pow2_pos(shift);
    let size = pow2(shift) as int;
    let w = cursor.wrapping_add(rel);
    lemma_u32_low_bits_mask_is_mod(w, shift);
    assert(low_bits_mask(shift) == (pow2(shift) - 1) as nat);
    assert((w & (pow2(shift) - 1) as u32) == w % (pow2(shift) as u32));
    lemma_pow2_divides_u32_range(shift);
    lemma_wrapping_add_mod(cursor, rel, size);
}

/// Slots within one 32-byte ring segment are consecutive: stepping the
/// offset by `i` steps the slot by `i`, without wrapping, as long as the
/// write does not cross a segment boundary and the cursor is segment
/// aligned.
pub proof fn lemma_slot_step(cursor: u32, off: int, i: int, size: int)
    requires
        size > 0,
        size % 32 == 0,
        cursor as int % 32 == 0,
        0 <= off,
        0 <= i,
        off % 32 + i < 32,
    ensures
        ring_slot(cursor, off + i, size) == ring_slot(cursor, off, size) + i,
        ring_slot(cursor, off, size) + i < size,
        ring_slot(cursor, off, size) % 32 == off % 32,
{
    let c = cursor as int;
    let w = (c + off) % size;
    // The slot keeps the offset's position within its 32-byte segment.
    lemma_mod_mod(c + off, 32, size / 32);
    assert(32 * (size / 32) == size) by {
        lemma_fundamental_div_mod(size, 32);
    }
    assert(w % 32 == (c + off) % 32);
    lemma_add_mod_noop(c, off, 32);
    lemma_small_mod((off % 32) as nat, 32);
    assert((c + off) % 32 == off % 32);
    // Therefore the slot sits at least `i + 1` bytes before the ring end.
    assert(w + i < size) by {
        assert(0 <= w < size);
        let seg = w / 32;
        lemma_fundamental_div_mod(w, 32);
        assert(w == 32 * seg + w % 32);
        assert(32 * seg + 32 <= size) by (nonlinear_arith)
            requires
                32 * seg + w % 32 < size,
                size % 32 == 0,
                0 <= w % 32 < 32,
                seg == w / 32,
                w >= 0,
                size > 0,
        {
        }
    }
    // And adding `i` does not wrap the slot.
    lemma_add_mod_noop(c + off, i, size);
    lemma_small_mod(i as nat, size as nat);
    lemma_small_mod((w + i) as nat, size as nat);
}

/// Distinct in-range offsets address distinct ring slots.
pub proof fn lemma_slot_injective(cursor: u32, a: int, b: int, size: int)
    requires
        size > 0,
        0 <= a < size,
        0 <= b < size,
        ring_slot(cursor, a, size) == ring_slot(cursor, b, size),
    ensures
        a == b,
{
    let c = cursor as int;
    lemma_fundamental_div_mod(c + a, size);
    lemma_fundamental_div_mod(c + b, size);
    let qa = (c + a) / size;
    let qb = (c + b) / size;
    assert(a - b == size * (qa - qb)) by (nonlinear_arith)
        requires
            c + a == size * qa + (c + a) % size,
            c + b == size * qb + (c + b) % size,
            (c + a) % size == (c + b) % size,
    {
    }
    assert(a == b) by (nonlinear_arith)
        requires
            a - b == size * (qa - qb),
            0 <= a < size,
            0 <= b < size,
    {
    }
}

/// A remainder taken by a larger modulus keeps the remainder by any divisor
/// of that modulus.
pub proof fn lemma_mod_mod_divides(x: int, d: int, m: int)
    requires
        d > 0,
        m > 0,
        m % d == 0,
    ensures
        x % m % d == x % d,
{
    lemma_fundamental_div_mod(m, d);
    assert(m == d * (m / d));
    lemma_mod_mod(x, d, m / d);
}

/// An entry-aligned slot leaves room for a whole entry before the ring end.
pub proof fn lemma_aligned_slot_fits(start: int, es: int, size: int)
    requires
        es > 0,
        size > 0,
        size % es == 0,
        start % es == 0,
        0 <= start < size,
    ensures
        start + es <= size,
{
    lemma_fundamental_div_mod(start, es);
    let q = start / es;
    assert(start == es * q);
    assert(es * q + es <= size) by (nonlinear_arith)
        requires
            es * q < size,
            size % es == 0,
            es > 0,
            q >= 0,
    {
    }
    assert(q >= 0) by (nonlinear_arith)
        requires
            start == es * q,
            start >= 0,
            es > 0,
    {
    }
}

/// Computes the base-two logarithm of a power of two.
pub fn log2_u32(size: u32) -> (r: u32)
    requires
        exists|k: nat| k <= 31 && size == pow2(k),
    ensures
        r <= 31,
        size == pow2(r as nat),
{
    let ghost k0 = choose|k: nat| k <= 31 && size == pow2(k);
    let mut s: u32 = size;
    let mut r: u32 = 0;
    proof {
        lemma2_to64();
    }
    while s > 1
        invariant
            exists|k: nat| k <= 31 && s == pow2(k),
            size == s * pow2(r as nat),
            r <= 31,
            pow2(r as nat) <= 0x80000000,
            size <= 0x80000000,
        decreases s,
    {
        proof {
            let k = choose|k: nat| k <= 31 && s == pow2(k);
            assert(k > 0) by {
                if k == 0 {
                    assert(pow2(0) == 1) by {
                        lemma2_to64();
                    }
                }
            }
            vstd::arithmetic::power2::lemma_pow2_unfold(k);
            assert(s / 2 == pow2((k - 1) as nat));
            lemma_pow2_adds((k - 1) as nat, 1);
            lemma2_to64();
            assert(pow2((r + 1) as nat) == pow2(r as nat) * 2) by {
                lemma_pow2_adds(r as nat, 1);
            }
            assert(size == (s / 2) * pow2((r + 1) as nat)) by (nonlinear_arith)
                requires
                    size == s * pow2(r as nat),
                    s == 2 * (s / 2),
                    pow2((r + 1) as nat) == pow2(r as nat) * 2,
            {
            }
            assert(r + 1 <= 31) by {
                if r + 1 > 31 {
                    assert(r == 31);
                    assert(pow2(31nat) == 0x80000000) by {
                        lemma2_to64();
                    }
                    assert(s >= 2);
                    assert(size >= 2 * 0x80000000) by (nonlinear_arith)
                        requires
                            size == s * pow2(r as nat),
                            s >= 2,
                            pow2(r as nat) == 0x80000000,
                    {
                    }
                }
            }
            assert(pow2((r + 1) as nat) <= 0x80000000) by {
                if r + 1 < 31 {
                    lemma_pow2_strictly_increases((r + 1) as nat, 31);
                }
                lemma2_to64();
            }
        }
        s = s / 2;
        r = r + 1;
    }
    proof {
        let k = choose|k: nat| k <= 31 && s == pow2(k);
        lemma_pow2_pos(k);
        assert(s == 1);
        assert(size == pow2(r as nat)) by (nonlinear_arith)
            requires
                size == s * pow2(r as nat),
                s == 1,
        {
        }
    }
    r
}

} // verus!
