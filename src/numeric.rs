//! Conversions between `i32` and single-precision floats held as IEEE-754
//! bit patterns, stated and computed in integer arithmetic.

use vstd::prelude::*;
use vstd::arithmetic::power2::{pow2, lemma2_to64, lemma_pow2_adds, lemma_pow2_pos, lemma_pow2_strictly_increases, lemma_pow2_unfold};

verus! {

/// Sign, biased exponent and fraction fields of a float's bit pattern.
pub open spec fn sign_bit(b: u32) -> bool {
    b >= 0x8000_0000
}

pub open spec fn exponent_field(b: u32) -> int {
    (b / 0x80_0000) as int % 0x100
}

pub open spec fn fraction_field(b: u32) -> int {
    b as int % 0x80_0000
}

/// The float with bits `b` truncated toward zero to an `i32`, as Rust's
/// `as` does it: NaN gives 0, values beyond the range saturate. A finite
/// float with exponent field `e` and significand `s` (the fraction with its
/// hidden bit) is `s * 2^(e - 150)`.
pub open spec fn int_of_float(b: u32) -> i32 {
    let e = exponent_field(b);
    let s = fraction_field(b) + 0x80_0000;
    if e == 0xff && fraction_field(b) != 0 {
        0
    } else if e < 127 {
        0
    } else if e >= 158 {
        if sign_bit(b) { i32::MIN } else { i32::MAX }
    } else {
        let mag: int = if e >= 150 { s * pow2((e - 150) as nat) } else { s / (pow2((150 - e) as nat) as int) };
        (if sign_bit(b) { -mag } else { mag }) as i32
    }
}

/// The position of the highest set bit of `a`.
pub open spec fn log2(a: nat) -> nat
    decreases a,
{
    if a < 2 { 0 } else { 1 + log2(a / 2) }
}

/// The bit pattern of the float nearest to `i`, ties going to the even
/// significand. With `2^k <= |i| < 2^(k+1)`, the representable neighbours
/// are the multiples of `2^(k-23)` (every integer when `k <= 23`).
pub open spec fn float_of_int(i: i32) -> u32 {
    if i == 0 {
        0
    } else {
        let sign: int = if i < 0 { 0x8000_0000 } else { 0 };
        let a: nat = (if i < 0 { -(i as int) } else { i as int }) as nat;
        let k = log2(a);
        if k <= 23 {
            (sign + (k + 127) * 0x80_0000 + (a * pow2((23 - k) as nat) - 0x80_0000)) as u32
        } else {
            let unit = pow2((k - 23) as nat);
            let q = a as int / (unit as int);
            let r = a as int % (unit as int);
            let up = 2 * r > unit || (2 * r == unit && q % 2 == 1);
            let q2 = if up { q + 1 } else { q };
            if q2 == 0x100_0000 {
                (sign + (k + 128) * 0x80_0000) as u32
            } else {
                (sign + (k + 127) * 0x80_0000 + (q2 - 0x80_0000)) as u32
            }
        }
    }
}

/// `2^e` for small `e`.
fn pow2_u64(e: u32) -> (r: u64)
    requires
        e <= 31,
    ensures
        r == pow2(e as nat),
        r >= 1,
{
    let mut r: u64 = 1;
    let mut i: u32 = 0;
    proof {
        lemma2_to64();
    }
    while i < e
        invariant
            i <= e,
            e <= 31,
            r == pow2(i as nat),
            r <= pow2(31),
            pow2(31) == 0x8000_0000,
        decreases e - i,
    {
        proof {
            lemma_pow2_unfold((i + 1) as nat);
            if i + 1 < 31 {
                lemma_pow2_strictly_increases((i + 1) as nat, 31);
            }
        }
        r = r * 2;
        i = i + 1;
    }
    proof {
        lemma_pow2_pos(e as nat);
    }
    r
}

/// Truncate the float with bits `b` toward zero, saturating.
pub fn int_from_float_bits(b: u32) -> (r: i32)
    ensures
        r == int_of_float(b),
{
    let e = (b / 0x80_0000) % 0x100;
    let frac = b % 0x80_0000;
    if e == 0xff && frac != 0 {
        return 0;
    }
    if e < 127 {
        return 0;
    }
    if e >= 158 {
        return if b >= 0x8000_0000 { i32::MIN } else { i32::MAX };
    }
    let s: u64 = (frac + 0x80_0000) as u64;
    let mag: u64 = if e >= 150 {
        let p = pow2_u64(e - 150);
        proof {
            lemma2_to64();
            if e - 150 < 7 {
                lemma_pow2_strictly_increases((e - 150) as nat, 7);
            }
            assert(s * p <= 0xff_ffff * 128) by (nonlinear_arith)
                requires
                    s <= 0xff_ffff,
                    p <= 128,
            ;
        }
        s * p
    } else {
        let p = pow2_u64(150 - e);
        proof {
            assert(s / p <= s) by (nonlinear_arith)
                requires
                    p >= 1,
            ;
        }
        s / p
    };
    if b >= 0x8000_0000 {
        -(mag as i32)
    } else {
        mag as i32
    }
}

proof fn lemma_log2_bounds(a: nat)
    requires
        a >= 1,
    ensures
        pow2(log2(a)) <= a < pow2(log2(a) + 1),
    decreases a,
{
    lemma_pow2_unfold(log2(a) + 1);
    if a < 2 {
        lemma2_to64();
    } else {
        lemma_log2_bounds(a / 2);
        lemma_pow2_unfold(log2(a));
        lemma_pow2_unfold(log2(a / 2) + 1);
    }
}

proof fn lemma_log2_unique(a: nat, k: nat)
    requires
        pow2(k) <= a < pow2(k + 1),
    ensures
        log2(a) == k,
{
    lemma_pow2_pos(k);
    lemma_log2_bounds(a);
    if log2(a) > k {
        if log2(a) > k + 1 {
            lemma_pow2_strictly_increases(k + 1, log2(a));
        }
    } else if log2(a) < k {
        if log2(a) + 1 < k {
            lemma_pow2_strictly_increases(log2(a) + 1, k);
        }
    }
}

/// The float nearest to `i`, as bits (ties to even).
pub fn float_bits_from_int(i: i32) -> (r: u32)
    ensures
        r == float_of_int(i),
{
    if i == 0 {
        return 0;
    }
    let sign: u64 = if i < 0 { 0x8000_0000 } else { 0 };
    let a: u64 = if i < 0 { (-(i as i64)) as u64 } else { i as u64 };
    let mut k: u32 = 0;
    let mut p: u64 = 1;
    proof {
        lemma2_to64();
    }
    while p * 2 <= a
        invariant
            1 <= a <= 0x8000_0000,
            k <= 31,
            p == pow2(k as nat),
            1 <= p <= a,
            pow2(31) == 0x8000_0000,
        decreases a - p,
    {
        proof {
            lemma_pow2_unfold((k + 1) as nat);
            if k + 1 > 31 {
                lemma_pow2_strictly_increases(31, (k + 1) as nat);
            }
        }
        p = p * 2;
        k = k + 1;
    }
    proof {
        lemma_pow2_unfold((k + 1) as nat);
        lemma_log2_unique(a as nat, k as nat);
    }
    if k <= 23 {
        let unit = pow2_u64(23 - k);
        proof {
            lemma_pow2_adds((k + 1) as nat, (23 - k) as nat);
            lemma_pow2_adds(k as nat, (23 - k) as nat);
            assert(a * unit < pow2((k + 1) as nat) * unit) by (nonlinear_arith)
                requires
                    a < pow2((k + 1) as nat),
                    unit >= 1,
            ;
            assert(a * unit >= p * unit) by (nonlinear_arith)
                requires
                    a >= p,
                    unit >= 1,
            ;
            lemma2_to64();
        }
        let mant = a * unit;
        let bits = sign + (k as u64 + 127) * 0x80_0000 + (mant - 0x80_0000);
        bits as u32
    } else {
        let unit = pow2_u64(k - 23);
        proof {
            lemma_pow2_adds(23, (k - 23) as nat);
            lemma_pow2_adds(24, (k - 23) as nat);
            lemma_pow2_unfold((k + 1) as nat);
            lemma2_to64();
            assert(a / unit >= 0x80_0000 && a / unit < 0x100_0000) by (nonlinear_arith)
                requires
                    0x80_0000 * unit <= a,
                    a < 0x100_0000 * unit,
                    unit >= 1,
            ;
        }
        let q = a / unit;
        let rem = a % unit;
        let up = 2 * rem > unit || (2 * rem == unit && q % 2 == 1);
        let q2 = if up { q + 1 } else { q };
        if q2 == 0x100_0000 {
            let bits = sign + (k as u64 + 128) * 0x80_0000;
            bits as u32
        } else {
            let bits = sign + (k as u64 + 127) * 0x80_0000 + (q2 - 0x80_0000);
            bits as u32
        }
    }
}

} // verus!
