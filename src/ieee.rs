//! Conversions between numbers and IEEE 754 binary32 / binary64 bit patterns,
//! rounding to nearest with ties to even as Rust's `as` conversions do.
use vstd::prelude::*;
use vstd::arithmetic::power2::{
    pow2, lemma2_to64, lemma2_to64_rest, lemma_pow2_pos, lemma_pow2_strictly_increases,
    lemma_pow2_unfold,
};
use vstd::arithmetic::div_mod::{lemma_basic_div, lemma_div_nonincreasing, lemma_mod_pos_bound, lemma_small_mod};

verus! {

/// Number of binary digits of `m` (0 for 0).
pub open spec fn bit_len(m: nat) -> nat
    decreases m,
{
    if m == 0 {
        0
    } else {
        1 + bit_len(m / 2)
    }
}

/// `m / 2^k`, rounded to nearest with ties to even.
pub open spec fn round_div(m: nat, k: nat) -> nat {
    let d = pow2(k);
    let q = m / d;
    let rem = m % d;
    if 2 * rem > d || (2 * rem == d && q % 2 == 1) {
        q + 1
    } else {
        q
    }
}

/// The bits of the float with `p` significand bits (the hidden one included)
/// and exponent bias `bias` nearest to the integer `x`; `sign` is the weight
/// of the sign bit. A significand rounded up to `2^p` carries into the
/// exponent field, which sits above the `p - 1` fraction bits.
pub open spec fn int_bits(x: int, p: nat, bias: nat, sign: nat) -> int {
    if x == 0 {
        0
    } else {
        let m = (if x < 0 { -x } else { x }) as nat;
        let e = (bit_len(m) - 1) as nat;
        let sig = if e + 1 <= p {
            m * pow2((p - 1 - e) as nat)
        } else {
            round_div(m, (e + 1 - p) as nat)
        };
        let mag = (e + bias - 1) * pow2((p - 1) as nat) + sig;
        if x < 0 {
            sign + mag
        } else {
            mag
        }
    }
}

/// Bits of the binary32 value nearest to the integer `x`.
pub open spec fn f32_of_int(x: int) -> u32 {
    int_bits(x, 24, 127, pow2(31)) as u32
}

/// Bits of the binary64 value nearest to the integer `x`.
pub open spec fn f64_of_int(x: int) -> u64 {
    int_bits(x, 53, 1023, pow2(63)) as u64
}

/// Bits of the binary64 value equal to the binary32 value with bits `b`;
/// a NaN keeps its payload and comes out quiet.
pub open spec fn f64_of_f32(b: u32) -> u64 {
    let ex = (b as nat / pow2(23)) % 256;
    let fr = b as nat % pow2(23);
    let sbit = (b as nat / pow2(31)) * pow2(63);
    let mag = if ex == 255 {
        if fr == 0 {
            2047 * pow2(52)
        } else {
            2047 * pow2(52) + (if fr >= pow2(22) { fr } else { fr + pow2(22) }) * pow2(29)
        }
    } else if ex == 0 {
        if fr == 0 {
            0
        } else {
            let e = (bit_len(fr) - 1) as nat;
            (e + 873) * pow2(52) + fr * pow2((52 - e) as nat)
        }
    } else {
        (ex + 896) * pow2(52) + fr * pow2(29)
    };
    (sbit + mag) as u64
}

/// Bits of the binary32 value nearest to the binary64 value with bits `b`;
/// a NaN keeps the top of its payload and comes out quiet.
pub open spec fn f32_of_f64(b: u64) -> u32 {
    let ex = (b as nat / pow2(52)) % 2048;
    let fr = b as nat % pow2(52);
    let sbit = (b as nat / pow2(63)) * pow2(31);
    let mag: int = if ex == 2047 {
        if fr == 0 {
            (255 * pow2(23)) as int
        } else {
            let t = fr / pow2(29);
            (255 * pow2(23) + (if t >= pow2(22) { t } else { t + pow2(22) })) as int
        }
    } else if ex == 0 {
        0
    } else if ex >= 1151 {
        (255 * pow2(23)) as int
    } else if ex >= 897 {
        (ex - 897) * pow2(23) + round_div(fr + pow2(52), 29)
    } else {
        round_div(fr + pow2(52), (926 - ex) as nat) as int
    };
    (sbit + mag) as u32
}

/// The binary32 value with bits `b` is a NaN.
pub open spec fn nan32(b: u32) -> bool {
    (b / 0x80_0000) % 256 == 255 && b % 0x80_0000 != 0
}

/// The binary64 value with bits `b` is a NaN.
pub open spec fn nan64(b: u64) -> bool {
    (b / 0x10_0000_0000_0000) % 2048 == 2047 && b % 0x10_0000_0000_0000 != 0
}

/// `r` is a correct binary64 widening of the binary32 value with bits `b`:
/// the equal value, or, for a NaN, a quiet NaN of the same sign.
pub open spec fn widens_to(b: u32, r: u64) -> bool {
    if nan32(b) {
        &&& nan64(r)
        &&& (r / 0x8_0000_0000_0000) % 2 == 1
        &&& r / 0x8000_0000_0000_0000 == b / 0x8000_0000
    } else {
        r == f64_of_f32(b)
    }
}

/// `r` is a correct binary32 narrowing of the binary64 value with bits `b`:
/// the nearest value, or, for a NaN, a quiet NaN of the same sign.
pub open spec fn narrows_to(b: u64, r: u32) -> bool {
    if nan64(b) {
        &&& nan32(r)
        &&& (r / 0x40_0000) % 2 == 1
        &&& r / 0x8000_0000 == b / 0x8000_0000_0000_0000
    } else {
        r == f32_of_f64(b)
    }
}

proof fn lemma_bit_len_bound(m: nat, k: nat)
    requires
        m < pow2(k),
    ensures
        bit_len(m) <= k,
    decreases k,
{
    if m > 0 {
        if k == 0 {
            assert(pow2(0) == 1) by {
                lemma2_to64();
            }
        } else {
            lemma_pow2_unfold(k);
            lemma_bit_len_bound(m / 2, (k - 1) as nat);
        }
    }
}

fn pow_two(k: u32) -> (r: u128)
    requires
        k <= 64,
    ensures
        r == pow2(k as nat),
{
    proof {
        lemma2_to64();
    }
    let mut r: u128 = 1;
    let mut i: u32 = 0;
    while i < k
        invariant
            i <= k <= 64,
            r == pow2(i as nat),
            pow2(64) == 0x1_0000_0000_0000_0000,
        decreases k - i,
    {
        proof {
            lemma_pow2_unfold((i + 1) as nat);
            if i < 64 {
                lemma_pow2_strictly_increases(i as nat, 64);
            }
        }
        r = r * 2;
        i += 1;
    }
    r
}

fn bit_length(m: u128) -> (r: u32)
    requires
        m < 0x1_0000_0000_0000_0000,
    ensures
        r == bit_len(m as nat),
        r <= 64,
{
    proof {
        lemma2_to64();
        lemma_bit_len_bound(m as nat, 64);
    }
    let mut t: u128 = m;
    let mut e: u32 = 0;
    while t > 0
        invariant
            bit_len(m as nat) == e + bit_len(t as nat),
            bit_len(m as nat) <= 64,
        decreases t,
    {
        t = t / 2;
        e += 1;
    }
    e
}

fn round_shift(m: u128, k: u32) -> (r: u128)
    requires
        m < 0x1_0000_0000_0000_0000,
        k <= 64,
    ensures
        r == round_div(m as nat, k as nat),
        r <= m + 1,
{
    let d = pow_two(k);
    proof {
        lemma_pow2_pos(k as nat);
        lemma_mod_pos_bound(m as int, d as int);
        lemma_div_nonincreasing(m as int, d as int);
        lemma2_to64();
        if k < 64 {
            lemma_pow2_strictly_increases(k as nat, 64);
        }
    }
    let q = m / d;
    let rem = m % d;
    if 2 * rem > d || (2 * rem == d && q % 2 == 1) {
        q + 1
    } else {
        q
    }
}

fn int_to_bits(x: i64, p: u32, bias: u32, sign: u128) -> (r: u128)
    requires
        p == 24 || p == 53,
        127 <= bias <= 1023,
        sign <= 0x8000_0000_0000_0000,
    ensures
        r == int_bits(x as int, p as nat, bias as nat, sign as nat),
{
    if x == 0 {
        return 0;
    }
    let m: u128 = if x < 0 {
        (0i128 - x as i128) as u128
    } else {
        x as u128
    };
    let bl = bit_length(m);
    assert(bl >= 1);
    let e = bl - 1;
    proof {
        lemma2_to64();
        lemma2_to64_rest();
        lemma_pow2_strictly_increases((p - 1) as nat, 64);
        if e + 1 <= p && ((p - 1 - e) as nat) < 52 {
            lemma_pow2_strictly_increases((p - 1 - e) as nat, 52);
        }
        if p - 1 < 52 {
            lemma_pow2_strictly_increases((p - 1) as nat, 52);
        }
    }
    let sig: u128 = if e + 1 <= p {
        let pw = pow_two(p - 1 - e);
        assert(m * pw <= 0xffff_ffff_ffff_ffff * 0x10_0000_0000_0000) by (nonlinear_arith)
            requires
                m < 0x1_0000_0000_0000_0000,
                pw <= 0x10_0000_0000_0000,
        ;
        m * pw
    } else {
        round_shift(m, e + 1 - p)
    };
    let pw = pow_two(p - 1);
    let ef: u128 = (e + bias - 1) as u128;
    assert(ef * pw <= 2000 * 0x10_0000_0000_0000) by (nonlinear_arith)
        requires
            ef <= 2000,
            pw <= 0x10_0000_0000_0000,
    ;
    let mag = ef * pw + sig;
    if x < 0 {
        sign + mag
    } else {
        mag
    }
}

/// The binary32 value nearest to `x`, as its bits.
pub fn int_to_f32(x: i64) -> (r: u32)
    ensures
        r == f32_of_int(x as int),
{
    proof {
        lemma2_to64();
    }
    int_to_bits(x, 24, 127, 0x8000_0000) as u32
}

/// The binary64 value nearest to `x`, as its bits.
pub fn int_to_f64(x: i64) -> (r: u64)
    ensures
        r == f64_of_int(x as int),
{
    proof {
        lemma2_to64();
        lemma2_to64_rest();
    }
    int_to_bits(x, 53, 1023, 0x8000_0000_0000_0000) as u64
}

/// The binary64 value equal to the binary32 value with bits `b`, as its bits.
pub fn f32_to_f64(b: u32) -> (r: u64)
    ensures
        widens_to(b, r),
{
    proof {
        lemma2_to64();
        lemma2_to64_rest();
        lemma_mod_pos_bound(b as int, 0x80_0000);
        lemma_mod_pos_bound(b as int / 0x80_0000, 256);
    }
    let bb = b as u128;
    let ex = (bb / 0x80_0000) % 256;
    let fr = bb % 0x80_0000;
    let sbit = (bb / 0x8000_0000) * 0x8000_0000_0000_0000;
    let mag: u128 = if ex == 255 {
        if fr == 0 {
            2047 * 0x10_0000_0000_0000
        } else {
            let q = if fr >= 0x40_0000 {
                fr
            } else {
                fr + 0x40_0000
            };
            2047 * 0x10_0000_0000_0000 + q * 0x2000_0000
        }
    } else if ex == 0 {
        if fr == 0 {
            0
        } else {
            proof {
                lemma_bit_len_bound(fr as nat, 23);
            }
            let bl = bit_length(fr);
            assert(bl >= 1);
            let e = bl - 1;
            let pw = pow_two(52 - e);
            proof {
                lemma_pow2_strictly_increases((52 - e) as nat, 64);
            }
            assert(fr * pw <= 0x80_0000 * 0x1_0000_0000_0000_0000) by (nonlinear_arith)
                requires
                    fr < 0x80_0000,
                    pw <= 0x1_0000_0000_0000_0000,
            ;
            (e + 873) as u128 * 0x10_0000_0000_0000 + fr * pw
        }
    } else {
        (ex + 896) * 0x10_0000_0000_0000 + fr * 0x2000_0000
    };
    (sbit + mag) as u64
}

/// The binary32 value nearest to the binary64 value with bits `b`, as its bits.
pub fn f64_to_f32(b: u64) -> (r: u32)
    ensures
        narrows_to(b, r),
{
    proof {
        lemma2_to64();
        lemma2_to64_rest();
        lemma_mod_pos_bound(b as int, 0x10_0000_0000_0000);
        lemma_mod_pos_bound(b as int / 0x10_0000_0000_0000, 2048);
    }
    let bb = b as u128;
    let ex = (bb / 0x10_0000_0000_0000) % 2048;
    let fr = bb % 0x10_0000_0000_0000;
    let sbit = (bb / 0x8000_0000_0000_0000) * 0x8000_0000;
    let m = fr + 0x10_0000_0000_0000;
    let mag: u128 = if ex == 2047 {
        if fr == 0 {
            255 * 0x80_0000
        } else {
            let t = fr / 0x2000_0000;
            let q = if t >= 0x40_0000 {
                t
            } else {
                t + 0x40_0000
            };
            255 * 0x80_0000 + q
        }
    } else if ex == 0 {
        0
    } else if ex >= 1151 {
        255 * 0x80_0000
    } else if ex >= 897 {
        (ex - 897) * 0x80_0000 + round_shift(m, 29)
    } else {
        let k = (926 - ex) as u32;
        if k >= 64 {
            proof {
                if k > 64 {
                    lemma_pow2_strictly_increases(64, k as nat);
                }
                lemma_basic_div(m as int, pow2(k as nat) as int);
                lemma_small_mod(m as nat, pow2(k as nat));
            }
            0
        } else {
            round_shift(m, k)
        }
    };
    (sbit + mag) as u32
}

} // verus!
