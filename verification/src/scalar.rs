//! Fixed-point scalars.
//!
//! Every tuning value of the search core (field boosts, importance weights,
//! decay parameters, radii in kilometres) is a non-negative number carried in
//! millionths, so one unit is `PPM`. All arithmetic on them is exact integer
//! arithmetic, checked for overflow by the verifier.

use vstd::prelude::*;
use vstd::arithmetic::power2::{pow2, lemma_pow2_adds, lemma2_to64, lemma_pow2_strictly_increases};
use vstd::arithmetic::div_mod::{lemma_div_is_ordered, lemma_div_multiples_vanish,
    lemma_fundamental_div_mod};

verus! {

/// One unit, in millionths.
pub const PPM: u64 = 1_000_000;

/// The natural logarithm of two, in millionths.
pub const LN2_PPM: u64 = 693_147;

/// Largest scalar the library accepts: one million units, in millionths.
pub const SCALAR_MAX: u64 = 1_000_000_000_000;

/// `x` forced into `[lo, hi]`.
pub fn clamp_ppm(x: u64, lo: u64, hi: u64) -> (r: u64)
    requires
        lo <= hi,
    ensures
        lo <= r <= hi,
        lo <= x <= hi ==> r == x,
        x < lo ==> r == lo,
        x > hi ==> r == hi,
{
    if x < lo {
        lo
    } else if x > hi {
        hi
    } else {
        x
    }
}

/// The number of whole octaves in `y` millionths: the `k` with
/// `2^k <= y/PPM < 2^(k+1)`, for `y >= PPM`.
pub open spec fn spec_norm_shift(y: nat) -> nat
    decreases y,
{
    if y < 2 * (PPM as nat) {
        0
    } else {
        1 + spec_norm_shift(y / 2)
    }
}

proof fn lemma_norm_shift_of_range(y: nat, k: nat)
    requires
        (PPM as nat) * pow2(k) <= y,
        y < (PPM as nat) * pow2(k + 1),
    ensures
        spec_norm_shift(y) == k,
    decreases k,
{
    lemma2_to64();
    if k == 0 {
        assert(pow2(0) == 1 && pow2(1) == 2);
        assert(y < 2 * (PPM as nat));
    } else {
        lemma_pow2_adds((k - 1) as nat, 1);
        lemma_pow2_adds(k as nat, 1);
        assert(pow2(k) == pow2((k - 1) as nat) * 2) by (nonlinear_arith)
            requires
                pow2(k) == pow2((k - 1) as nat) * pow2(1),
                pow2(1) == 2,
        ;
        assert(pow2(k + 1) == pow2(k) * 2) by (nonlinear_arith)
            requires
                pow2(k + 1) == pow2(k) * pow2(1),
                pow2(1) == 2,
        ;
        assert((PPM as nat) * pow2(k) >= 2 * (PPM as nat)) by (nonlinear_arith)
            requires
                pow2(k) >= 2,
        ;
        assert(pow2(k) >= 2) by {
            if k == 1 {
            } else {
                lemma_pow2_strictly_increases(1, k);
            }
        }
        let half = y / 2;
        lemma_fundamental_div_mod(y as int, 2);
        assert((PPM as nat) * pow2((k - 1) as nat) <= half) by (nonlinear_arith)
            requires
                y == 2 * half + (y as int % 2),
                0 <= (y as int % 2) < 2,
                (PPM as nat) * pow2(k) <= y,
                pow2(k) == pow2((k - 1) as nat) * 2,
        ;
        assert(half < (PPM as nat) * pow2(k)) by (nonlinear_arith)
            requires
                y == 2 * half + (y as int % 2),
                0 <= (y as int % 2) < 2,
                y < (PPM as nat) * pow2(k + 1),
                pow2(k + 1) == pow2(k) * 2,
        ;
        lemma_norm_shift_of_range(half, (k - 1) as nat);
        assert(y >= 2 * (PPM as nat));
    }
}

/// The binary fixed-point mantissa of `y` millionths within its octave.
pub open spec fn spec_mantissa(y: nat, k: nat) -> nat {
    (y * 0x1_0000_0000) / ((PPM as nat) * pow2(k))
}

/// One squaring round of the mantissa.
pub open spec fn spec_next_m(m: nat) -> nat {
    let sq = (m * m) / 0x1_0000_0000;
    if sq >= 2 * 0x1_0000_0000 {
        sq / 2
    } else {
        sq
    }
}

/// The bit one squaring round produces.
pub open spec fn spec_bit(m: nat) -> nat {
    if (m * m) / 0x1_0000_0000 >= 2 * 0x1_0000_0000 {
        1
    } else {
        0
    }
}

/// The `n` fractional bits of the binary logarithm of a mantissa, most
/// significant first.
pub open spec fn spec_frac_bits(m: nat, n: nat) -> nat
    decreases n,
{
    if n == 0 {
        0
    } else {
        spec_bit(m) * pow2((n - 1) as nat) + spec_frac_bits(spec_next_m(m), (n - 1) as nat)
    }
}

/// The exact value [`ln1p_ppm`] computes: the octave count times ln 2 plus
/// sixteen fractional bits of the binary logarithm, scaled by ln 2.
pub open spec fn spec_ln1p_ppm(x: nat) -> nat {
    let y = (PPM as nat) + x;
    let k = spec_norm_shift(y);
    k * (LN2_PPM as nat) + (spec_frac_bits(spec_mantissa(y, k), 16) * (LN2_PPM as nat)) / 65536
}

/// The natural logarithm of `1 + x`, both in millionths.
///
/// The value is computed through the binary logarithm: the argument is
/// normalized into `[1, 2)`, and sixteen fractional bits are produced by
/// repeated squaring. The result is exactly [`spec_ln1p_ppm`]: zero at
/// zero, and always between `k·ln 2` and `(k+1)·ln 2` for the argument's
/// octave count `k`.
pub fn ln1p_ppm(x: u64) -> (r: u64)
    requires
        x <= SCALAR_MAX,
    ensures
        r as nat == spec_ln1p_ppm(x as nat),
        x == 0 ==> r == 0,
        r <= 21 * LN2_PPM,
        spec_norm_shift((PPM + x) as nat) * (LN2_PPM as nat) <= r as nat,
        (r as nat) < ((spec_norm_shift((PPM + x) as nat) + 1) * (LN2_PPM as nat)),
{
    let y: u64 = PPM + x;
    let mut k: u64 = 0;
    let mut p: u64 = PPM;
    proof {
        lemma2_to64();
    }
    while y >= 2 * p
        invariant
            PPM <= p <= y,
            y == PPM + x,
            x <= SCALAR_MAX,
            p as nat == PPM * pow2(k as nat),
            k <= 21,
            x == 0 ==> k == 0,
        decreases y - p,
    {
        proof {
            lemma_pow2_adds(k as nat, 1);
            lemma2_to64();
            if k + 1 > 21 {
                lemma_pow2_strictly_increases(21, (k + 1) as nat);
                assert(pow2(21) == 0x200000);
                assert((2 * p) as nat == PPM * pow2((k + 1) as nat));
                assert(PPM * pow2((k + 1) as nat) >= PPM * 0x200000) by (nonlinear_arith)
                    requires
                        pow2((k + 1) as nat) >= 0x200000,
                ;
            }
        }
        p = 2 * p;
        k = k + 1;
    }
    proof {
        lemma_pow2_adds(k as nat, 1);
        lemma2_to64();
        assert((2 * p) as nat == (PPM as nat) * pow2((k + 1) as nat)) by (nonlinear_arith)
            requires
                p as nat == (PPM as nat) * pow2(k as nat),
                pow2((k + 1) as nat) == pow2(k as nat) * pow2(1),
                pow2(1) == 2,
        ;
        lemma_norm_shift_of_range(y as nat, k as nat);
    }
    // Normalize to a 32-bit binary fixed-point mantissa in [2^32, 2^33).
    let q: u128 = 0x1_0000_0000;
    let num: u128 = (y as u128) * q;
    let pd: u128 = p as u128;
    let mut m: u128 = num / pd;
    proof {
        lemma_fundamental_div_mod(num as int, pd as int);
        assert(q <= m < 2 * q) by (nonlinear_arith)
            requires
                pd > 0,
                num == pd * m + (num as int % pd as int),
                0 <= (num as int % pd as int) < pd,
                num >= pd * q,
                num < 2 * pd * q,
        ;
        if x == 0 {
            assert(num == pd * q);
            assert(m == q) by (nonlinear_arith)
                requires
                    pd > 0,
                    num == pd * m + (num as int % pd as int),
                    0 <= (num as int % pd as int) < pd,
                    num == pd * q,
            ;
        }
    }
    let ghost m0_g = m as nat;
    proof {
        assert(m0_g == spec_mantissa(y as nat, k as nat));
        lemma2_to64();
    }
    let mut frac: u64 = 0;
    let mut i: usize = 0;
    while i < 16
        invariant
            i <= 16,
            q == 0x1_0000_0000u128,
            q <= m < 2 * q,
            frac < pow2(i as nat),
            x == 0 ==> m == q && frac == 0,
            spec_frac_bits(m0_g, 16) == (frac as nat) * pow2((16 - i) as nat) + spec_frac_bits(
                m as nat,
                (16 - i) as nat,
            ),
        decreases 16 - i,
    {
        let ghost m_before = m as nat;
        let ghost frac_before = frac as nat;
        let ghost n_rem = (16 - i) as nat;
        proof {
            assert(m * m < 4 * q * q && m * m >= q * q) by (nonlinear_arith)
                requires
                    q <= m < 2 * q,
                    q > 0,
            ;
        }
        let sq: u128 = m * m;
        let m2: u128 = sq / q;
        proof {
            lemma_fundamental_div_mod(sq as int, q as int);
            assert(q <= m2 < 4 * q) by (nonlinear_arith)
                requires
                    q > 0,
                    sq == q * m2 + (sq as int % q as int),
                    0 <= (sq as int % q as int) < q,
                    sq >= q * q,
                    sq < 4 * q * q,
            ;
            if x == 0 {
                assert(sq == q * q);
                assert(m2 == q) by (nonlinear_arith)
                    requires
                        q > 0,
                        sq == q * m2 + (sq as int % q as int),
                        0 <= (sq as int % q as int) < q,
                        sq == q * q,
                ;
            }
            lemma_pow2_adds(i as nat, 1);
            lemma2_to64();
        }
        if m2 >= 2 * q {
            m = m2 / 2;
            frac = frac * 2 + 1;
        } else {
            m = m2;
            frac = frac * 2;
        }
        proof {
            assert(spec_bit(m_before) == if m2 >= 2 * q {
                1nat
            } else {
                0nat
            });
            assert(spec_next_m(m_before) == m as nat);
            assert(spec_frac_bits(m_before, n_rem) == spec_bit(m_before) * pow2(
                (n_rem - 1) as nat,
            ) + spec_frac_bits(m as nat, (n_rem - 1) as nat));
            lemma_pow2_adds((n_rem - 1) as nat, 1);
            lemma2_to64();
            assert((frac as nat) * pow2((n_rem - 1) as nat) == frac_before * pow2(n_rem)
                + spec_bit(m_before) * pow2((n_rem - 1) as nat)) by (nonlinear_arith)
                requires
                    frac as nat == 2 * frac_before + spec_bit(m_before),
                    pow2(n_rem) == pow2((n_rem - 1) as nat) * pow2(1),
                    pow2(1) == 2,
            ;
            assert(spec_frac_bits(m0_g, 16) == (frac as nat) * pow2((16 - (i + 1)) as nat)
                + spec_frac_bits(m as nat, (16 - (i + 1)) as nat));
        }
        i += 1;
    }
    proof {
        lemma2_to64();
        assert(frac < 0x10000);
        assert(spec_frac_bits(m as nat, 0) == 0);
        assert(pow2(0) == 1);
        assert(spec_frac_bits(m0_g, 16) == (frac as nat) * pow2((16 - 16) as nat)
            + spec_frac_bits(m as nat, (16 - 16) as nat));
        assert((frac as nat) * pow2(0) == frac as nat) by (nonlinear_arith)
            requires
                pow2(0) == 1,
        ;
        assert(frac as nat == spec_frac_bits(m0_g, 16));
        assert((frac * LN2_PPM) / 65536 <= (65535 * LN2_PPM) / 65536) by {
            lemma_div_is_ordered((frac * LN2_PPM) as int, (65535 * LN2_PPM) as int, 65536);
        }
        assert((65535u64 * LN2_PPM) / 65536 < LN2_PPM);
    }
    k * LN2_PPM + (frac * LN2_PPM) / 65536
}

proof fn lemma_norm_shift_monotone(y1: nat, y2: nat)
    requires
        y1 <= y2,
    ensures
        spec_norm_shift(y1) <= spec_norm_shift(y2),
    decreases y1,
{
    if y1 >= 2 * (PPM as nat) {
        lemma_div_is_ordered(y1 as int, y2 as int, 2);
        lemma_fundamental_div_mod(y1 as int, 2);
        assert(y1 / 2 < y1);
        lemma_norm_shift_monotone(y1 / 2, y2 / 2);
    }
}

proof fn lemma_frac_bits_bound(m: nat, n: nat)
    ensures
        spec_frac_bits(m, n) < pow2(n),
    decreases n,
{
    lemma2_to64();
    if n == 0 {
    } else {
        lemma_frac_bits_bound(spec_next_m(m), (n - 1) as nat);
        lemma_pow2_adds((n - 1) as nat, 1);
        assert(spec_bit(m) * pow2((n - 1) as nat) + spec_frac_bits(spec_next_m(m), (n - 1) as nat)
            < pow2(n)) by (nonlinear_arith)
            requires
                spec_bit(m) <= 1,
                spec_frac_bits(spec_next_m(m), (n - 1) as nat) < pow2((n - 1) as nat),
                pow2(n) == pow2((n - 1) as nat) * 2,
        ;
    }
}

proof fn lemma_frac_bits_monotone(m1: nat, m2: nat, n: nat)
    requires
        m1 <= m2,
    ensures
        spec_frac_bits(m1, n) <= spec_frac_bits(m2, n),
    decreases n,
{
    if n > 0 {
        assert(m1 * m1 <= m2 * m2) by (nonlinear_arith)
            requires
                m1 <= m2,
        ;
        lemma_div_is_ordered((m1 * m1) as int, (m2 * m2) as int, 0x1_0000_0000);
        let sq1 = (m1 * m1) / 0x1_0000_0000;
        let sq2 = (m2 * m2) / 0x1_0000_0000;
        assert(spec_bit(m1) <= spec_bit(m2));
        if spec_bit(m1) < spec_bit(m2) {
            lemma_frac_bits_bound(spec_next_m(m1), (n - 1) as nat);
            assert(spec_bit(m1) == 0 && spec_bit(m2) == 1);
            assert(spec_frac_bits(m1, n) == 0 * pow2((n - 1) as nat) + spec_frac_bits(
                spec_next_m(m1),
                (n - 1) as nat,
            ));
            assert(spec_frac_bits(m1, n) < pow2((n - 1) as nat));
            assert(spec_frac_bits(m2, n) == 1 * pow2((n - 1) as nat) + spec_frac_bits(
                spec_next_m(m2),
                (n - 1) as nat,
            ));
            assert(spec_frac_bits(m2, n) >= pow2((n - 1) as nat));
        } else {
            if sq1 >= 2 * 0x1_0000_0000 {
                lemma_div_is_ordered(sq1 as int, sq2 as int, 2);
            }
            assert(spec_next_m(m1) <= spec_next_m(m2));
            lemma_frac_bits_monotone(spec_next_m(m1), spec_next_m(m2), (n - 1) as nat);
        }
    }
}

proof fn lemma_spec_ln1p_bracket(x: nat)
    ensures
        spec_norm_shift((PPM as nat) + x) * (LN2_PPM as nat) <= spec_ln1p_ppm(x),
        spec_ln1p_ppm(x) < (spec_norm_shift((PPM as nat) + x) + 1) * (LN2_PPM as nat),
{
    lemma2_to64();
    let y = (PPM as nat) + x;
    let k = spec_norm_shift(y);
    let frac = spec_frac_bits(spec_mantissa(y, k), 16);
    lemma_frac_bits_bound(spec_mantissa(y, k), 16);
    assert(pow2(16) == 65536);
    lemma_div_is_ordered((frac * (LN2_PPM as nat)) as int, (65535 * (LN2_PPM as nat)) as int, 65536);
    assert((65535 * (LN2_PPM as nat)) / 65536 < (LN2_PPM as nat));
    assert((k + 1) * (LN2_PPM as nat) == k * (LN2_PPM as nat) + (LN2_PPM as nat))
        by (nonlinear_arith);
}

/// Law: the logarithm approximation is monotone — a larger argument never
/// yields a smaller value.
pub proof fn lemma_ln1p_monotone(x1: nat, x2: nat)
    requires
        x1 <= x2,
    ensures
        spec_ln1p_ppm(x1) <= spec_ln1p_ppm(x2),
{
    let y1 = (PPM as nat) + x1;
    let y2 = (PPM as nat) + x2;
    let k1 = spec_norm_shift(y1);
    let k2 = spec_norm_shift(y2);
    lemma_norm_shift_monotone(y1, y2);
    if k1 == k2 {
        assert(y1 * 0x1_0000_0000 <= y2 * 0x1_0000_0000) by (nonlinear_arith)
            requires
                y1 <= y2,
        ;
        lemma_pow2_pos_local(k1);
        lemma_div_is_ordered(
            (y1 * 0x1_0000_0000) as int,
            (y2 * 0x1_0000_0000) as int,
            ((PPM as nat) * pow2(k1)) as int,
        );
        lemma_frac_bits_monotone(spec_mantissa(y1, k1), spec_mantissa(y2, k2), 16);
        lemma_div_is_ordered(
            (spec_frac_bits(spec_mantissa(y1, k1), 16) * (LN2_PPM as nat)) as int,
            (spec_frac_bits(spec_mantissa(y2, k2), 16) * (LN2_PPM as nat)) as int,
            65536,
        );
    } else {
        lemma_spec_ln1p_bracket(x1);
        lemma_spec_ln1p_bracket(x2);
        assert((k1 + 1) * (LN2_PPM as nat) <= k2 * (LN2_PPM as nat)) by (nonlinear_arith)
            requires
                k1 + 1 <= k2,
        ;
    }
}

proof fn lemma_pow2_pos_local(k: nat)
    ensures
        (PPM as nat) * pow2(k) > 0,
{
    vstd::arithmetic::power2::lemma_pow2_pos(k);
    assert((PPM as nat) * pow2(k) > 0) by (nonlinear_arith)
        requires
            pow2(k) >= 1,
    ;
}

/// The exact value [`zoom_ratio_ppm`] computes over the logarithm
/// approximation.
pub open spec fn spec_zoom_ratio_ppm(
    radius_ppm: u64,
    min_radius_ppm: u64,
    max_radius_ppm: u64,
) -> nat {
    let rad = if radius_ppm < min_radius_ppm {
        min_radius_ppm
    } else if radius_ppm > max_radius_ppm {
        max_radius_ppm
    } else {
        radius_ppm
    };
    let l_min = spec_ln1p_ppm(min_radius_ppm as nat);
    let l_max = spec_ln1p_ppm(max_radius_ppm as nat);
    let l_rad = if rad >= max_radius_ppm {
        l_max
    } else if rad <= min_radius_ppm {
        l_min
    } else {
        spec_ln1p_ppm(rad as nat)
    };
    if l_max <= l_min {
        PPM as nat
    } else {
        let den = (l_max - l_min) as nat;
        let num = if l_rad <= l_min {
            0nat
        } else if l_rad - l_min > den {
            den
        } else {
            (l_rad - l_min) as nat
        };
        (num * (PPM as nat)) / den
    }
}

/// Law: the zoom ratio is monotone in the radius — a larger radius never
/// yields a smaller ratio, pinning the mid-range behaviour to the curve.
pub proof fn lemma_zoom_ratio_monotone(radius1: u64, radius2: u64, min: u64, max: u64)
    requires
        radius1 <= radius2,
        min <= max,
    ensures
        spec_zoom_ratio_ppm(radius1, min, max) <= spec_zoom_ratio_ppm(radius2, min, max),
{
    let l_min = spec_ln1p_ppm(min as nat);
    let l_max = spec_ln1p_ppm(max as nat);
    if l_max > l_min {
        let rad1: u64 = if radius1 < min {
            min
        } else if radius1 > max {
            max
        } else {
            radius1
        };
        let rad2: u64 = if radius2 < min {
            min
        } else if radius2 > max {
            max
        } else {
            radius2
        };
        assert(rad1 <= rad2);
        let l_rad1 = if rad1 >= max {
            l_max
        } else if rad1 <= min {
            l_min
        } else {
            spec_ln1p_ppm(rad1 as nat)
        };
        let l_rad2 = if rad2 >= max {
            l_max
        } else if rad2 <= min {
            l_min
        } else {
            spec_ln1p_ppm(rad2 as nat)
        };
        lemma_ln1p_monotone(min as nat, max as nat);
        if rad1 > min && rad1 < max {
            lemma_ln1p_monotone(min as nat, rad1 as nat);
            lemma_ln1p_monotone(rad1 as nat, max as nat);
        }
        if rad2 > min && rad2 < max {
            lemma_ln1p_monotone(min as nat, rad2 as nat);
            lemma_ln1p_monotone(rad2 as nat, max as nat);
        }
        if rad1 > min && rad1 < max && rad2 > min && rad2 < max {
            lemma_ln1p_monotone(rad1 as nat, rad2 as nat);
        }
        assert(l_rad1 <= l_rad2);
        let den = (l_max - l_min) as nat;
        let num1 = if l_rad1 <= l_min {
            0nat
        } else if l_rad1 - l_min > den {
            den
        } else {
            (l_rad1 - l_min) as nat
        };
        let num2 = if l_rad2 <= l_min {
            0nat
        } else if l_rad2 - l_min > den {
            den
        } else {
            (l_rad2 - l_min) as nat
        };
        assert(num1 <= num2);
        assert(num1 * (PPM as nat) <= num2 * (PPM as nat)) by (nonlinear_arith)
            requires
                num1 <= num2,
        ;
        lemma_div_is_ordered(
            (num1 * (PPM as nat)) as int,
            (num2 * (PPM as nat)) as int,
            den as int,
        );
    }
}

/// Where a proximity radius stands between the smallest and the largest
/// configured radius, on a logarithmic scale, in millionths: exactly
/// [`spec_zoom_ratio_ppm`] — zero at or below the smallest radius, one
/// unit at or above the largest, monotone in between
/// ([`lemma_zoom_ratio_monotone`]). Where the logarithmic gap between the
/// two radii degenerates (they fall in the same octave and the
/// approximation sees no gap), the ratio is fully zoomed out.
pub fn zoom_ratio_ppm(radius_ppm: u64, min_radius_ppm: u64, max_radius_ppm: u64) -> (r: u64)
    requires
        min_radius_ppm <= max_radius_ppm <= SCALAR_MAX,
    ensures
        r as nat == spec_zoom_ratio_ppm(radius_ppm, min_radius_ppm, max_radius_ppm),
        r <= PPM,
        radius_ppm >= max_radius_ppm ==> r == PPM,
        radius_ppm <= min_radius_ppm && spec_norm_shift((PPM + max_radius_ppm) as nat)
            > spec_norm_shift((PPM + min_radius_ppm) as nat) ==> r == 0,
{
    let rad = clamp_ppm(radius_ppm, min_radius_ppm, max_radius_ppm);
    let l_min = ln1p_ppm(min_radius_ppm);
    let l_max = ln1p_ppm(max_radius_ppm);
    // Reuse the endpoint values at the ends of the range, so that a clamped
    // radius lands exactly on them.
    let l_rad = if rad >= max_radius_ppm {
        l_max
    } else if rad <= min_radius_ppm {
        l_min
    } else {
        ln1p_ppm(rad)
    };
    proof {
        if spec_norm_shift((PPM + max_radius_ppm) as nat) > spec_norm_shift(
            (PPM + min_radius_ppm) as nat,
        ) {
            let kmin = spec_norm_shift((PPM + min_radius_ppm) as nat);
            let kmax = spec_norm_shift((PPM + max_radius_ppm) as nat);
            assert((kmin + 1) * (LN2_PPM as nat) <= kmax * (LN2_PPM as nat))
                by (nonlinear_arith)
                requires
                    kmin + 1 <= kmax,
            ;
            assert(l_min < l_max);
        }
    }
    if l_max <= l_min {
        // A degenerate logarithmic gap behaves as fully zoomed out.
        return PPM;
    }
    let den: u64 = l_max - l_min;
    let num: u64 = if l_rad <= l_min {
        0
    } else if l_rad - l_min > den {
        den
    } else {
        l_rad - l_min
    };
    proof {
        assert((num as u128) * (PPM as u128) <= 0xFFFF_FFFFu128 * 1_000_000u128)
            by (nonlinear_arith)
            requires
                num <= 0xFFFF_FFFFu64,
        ;
    }
    let scaled: u128 = (num as u128) * (PPM as u128) / (den as u128);
    proof {
        lemma_fundamental_div_mod((num as u128 * PPM as u128) as int, den as int);
        assert(scaled <= PPM) by (nonlinear_arith)
            requires
                den > 0,
                num <= den,
                num as u128 * PPM as u128 == den as int * scaled + ((num as u128 * PPM
                    as u128) as int % den as int),
                0 <= ((num as u128 * PPM as u128) as int % den as int),
        ;
        if num == den {
            lemma_div_multiples_vanish(PPM as int, den as int);
            assert(scaled == PPM) by (nonlinear_arith)
                requires
                    den > 0,
                    num == den,
                    num as u128 * PPM as u128 == den as int * scaled + ((num as u128 * PPM
                        as u128) as int % den as int),
                    0 <= ((num as u128 * PPM as u128) as int % den as int) < den,
                    (den as int * PPM as int) / den as int == PPM as int,
            ;
        }
        if num == 0 {
            assert(scaled == 0) by (nonlinear_arith)
                requires
                    den > 0,
                    num == 0,
                    num as u128 * PPM as u128 == den as int * scaled + ((num as u128 * PPM
                        as u128) as int % den as int),
                    0 <= ((num as u128 * PPM as u128) as int % den as int),
                    scaled >= 0,
            ;
        }
    }
    scaled as u64
}

/// The point `ratio` of the way from `lo` to `hi`, in millionths: the
/// exact integer quotient `((PPM − ratio)·lo + ratio·hi) / PPM`, which is
/// `lo` at ratio zero, `hi` at one unit, and always between the two.
pub fn blend_ppm(ratio: u64, lo: u64, hi: u64) -> (r: u64)
    requires
        ratio <= PPM,
        lo <= SCALAR_MAX,
        hi <= SCALAR_MAX,
    ensures
        r as nat == (((PPM - ratio) as nat) * (lo as nat) + (ratio as nat) * (hi as nat)) / (
        PPM as nat),
        ratio == 0 ==> r == lo,
        ratio == PPM ==> r == hi,
        lo <= hi ==> lo <= r <= hi,
        hi <= lo ==> hi <= r <= lo,
        r <= SCALAR_MAX,
{
    proof {
        assert(((PPM - ratio) as u128) * (lo as u128) <= 1_000_000u128 * (SCALAR_MAX as u128)
            && (ratio as u128) * (hi as u128) <= 1_000_000u128 * (SCALAR_MAX as u128))
            by (nonlinear_arith)
            requires
                ratio <= PPM,
                PPM == 1_000_000u64,
                lo <= SCALAR_MAX,
                hi <= SCALAR_MAX,
        ;
    }
    let mixed: u128 = ((PPM - ratio) as u128) * (lo as u128) + (ratio as u128) * (hi as u128);
    let r128: u128 = mixed / (PPM as u128);
    proof {
        lemma_fundamental_div_mod(mixed as int, PPM as int);
        let q = r128 as int;
        let rem = mixed as int % PPM as int;
        if ratio == 0 {
            assert(mixed == (PPM as u128) * (lo as u128)) by (nonlinear_arith)
                requires
                    mixed == ((PPM - ratio) as u128) * (lo as u128) + (ratio as u128) * (hi
                        as u128),
                    ratio == 0,
            ;
            assert(q == lo) by (nonlinear_arith)
                requires
                    mixed == PPM as int * q + rem,
                    0 <= rem < PPM,
                    mixed == (PPM as u128) * (lo as u128),
            ;
        }
        if ratio == PPM {
            assert(mixed == (PPM as u128) * (hi as u128)) by (nonlinear_arith)
                requires
                    mixed == ((PPM - ratio) as u128) * (lo as u128) + (ratio as u128) * (hi
                        as u128),
                    ratio == PPM,
            ;
            assert(q == hi) by (nonlinear_arith)
                requires
                    mixed == PPM as int * q + rem,
                    0 <= rem < PPM,
                    mixed == (PPM as u128) * (hi as u128),
            ;
        }
        assert(mixed <= (PPM as u128) * (SCALAR_MAX as u128)) by (nonlinear_arith)
            requires
                mixed == ((PPM - ratio) as u128) * (lo as u128) + (ratio as u128) * (hi
                    as u128),
                ratio <= PPM,
                lo <= SCALAR_MAX,
                hi <= SCALAR_MAX,
        ;
        assert(q <= SCALAR_MAX) by (nonlinear_arith)
            requires
                mixed == PPM as int * q + rem,
                0 <= rem < PPM,
                mixed <= (PPM as u128) * (SCALAR_MAX as u128),
        ;
        let small: int = if lo <= hi {
            lo as int
        } else {
            hi as int
        };
        let big: int = if lo <= hi {
            hi as int
        } else {
            lo as int
        };
        assert((PPM as int) * small <= mixed <= (PPM as int) * big) by (nonlinear_arith)
            requires
                mixed == ((PPM - ratio) as u128) * (lo as u128) + (ratio as u128) * (hi
                    as u128),
                ratio <= PPM,
                small <= lo as int <= big,
                small <= hi as int <= big,
        ;
        assert(small <= q <= big) by (nonlinear_arith)
            requires
                mixed == PPM as int * q + rem,
                0 <= rem < PPM,
                (PPM as int) * small <= mixed <= (PPM as int) * big,
                0 <= small,
        ;
    }
    r128 as u64
}

} // verus!
