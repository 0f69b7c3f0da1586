use vstd::prelude::*;
use vstd::arithmetic::div_mod::{
    lemma_div_by_multiple, lemma_div_is_ordered, lemma_div_pos_is_pos, lemma_fundamental_div_mod,
    lemma_mod_division_less_than_divisor,
};

verus! {

// Angles are handled in fixed point with 30 fractional bits.
pub const ONE_Q30: u64 = 1073741824;

/// Lowest 30-bit fixed-point digits of `2 * pi`.
pub const TWO_PI_Q30: u64 = 6746518852;

/// Lowest 30-bit fixed-point digits of `pi / 4`.
pub const PI4_Q30: u64 = 843314856;

/// The largest angle the octant reduction can hand to the series:
/// `pi / 4` plus the rounding slack of the reduction.
pub const PHI_MAX: u64 = 843314872;

/// The cosine series on the first octant, as the executable code
/// computes it: four Taylor terms past the leading one, each truncated
/// in Q30 fixed point.
pub open spec fn cos_q30_spec(phi: int) -> int {
    let x2 = (phi * phi) / (ONE_Q30 as int);
    let x4 = (x2 * x2) / (ONE_Q30 as int);
    let x6 = (x4 * x2) / (ONE_Q30 as int);
    let x8 = (x6 * x2) / (ONE_Q30 as int);
    (ONE_Q30 as int + x4 / 24 + x8 / 40320) - (x2 / 2 + x6 / 720)
}

/// The sine series on the first octant, as the executable code
/// computes it.
pub open spec fn sin_q30_spec(phi: int) -> int {
    let x2 = (phi * phi) / (ONE_Q30 as int);
    let x3 = (x2 * phi) / (ONE_Q30 as int);
    let x5 = (x3 * x2) / (ONE_Q30 as int);
    let x7 = (x5 * x2) / (ONE_Q30 as int);
    let x9 = (x7 * x2) / (ONE_Q30 as int);
    (phi + x5 / 120 + x9 / 362880) - (x3 / 6 + x7 / 5040)
}

/// One squeezing step of the series: a truncated product with a factor
/// below one stays at or below the other factor, and nonnegative.
proof fn lemma_squeeze(a: int, b: int)
    requires
        0 <= a,
        0 <= b <= ONE_Q30 as int,
    ensures
        0 <= (a * b) / (ONE_Q30 as int) <= a,
        a * b <= a * (ONE_Q30 as int),
        0 <= a * b,
{
    assert(0 <= a * b <= a * (ONE_Q30 as int)) by (nonlinear_arith)
        requires
            0 <= a,
            0 <= b <= ONE_Q30 as int,
    ;
    lemma_div_pos_is_pos(a * b, ONE_Q30 as int);
    lemma_div_is_ordered(a * b, a * (ONE_Q30 as int), ONE_Q30 as int);
    lemma_div_by_multiple(a, ONE_Q30 as int);
}

/// Bounds of the truncated powers of an octant angle.
proof fn lemma_series_bounds(phi: int)
    requires
        0 <= phi <= PHI_MAX,
    ensures
        0 <= phi * phi <= 711179973336376384,
        ({
            let x2 = (phi * phi) / (ONE_Q30 as int);
            0 <= x2 <= 662337963
        }),
{
    assert(0 <= phi * phi <= 711179973336376384) by (nonlinear_arith)
        requires
            0 <= phi <= 843314872,
    ;
    lemma_div_pos_is_pos(phi * phi, ONE_Q30 as int);
    lemma_div_is_ordered(phi * phi, 711179973336376384, ONE_Q30 as int);
    assert(711179973336376384int / (ONE_Q30 as int) == 662337963int);
}

/// Truncated cosine on the first octant.
pub fn cos_q30(phi: u64) -> (r: i64)
    requires
        phi <= PHI_MAX,
    ensures
        r as int == cos_q30_spec(phi as int),
        0 < r <= 0x8000_0000,
{
    proof {
        lemma_series_bounds(phi as int);
    }
    let x2: u64 = (phi * phi) / ONE_Q30;
    proof {
        lemma_squeeze(x2 as int, x2 as int);
    }
    let x4: u64 = (x2 * x2) / ONE_Q30;
    proof {
        lemma_squeeze(x4 as int, x2 as int);
    }
    let x6: u64 = (x4 * x2) / ONE_Q30;
    proof {
        lemma_squeeze(x6 as int, x2 as int);
    }
    let x8: u64 = (x6 * x2) / ONE_Q30;
    proof {
        lemma_div_pos_is_pos(x2 as int, 2);
        lemma_div_pos_is_pos(x4 as int, 24);
        lemma_div_pos_is_pos(x6 as int, 720);
        lemma_div_pos_is_pos(x8 as int, 40320);
        lemma_div_is_ordered(x2 as int, 662337963, 2);
        lemma_div_is_ordered(x4 as int, 662337963, 24);
        lemma_div_is_ordered(x6 as int, 662337963, 720);
        lemma_div_is_ordered(x8 as int, 662337963, 40320);
    }
    let pos: u64 = ONE_Q30 + x4 / 24 + x8 / 40320;
    let neg: u64 = x2 / 2 + x6 / 720;
    (pos - neg) as i64
}

/// Truncated sine on the first octant.
pub fn sin_q30(phi: u64) -> (r: i64)
    requires
        phi <= PHI_MAX,
    ensures
        r as int == sin_q30_spec(phi as int),
        0 <= r <= 0x8000_0000,
{
    proof {
        lemma_series_bounds(phi as int);
    }
    let x2: u64 = (phi * phi) / ONE_Q30;
    proof {
        lemma_squeeze(phi as int, x2 as int);
        assert((x2 as int * phi as int) == (phi as int * x2 as int)) by (nonlinear_arith);
    }
    let x3: u64 = (x2 * phi) / ONE_Q30;
    proof {
        lemma_squeeze(x3 as int, x2 as int);
    }
    let x5: u64 = (x3 * x2) / ONE_Q30;
    proof {
        lemma_squeeze(x5 as int, x2 as int);
    }
    let x7: u64 = (x5 * x2) / ONE_Q30;
    proof {
        lemma_squeeze(x7 as int, x2 as int);
    }
    let x9: u64 = (x7 * x2) / ONE_Q30;
    proof {
        lemma_div_pos_is_pos(x3 as int, 6);
        lemma_div_pos_is_pos(x5 as int, 120);
        lemma_div_pos_is_pos(x7 as int, 5040);
        lemma_div_pos_is_pos(x9 as int, 362880);
        lemma_div_is_ordered(x3 as int, phi as int, 6);
        lemma_div_is_ordered(x5 as int, 843314872, 120);
        lemma_div_is_ordered(x9 as int, 843314872, 362880);
        lemma_div_is_ordered(x7 as int, phi as int, 5040);
        // the subtracted terms stay below the angle itself
        lemma_fundamental_div_mod(phi as int, 6);
        lemma_fundamental_div_mod(phi as int, 5040);
        lemma_mod_division_less_than_divisor(phi as int, 6);
        lemma_mod_division_less_than_divisor(phi as int, 5040);
        assert(phi as int / 6 + phi as int / 5040 <= phi as int) by (nonlinear_arith)
            requires
                phi as int == 6 * (phi as int / 6) + (phi as int) % 6,
                phi as int == 5040 * (phi as int / 5040) + (phi as int) % 5040,
                0 <= (phi as int) % 6,
                0 <= (phi as int) % 5040,
                0 <= phi as int / 6,
                0 <= phi as int / 5040,
                0 <= phi,
        ;
    }
    let pos: u64 = phi + x5 / 120 + x9 / 362880;
    let neg: u64 = x3 / 6 + x7 / 5040;
    (pos - neg) as i64
}

/// The octant of the full turn `k / p`, and the in-octant angle in
/// Q30, clamped to the series' domain (the clamp absorbs the at most
/// sixteen units of truncation slack).
pub open spec fn octant_spec(k: int, p: int) -> (int, int) {
    let o = (8 * k) / p;
    let q = ((TWO_PI_Q30 as int) * k) / p;
    let raw = q - o * (PI4_Q30 as int);
    let phi = if raw < 0 {
        0
    } else if raw > PHI_MAX as int {
        PHI_MAX as int
    } else {
        raw
    };
    (o, phi)
}

/// The cosine and sine of the full turn `k / p`, in Q30, by octant
/// reduction to the first-octant series.
pub open spec fn cos_sin_turn_spec(k: int, p: int) -> (int, int) {
    let (o, phi) = octant_spec(k, p);
    let psi0 = PI4_Q30 as int - phi;
    let psi = if psi0 < 0 {
        0
    } else {
        psi0
    };
    if o == 0 {
        (cos_q30_spec(phi), sin_q30_spec(phi))
    } else if o == 1 {
        (sin_q30_spec(psi), cos_q30_spec(psi))
    } else if o == 2 {
        (-sin_q30_spec(phi), cos_q30_spec(phi))
    } else if o == 3 {
        (-cos_q30_spec(psi), sin_q30_spec(psi))
    } else if o == 4 {
        (-cos_q30_spec(phi), -sin_q30_spec(phi))
    } else if o == 5 {
        (-sin_q30_spec(psi), -cos_q30_spec(psi))
    } else if o == 6 {
        (sin_q30_spec(phi), -cos_q30_spec(phi))
    } else {
        (cos_q30_spec(psi), -sin_q30_spec(psi))
    }
}

/// Cosine and sine of the angle `2 pi k / p`.
pub fn cos_sin_turn(k: u32, p: u32) -> (r: (i64, i64))
    requires
        1 <= p <= 512,
        k < p,
    ensures
        (r.0 as int, r.1 as int) == cos_sin_turn_spec(k as int, p as int),
        -0x8000_0000 <= r.0 <= 0x8000_0000,
        -0x8000_0000 <= r.1 <= 0x8000_0000,
{
    let o: u64 = (8 * (k as u64)) / (p as u64);
    proof {
        assert(8 * (k as int) < 8 * (p as int)) by (nonlinear_arith)
            requires
                k < p,
        ;
        lemma_fundamental_div_mod(8 * (k as int), p as int);
        lemma_mod_division_less_than_divisor(8 * (k as int), p as int);
        assert(o <= 7) by (nonlinear_arith)
            requires
                o as int == (8 * (k as int)) / (p as int),
                8 * (k as int) == (p as int) * ((8 * (k as int)) / (p as int)) + (8 * (k as int))
                    % (p as int),
                0 <= (8 * (k as int)) % (p as int),
                8 * (k as int) < 8 * (p as int),
                p >= 1,
        ;
        lemma_div_pos_is_pos(8 * (k as int), p as int);
    }
    let q: u64 = (TWO_PI_Q30 * (k as u64)) / (p as u64);
    proof {
        assert(0 <= TWO_PI_Q30 as int * (k as int) <= 6746518852 * 511) by (nonlinear_arith)
            requires
                0 <= k < 512,
                TWO_PI_Q30 == 6746518852u64,
        ;
        lemma_div_pos_is_pos(TWO_PI_Q30 as int * (k as int), p as int);
        vstd::arithmetic::div_mod::lemma_div_is_ordered_by_denominator(
            TWO_PI_Q30 as int * (k as int),
            1,
            p as int,
        );
        assert((TWO_PI_Q30 as int * (k as int)) / 1 == TWO_PI_Q30 as int * (k as int));
    }
    let raw: i64 = (q as i64) - ((o * PI4_Q30) as i64);
    let phi: u64 = if raw < 0 {
        0
    } else if raw > PHI_MAX as i64 {
        PHI_MAX
    } else {
        raw as u64
    };
    let psi0: i64 = (PI4_Q30 as i64) - (phi as i64);
    let psi: u64 = if psi0 < 0 {
        0
    } else {
        psi0 as u64
    };
    if o == 0 {
        (cos_q30(phi), sin_q30(phi))
    } else if o == 1 {
        (sin_q30(psi), cos_q30(psi))
    } else if o == 2 {
        (-sin_q30(phi), cos_q30(phi))
    } else if o == 3 {
        (-cos_q30(psi), sin_q30(psi))
    } else if o == 4 {
        (-cos_q30(phi), -sin_q30(phi))
    } else if o == 5 {
        (-sin_q30(psi), -cos_q30(psi))
    } else if o == 6 {
        (sin_q30(phi), -cos_q30(phi))
    } else {
        (cos_q30(psi), -sin_q30(psi))
    }
}

} // verus!
