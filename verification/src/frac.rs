use vstd::prelude::*;
use vstd::arithmetic::div_mod::{
    lemma_fundamental_div_mod, lemma_mod_multiples_basic, lemma_mod_self_0, lemma_small_mod,
};

use crate::rat::{rat_add, rat_div, rat_eq, rat_le, rat_lt, rat_mul, rat_neg, rat_sub, rat_zero, Rat};

verus! {

/// Greatest common divisor by Euclid's rule.
pub open spec fn gcd_s(a: nat, b: nat) -> nat
    decreases b,
{
    if b == 0 {
        a
    } else {
        gcd_s(b, a % b)
    }
}

/// The greatest common divisor of two numbers, not both zero, is
/// positive and divides both.
pub proof fn lemma_gcd_divides(a: nat, b: nat)
    requires
        a > 0 || b > 0,
    ensures
        gcd_s(a, b) > 0,
        a as int % (gcd_s(a, b) as int) == 0,
        b as int % (gcd_s(a, b) as int) == 0,
    decreases b,
{
    if b == 0 {
        lemma_mod_self_0(a as int);
        lemma_small_mod(0, a);
    } else {
        lemma_gcd_divides(b, a % b);
        let g = gcd_s(b, a % b) as int;
        lemma_fundamental_div_mod(a as int, b as int);
        lemma_fundamental_div_mod(b as int, g);
        lemma_fundamental_div_mod((a % b) as int, g);
        let q = a as int / b as int;
        let b1 = b as int / g;
        let r1 = (a % b) as int / g;
        assert(a as int == (b1 * q + r1) * g) by (nonlinear_arith)
            requires
                a as int == b as int * q + (a % b) as int,
                b as int == g * b1 + 0,
                (a % b) as int == g * r1 + 0,
        ;
        lemma_mod_multiples_basic(b1 * q + r1, g);
    }
}

pub open spec fn abs_i(n: int) -> int {
    if n < 0 {
        -n
    } else {
        n
    }
}

/// An exact rational number: `num / den`, with `den >= 1`. All
/// constructors reduce by the greatest common divisor; a value whose
/// reduced numerator or denominator does not fit in `i64` is reported
/// as absence rather than rounded, so every `Frac` held by the
/// library denotes its rational value exactly.
#[derive(Clone, Copy, PartialEq, Eq, Structural, Debug)]
pub struct Frac {
    pub num: i64,
    pub den: i64,
}

pub const MAX_PART: i64 = 0x7fff_ffff_ffff_ffff;

impl View for Frac {
    type V = Rat;

    open spec fn view(&self) -> Rat {
        Rat { n: self.num as int, d: self.den as int }
    }
}

/// What a reduction of `n0 / d0` to an `i64`-representable fraction
/// returns: the sign is moved to the numerator, both parts are divided
/// by their greatest common divisor, and absence is returned where the
/// reduced parts do not fit.
pub open spec fn norm_spec(n0: int, d0: int) -> Option<Frac>
    recommends
        d0 != 0,
{
    let n = if d0 < 0 {
        -n0
    } else {
        n0
    };
    let d = if d0 < 0 {
        -d0
    } else {
        d0
    };
    let g = gcd_s(abs_i(n) as nat, d as nat) as int;
    let rn_abs = abs_i(n) / g;
    let rd = d / g;
    let rn = if n < 0 {
        -rn_abs
    } else {
        rn_abs
    };
    if rn_abs <= MAX_PART as int && rd <= MAX_PART as int {
        Some(Frac { num: rn as i64, den: rd as i64 })
    } else {
        None
    }
}

/// Bound on a product of two `i64`-range factors.
proof fn lemma_prod_bound(a: int, b: int) by (nonlinear_arith)
    requires
        -0x7fff_ffff_ffff_ffff <= a <= 0x7fff_ffff_ffff_ffff,
        -0x7fff_ffff_ffff_ffff <= b <= 0x7fff_ffff_ffff_ffff,
    ensures
        -0x3fff_ffff_ffff_ffff_0000_0000_0000_0001 <= a * b,
        a * b <= 0x3fff_ffff_ffff_ffff_0000_0000_0000_0001,
{
}

/// Euclid's loop.
fn gcd_u(a0: u128, b0: u128) -> (g: u128)
    requires
        a0 > 0 || b0 > 0,
    ensures
        g as nat == gcd_s(a0 as nat, b0 as nat),
        g > 0,
{
    let mut a: u128 = a0;
    let mut b: u128 = b0;
    while b != 0
        invariant
            gcd_s(a as nat, b as nat) == gcd_s(a0 as nat, b0 as nat),
            a > 0 || b > 0,
        decreases b,
    {
        let r: u128 = a % b;
        a = b;
        b = r;
    }
    proof {
        lemma_gcd_divides(a0 as nat, b0 as nat);
    }
    a
}

/// Reduce `n / d` and fit it into a `Frac`.
pub(crate) fn norm(n: i128, d: i128) -> (r: Option<Frac>)
    requires
        d != 0,
        n > i128::MIN,
        d > i128::MIN,
    ensures
        r == norm_spec(n as int, d as int),
        r matches Some(f) ==> f.wf() && (f.num as int) * (d as int) == (n as int) * (f.den as int)
            && ((f.num == 0) <==> (n == 0)),
{
    let n2: i128 = if d < 0 {
        -n
    } else {
        n
    };
    let d2: i128 = if d < 0 {
        -d
    } else {
        d
    };
    let na: u128 = if n2 < 0 {
        (-n2) as u128
    } else {
        n2 as u128
    };
    let du: u128 = d2 as u128;
    let g: u128 = gcd_u(na, du);
    proof {
        lemma_gcd_divides(na as nat, du as nat);
        lemma_fundamental_div_mod(na as int, g as int);
        lemma_fundamental_div_mod(du as int, g as int);
    }
    let rn_abs: u128 = na / g;
    let rd: u128 = du / g;
    proof {
        assert(na as int == g as int * (rn_abs as int));
        assert(du as int == g as int * (rd as int));
        assert(rd >= 1) by (nonlinear_arith)
            requires
                du as int == g as int * (rd as int),
                du > 0,
                g > 0,
        ;
    }
    if rn_abs <= 0x7fff_ffff_ffff_ffff && rd <= 0x7fff_ffff_ffff_ffff {
        let num: i64 = if n2 < 0 {
            -(rn_abs as i64)
        } else {
            rn_abs as i64
        };
        let f = Frac { num, den: rd as i64 };
        proof {
            assert((f.num as int) * (d as int) == (n as int) * (f.den as int)) by (nonlinear_arith)
                requires
                    na as int == g as int * (rn_abs as int),
                    du as int == g as int * (rd as int),
                    g > 0,
                    ({
                        let nn = if (d as int) < 0 { -(n as int) } else { n as int };
                        let dd = if (d as int) < 0 { -(d as int) } else { d as int };
                        nn == n2 as int && dd == du as int
                            && (if (n2 as int) < 0 { na as int == -(n2 as int) && f.num as int == -(rn_abs as int) }
                                else { na as int == n2 as int && f.num as int == rn_abs as int })
                            && f.den as int == rd as int
                    }),
            ;
            assert((f.num == 0) <==> (n == 0)) by (nonlinear_arith)
                requires
                    na as int == g as int * (rn_abs as int),
                    g > 0,
                    (f.num == 0) <==> (rn_abs == 0),
                    (na == 0) <==> (n == 0),
            ;
        }
        Some(f)
    } else {
        None
    }
}

impl Frac {
    /// A valid stored rational: positive denominator, and a numerator
    /// whose negation still fits (so negation never overflows).
    pub open spec fn wf(self) -> bool {
        1 <= self.den && -(MAX_PART as int) <= self.num
    }

    pub open spec fn new_spec(num: i64, den: i64) -> Option<Frac> {
        if den == 0 {
            None
        } else {
            norm_spec(num as int, den as int)
        }
    }

    /// Make a reduced rational out of `num / den`; absence when `den`
    /// is zero.
    pub fn new(num: i64, den: i64) -> (r: Option<Frac>)
        ensures
            r == Self::new_spec(num, den),
            r matches Some(f) ==> f.wf() && rat_eq(f@, Rat { n: num as int, d: den as int }),
    {
        if den == 0 {
            None
        } else {
            norm(num as i128, den as i128)
        }
    }

    /// The rational `n / 1`.
    pub fn from_int(n: i64) -> (r: Frac)
        requires
            n > i64::MIN,
        ensures
            r.wf(),
            r@ == (Rat { n: n as int, d: 1 }),
    {
        Frac { num: n, den: 1 }
    }

    pub fn zero() -> (r: Frac)
        ensures
            r.wf(),
            r@ == rat_zero(),
            r.num == 0 && r.den == 1,
    {
        Frac { num: 0, den: 1 }
    }

    pub open spec fn add_spec(self, other: Frac) -> Option<Frac> {
        norm_spec(self.num * other.den + other.num * self.den, self.den * other.den)
    }

    /// Exact sum; absence when the reduced result does not fit.
    pub fn add(self, other: Frac) -> (r: Option<Frac>)
        requires
            self.wf(),
            other.wf(),
        ensures
            r == self.add_spec(other),
            r matches Some(f) ==> f.wf() && rat_eq(f@, rat_add(self@, other@)),
    {
        proof {
            lemma_prod_bound(self.num as int, other.den as int);
            lemma_prod_bound(other.num as int, self.den as int);
            lemma_prod_bound(self.den as int, other.den as int);
        }
        let n: i128 = (self.num as i128) * (other.den as i128) + (other.num as i128) * (self.den as i128);
        let d: i128 = (self.den as i128) * (other.den as i128);
        proof {
            assert(d >= 1) by (nonlinear_arith)
                requires
                    d as int == (self.den as int) * (other.den as int),
                    self.den >= 1,
                    other.den >= 1,
            ;
        }
        norm(n, d)
    }

    pub open spec fn sub_spec(self, other: Frac) -> Option<Frac> {
        norm_spec(self.num * other.den - other.num * self.den, self.den * other.den)
    }

    /// Exact difference; absence when the reduced result does not fit.
    pub fn sub(self, other: Frac) -> (r: Option<Frac>)
        requires
            self.wf(),
            other.wf(),
        ensures
            r == self.sub_spec(other),
            r matches Some(f) ==> f.wf() && rat_eq(f@, rat_sub(self@, other@)),
    {
        proof {
            lemma_prod_bound(self.num as int, other.den as int);
            lemma_prod_bound(other.num as int, self.den as int);
            lemma_prod_bound(self.den as int, other.den as int);
        }
        let n: i128 = (self.num as i128) * (other.den as i128) - (other.num as i128) * (self.den as i128);
        let d: i128 = (self.den as i128) * (other.den as i128);
        proof {
            assert(d >= 1) by (nonlinear_arith)
                requires
                    d as int == (self.den as int) * (other.den as int),
                    self.den >= 1,
                    other.den >= 1,
            ;
        }
        norm(n, d)
    }

    pub open spec fn mul_spec(self, other: Frac) -> Option<Frac> {
        norm_spec(self.num * other.num, self.den * other.den)
    }

    /// Exact product; absence when the reduced result does not fit.
    pub fn mul(self, other: Frac) -> (r: Option<Frac>)
        requires
            self.wf(),
            other.wf(),
        ensures
            r == self.mul_spec(other),
            r matches Some(f) ==> f.wf() && rat_eq(f@, rat_mul(self@, other@)),
    {
        proof {
            lemma_prod_bound(self.num as int, other.num as int);
            lemma_prod_bound(self.den as int, other.den as int);
        }
        let n: i128 = (self.num as i128) * (other.num as i128);
        let d: i128 = (self.den as i128) * (other.den as i128);
        proof {
            assert(d >= 1) by (nonlinear_arith)
                requires
                    d as int == (self.den as int) * (other.den as int),
                    self.den >= 1,
                    other.den >= 1,
            ;
        }
        norm(n, d)
    }

    pub open spec fn div_spec(self, other: Frac) -> Option<Frac> {
        norm_spec(self.num * other.den, self.den * other.num)
    }

    /// Exact quotient; absence when the reduced result does not fit.
    pub fn div(self, other: Frac) -> (r: Option<Frac>)
        requires
            self.wf(),
            other.wf(),
            !rat_eq(other@, rat_zero()),
        ensures
            r == self.div_spec(other),
            r matches Some(f) ==> f.wf() && rat_eq(f@, rat_div(self@, other@)),
    {
        proof {
            lemma_prod_bound(self.num as int, other.den as int);
            lemma_prod_bound(self.den as int, other.num as int);
        }
        let n: i128 = (self.num as i128) * (other.den as i128);
        let d: i128 = (self.den as i128) * (other.num as i128);
        proof {
            assert(other.num != 0);
            assert(d != 0) by (nonlinear_arith)
                requires
                    d as int == (self.den as int) * (other.num as int),
                    self.den >= 1,
                    other.num != 0,
            ;
        }
        norm(n, d)
    }

    pub open spec fn neg_spec(self) -> Frac {
        Frac { num: (-self.num) as i64, den: self.den }
    }

    /// Exact negation; never fails.
    pub fn neg(self) -> (r: Frac)
        requires
            self.wf(),
        ensures
            r == self.neg_spec(),
            r.wf(),
            r@ == rat_neg(self@),
            r.num as int == -(self.num as int),
            r.den == self.den,
    {
        Frac { num: -self.num, den: self.den }
    }

    /// Whether the two stored rationals denote the same number.
    pub fn eq_val(self, other: Frac) -> (r: bool)
        requires
            self.wf(),
            other.wf(),
        ensures
            r == rat_eq(self@, other@),
    {
        proof {
            lemma_prod_bound(self.num as int, other.den as int);
            lemma_prod_bound(other.num as int, self.den as int);
        }
        (self.num as i128) * (other.den as i128) == (other.num as i128) * (self.den as i128)
    }

    /// Whether `self <= other` as rational numbers.
    pub fn le_val(self, other: Frac) -> (r: bool)
        requires
            self.wf(),
            other.wf(),
        ensures
            r == rat_le(self@, other@),
    {
        proof {
            lemma_prod_bound(self.num as int, other.den as int);
            lemma_prod_bound(other.num as int, self.den as int);
        }
        (self.num as i128) * (other.den as i128) <= (other.num as i128) * (self.den as i128)
    }

    /// Whether the stored rational is negative.
    pub fn is_neg(self) -> (r: bool)
        requires
            self.wf(),
        ensures
            r == rat_lt(self@, rat_zero()),
    {
        self.num < 0
    }

    /// Whether the stored rational is zero.
    pub fn is_zero(self) -> (r: bool)
        requires
            self.wf(),
        ensures
            r == rat_eq(self@, rat_zero()),
    {
        self.num == 0
    }
}

} // verus!
