use vstd::prelude::*;
use vstd::arithmetic::mul::{
    lemma_mul_is_associative, lemma_mul_is_commutative, lemma_mul_is_distributive_add,
    lemma_mul_is_distributive_add_other_way, lemma_mul_is_distributive_sub,
    lemma_mul_is_distributive_sub_other_way,
};

verus! {

/// A rational value as used in specifications: a numerator and a
/// denominator, both unbounded integers. Executable code stores
/// rationals as `Frac`; its view is a `Rat`. Two `Rat`s denote the
/// same rational number when `rat_eq` holds; the denominator is never
/// zero where a `Rat` stands for a value.
pub struct Rat {
    pub n: int,
    pub d: int,
}

pub open spec fn rat_wf(a: Rat) -> bool {
    a.d != 0
}

/// `a` and `b` denote the same rational number (cross multiplication).
pub open spec fn rat_eq(a: Rat, b: Rat) -> bool {
    a.n * b.d == b.n * a.d
}

/// `a <= b`, meaningful when both denominators are positive.
pub open spec fn rat_le(a: Rat, b: Rat) -> bool {
    a.n * b.d <= b.n * a.d
}

/// `a < b`, meaningful when both denominators are positive.
pub open spec fn rat_lt(a: Rat, b: Rat) -> bool {
    a.n * b.d < b.n * a.d
}

pub open spec fn rat_zero() -> Rat {
    Rat { n: 0, d: 1 }
}

pub open spec fn rat_int(k: int) -> Rat {
    Rat { n: k, d: 1 }
}

pub open spec fn rat_add(a: Rat, b: Rat) -> Rat {
    Rat { n: a.n * b.d + b.n * a.d, d: a.d * b.d }
}

pub open spec fn rat_sub(a: Rat, b: Rat) -> Rat {
    Rat { n: a.n * b.d - b.n * a.d, d: a.d * b.d }
}

pub open spec fn rat_mul(a: Rat, b: Rat) -> Rat {
    Rat { n: a.n * b.n, d: a.d * b.d }
}

pub open spec fn rat_div(a: Rat, b: Rat) -> Rat {
    Rat { n: a.n * b.d, d: a.d * b.n }
}

pub open spec fn rat_neg(a: Rat) -> Rat {
    Rat { n: -a.n, d: a.d }
}

/// A point (or a plane vector) with rational coordinates, as used in
/// specifications.
pub struct RPoint {
    pub x: Rat,
    pub y: Rat,
}

pub open spec fn rp_wf(p: RPoint) -> bool {
    rat_wf(p.x) && rat_wf(p.y)
}

/// The two points denote the same position.
pub open spec fn rp_eq(a: RPoint, b: RPoint) -> bool {
    rat_eq(a.x, b.x) && rat_eq(a.y, b.y)
}

pub open spec fn rp_zero() -> RPoint {
    RPoint { x: rat_zero(), y: rat_zero() }
}

pub open spec fn rp_add(a: RPoint, b: RPoint) -> RPoint {
    RPoint { x: rat_add(a.x, b.x), y: rat_add(a.y, b.y) }
}

pub open spec fn rp_sub(a: RPoint, b: RPoint) -> RPoint {
    RPoint { x: rat_sub(a.x, b.x), y: rat_sub(a.y, b.y) }
}

pub open spec fn rp_scale(a: RPoint, f: Rat) -> RPoint {
    RPoint { x: rat_mul(a.x, f), y: rat_mul(a.y, f) }
}

/// Scalar product of two plane vectors.
pub open spec fn rp_dot(a: RPoint, b: RPoint) -> Rat {
    rat_add(rat_mul(a.x, b.x), rat_mul(a.y, b.y))
}

/// Cross product (signed area) of two plane vectors.
pub open spec fn rp_cross(a: RPoint, b: RPoint) -> Rat {
    rat_sub(rat_mul(a.x, b.y), rat_mul(a.y, b.x))
}

/// The sum, difference and product of well-formed values are
/// well-formed (their denominators stay nonzero).
pub proof fn lemma_rat_ops_wf(a: Rat, b: Rat)
    requires
        rat_wf(a),
        rat_wf(b),
    ensures
        rat_wf(rat_add(a, b)),
        rat_wf(rat_sub(a, b)),
        rat_wf(rat_mul(a, b)),
        rat_wf(rat_neg(a)),
        b.n != 0 ==> rat_wf(rat_div(a, b)),
{
    vstd::arithmetic::mul::lemma_mul_nonzero(a.d, b.d);
    vstd::arithmetic::mul::lemma_mul_nonzero(a.d, b.n);
}

/// The vector operations on well-formed points are well-formed.
pub proof fn lemma_rp_ops_wf(a: RPoint, b: RPoint)
    requires
        rp_wf(a),
        rp_wf(b),
    ensures
        rp_wf(rp_add(a, b)),
        rp_wf(rp_sub(a, b)),
        rat_wf(rp_dot(a, b)),
        rat_wf(rp_cross(a, b)),
{
    lemma_rat_ops_wf(a.x, b.x);
    lemma_rat_ops_wf(a.y, b.y);
    lemma_rat_ops_wf(a.x, b.y);
    lemma_rat_ops_wf(a.y, b.x);
    lemma_rat_ops_wf(rat_mul(a.x, b.x), rat_mul(a.y, b.y));
    lemma_rat_ops_wf(rat_mul(a.x, b.y), rat_mul(a.y, b.x));
}

/// A scaled well-formed vector is well-formed.
pub proof fn lemma_rp_scale_wf(a: RPoint, f: Rat)
    requires
        rp_wf(a),
        rat_wf(f),
    ensures
        rp_wf(rp_scale(a, f)),
{
    lemma_rat_ops_wf(a.x, f);
    lemma_rat_ops_wf(a.y, f);
}

/// Denoting the same number is transitive.
pub proof fn lemma_rat_eq_trans(a: Rat, b: Rat, c: Rat) by (nonlinear_arith)
    requires
        rat_wf(b),
        rat_eq(a, b),
        rat_eq(b, c),
    ensures
        rat_eq(a, c),
{
}

/// Sums of equal values are equal.
pub proof fn lemma_rat_add_cong(a: Rat, a2: Rat, b: Rat, b2: Rat)
    requires
        rat_eq(a, a2),
        rat_eq(b, b2),
    ensures
        rat_eq(rat_add(a, b), rat_add(a2, b2)),
{
    lemma_mul_is_distributive_add_other_way(a2.d * b2.d, a.n * b.d, b.n * a.d);
    lemma_mul_is_distributive_add_other_way(a.d * b.d, a2.n * b2.d, b2.n * a2.d);
    assert((a.n * b.d) * (a2.d * b2.d) == (a2.n * b2.d) * (a.d * b.d)) by (nonlinear_arith)
        requires
            a.n * a2.d == a2.n * a.d,
    ;
    assert((b.n * a.d) * (a2.d * b2.d) == (b2.n * a2.d) * (a.d * b.d)) by (nonlinear_arith)
        requires
            b.n * b2.d == b2.n * b.d,
    ;
}

/// Differences of equal values are equal.
pub proof fn lemma_rat_sub_cong(a: Rat, a2: Rat, b: Rat, b2: Rat)
    requires
        rat_eq(a, a2),
        rat_eq(b, b2),
    ensures
        rat_eq(rat_sub(a, b), rat_sub(a2, b2)),
{
    lemma_mul_is_distributive_sub_other_way(a2.d * b2.d, a.n * b.d, b.n * a.d);
    lemma_mul_is_distributive_sub_other_way(a.d * b.d, a2.n * b2.d, b2.n * a2.d);
    assert((a.n * b.d) * (a2.d * b2.d) == (a2.n * b2.d) * (a.d * b.d)) by (nonlinear_arith)
        requires
            a.n * a2.d == a2.n * a.d,
    ;
    assert((b.n * a.d) * (a2.d * b2.d) == (b2.n * a2.d) * (a.d * b.d)) by (nonlinear_arith)
        requires
            b.n * b2.d == b2.n * b.d,
    ;
}

/// Products of equal values are equal.
pub proof fn lemma_rat_mul_cong(a: Rat, a2: Rat, b: Rat, b2: Rat)
    requires
        rat_eq(a, a2),
        rat_eq(b, b2),
    ensures
        rat_eq(rat_mul(a, b), rat_mul(a2, b2)),
{
    assert((a.n * b.n) * (a2.d * b2.d) == (a2.n * b2.n) * (a.d * b.d)) by (nonlinear_arith)
        requires
            a.n * a2.d == a2.n * a.d,
            b.n * b2.d == b2.n * b.d,
    ;
}

/// Multiplying a quotient by its divisor gives back the dividend.
pub proof fn lemma_rat_div_mul_cancel(a: Rat, b: Rat) by (nonlinear_arith)
    requires
        rat_wf(a),
        rat_wf(b),
        b.n != 0,
    ensures
        rat_eq(rat_mul(rat_div(a, b), b), a),
{
}

/// A difference denotes zero exactly when its operands denote the same
/// number.
pub proof fn lemma_rat_sub_eq_zero(a: Rat, b: Rat) by (nonlinear_arith)
    requires
        rat_wf(a),
        rat_wf(b),
    ensures
        rat_eq(rat_sub(a, b), rat_zero()) <==> rat_eq(a, b),
{
}

/// A value plus its negation denotes zero.
pub proof fn lemma_rat_add_neg(a: Rat) by (nonlinear_arith)
    ensures
        rat_eq(rat_add(a, rat_neg(a)), rat_zero()),
{
}

/// Negation respects equality of values.
pub proof fn lemma_rat_neg_cong(a: Rat, b: Rat) by (nonlinear_arith)
    requires
        rat_eq(a, b),
    ensures
        rat_eq(rat_neg(a), rat_neg(b)),
{
}

/// Adding a negated value is subtracting the value.
pub proof fn lemma_rat_add_neg_is_sub(a: Rat, b: Rat)
    ensures
        rat_add(a, rat_neg(b)) == rat_sub(a, b),
{
    vstd::arithmetic::mul::lemma_mul_unary_negation(b.n, a.d);
}

/// Multiplying by a negated value negates the product.
pub proof fn lemma_rat_mul_neg_right(a: Rat, b: Rat) by (nonlinear_arith)
    ensures
        rat_mul(a, rat_neg(b)) == rat_neg(rat_mul(a, b)),
{
}

/// Multiplication distributes over a sum of values.
pub proof fn lemma_rat_mul_add_right(a: Rat, b: Rat, c: Rat)
    ensures
        rat_eq(rat_mul(a, rat_add(b, c)), rat_add(rat_mul(a, b), rat_mul(a, c))),
{
    lemma_mul_is_distributive_add(a.n, b.n * c.d, c.n * b.d);
    lemma_mul_is_distributive_add_other_way(
        (a.d * b.d) * (a.d * c.d),
        a.n * (b.n * c.d),
        a.n * (c.n * b.d),
    );
    lemma_mul_is_distributive_add_other_way(
        a.d * (b.d * c.d),
        (a.n * b.n) * (a.d * c.d),
        (a.n * c.n) * (a.d * b.d),
    );
    assert((a.n * (b.n * c.d)) * ((a.d * b.d) * (a.d * c.d)) == ((a.n * b.n) * (a.d * c.d)) * (a.d
        * (b.d * c.d))) by (nonlinear_arith);
    assert((a.n * (c.n * b.d)) * ((a.d * b.d) * (a.d * c.d)) == ((a.n * c.n) * (a.d * b.d)) * (a.d
        * (b.d * c.d))) by (nonlinear_arith);
}

/// Multiplication distributes over a difference of values.
pub proof fn lemma_rat_mul_sub_right(a: Rat, b: Rat, c: Rat)
    ensures
        rat_eq(rat_mul(a, rat_sub(b, c)), rat_sub(rat_mul(a, b), rat_mul(a, c))),
{
    lemma_mul_is_distributive_sub(a.n, b.n * c.d, c.n * b.d);
    lemma_mul_is_distributive_sub_other_way(
        (a.d * b.d) * (a.d * c.d),
        a.n * (b.n * c.d),
        a.n * (c.n * b.d),
    );
    lemma_mul_is_distributive_sub_other_way(
        a.d * (b.d * c.d),
        (a.n * b.n) * (a.d * c.d),
        (a.n * c.n) * (a.d * b.d),
    );
    assert((a.n * (b.n * c.d)) * ((a.d * b.d) * (a.d * c.d)) == ((a.n * b.n) * (a.d * c.d)) * (a.d
        * (b.d * c.d))) by (nonlinear_arith);
    assert((a.n * (c.n * b.d)) * ((a.d * b.d) * (a.d * c.d)) == ((a.n * c.n) * (a.d * b.d)) * (a.d
        * (b.d * c.d))) by (nonlinear_arith);
}

/// Two sums subtracted pairwise: `(p + q) - (r + s)` denotes
/// `(p - r) + (q - s)`.
pub proof fn lemma_rat_sub_of_adds(p: Rat, q: Rat, r: Rat, s: Rat)
    ensures
        rat_eq(rat_sub(rat_add(p, q), rat_add(r, s)), rat_add(rat_sub(p, r), rat_sub(q, s))),
{
    let a = (p.n * q.d) * (r.d * s.d);
    let b = (q.n * p.d) * (r.d * s.d);
    let c = (r.n * s.d) * (p.d * q.d);
    let e = (s.n * r.d) * (p.d * q.d);
    let a2 = (p.n * r.d) * (q.d * s.d);
    let c2 = (r.n * p.d) * (q.d * s.d);
    let b2 = (q.n * s.d) * (p.d * r.d);
    let e2 = (s.n * q.d) * (p.d * r.d);
    let ld = (p.d * q.d) * (r.d * s.d);
    let rd = (p.d * r.d) * (q.d * s.d);
    lemma_mul_is_distributive_add_other_way(r.d * s.d, p.n * q.d, q.n * p.d);
    lemma_mul_is_distributive_add_other_way(p.d * q.d, r.n * s.d, s.n * r.d);
    lemma_mul_is_distributive_sub_other_way(q.d * s.d, p.n * r.d, r.n * p.d);
    lemma_mul_is_distributive_sub_other_way(p.d * r.d, q.n * s.d, s.n * q.d);
    // the two cross-multiplied sides, as sums of four products each
    lemma_mul_is_distributive_sub_other_way(rd, a + b, c + e);
    lemma_mul_is_distributive_add_other_way(rd, a, b);
    lemma_mul_is_distributive_add_other_way(rd, c, e);
    lemma_mul_is_distributive_add_other_way(ld, a2 - c2, b2 - e2);
    lemma_mul_is_distributive_sub_other_way(ld, a2, c2);
    lemma_mul_is_distributive_sub_other_way(ld, b2, e2);
    // the four products match pairwise
    assert(a * rd == a2 * ld) by (nonlinear_arith)
        requires
            a == (p.n * q.d) * (r.d * s.d),
            a2 == (p.n * r.d) * (q.d * s.d),
            ld == (p.d * q.d) * (r.d * s.d),
            rd == (p.d * r.d) * (q.d * s.d),
    ;
    assert(b * rd == b2 * ld) by (nonlinear_arith)
        requires
            b == (q.n * p.d) * (r.d * s.d),
            b2 == (q.n * s.d) * (p.d * r.d),
            ld == (p.d * q.d) * (r.d * s.d),
            rd == (p.d * r.d) * (q.d * s.d),
    ;
    assert(c * rd == c2 * ld) by (nonlinear_arith)
        requires
            c == (r.n * s.d) * (p.d * q.d),
            c2 == (r.n * p.d) * (q.d * s.d),
            ld == (p.d * q.d) * (r.d * s.d),
            rd == (p.d * r.d) * (q.d * s.d),
    ;
    assert(e * rd == e2 * ld) by (nonlinear_arith)
        requires
            e == (s.n * r.d) * (p.d * q.d),
            e2 == (s.n * q.d) * (p.d * r.d),
            ld == (p.d * q.d) * (r.d * s.d),
            rd == (p.d * r.d) * (q.d * s.d),
    ;
}

/// Two sums added pairwise: `(p + q) + (r + s)` denotes
/// `(p + r) + (q + s)`.
pub proof fn lemma_rat_add_of_adds(p: Rat, q: Rat, r: Rat, s: Rat)
    ensures
        rat_eq(rat_add(rat_add(p, q), rat_add(r, s)), rat_add(rat_add(p, r), rat_add(q, s))),
{
    let a = (p.n * q.d) * (r.d * s.d);
    let b = (q.n * p.d) * (r.d * s.d);
    let c = (r.n * s.d) * (p.d * q.d);
    let e = (s.n * r.d) * (p.d * q.d);
    let a2 = (p.n * r.d) * (q.d * s.d);
    let c2 = (r.n * p.d) * (q.d * s.d);
    let b2 = (q.n * s.d) * (p.d * r.d);
    let e2 = (s.n * q.d) * (p.d * r.d);
    let ld = (p.d * q.d) * (r.d * s.d);
    let rd = (p.d * r.d) * (q.d * s.d);
    lemma_mul_is_distributive_add_other_way(r.d * s.d, p.n * q.d, q.n * p.d);
    lemma_mul_is_distributive_add_other_way(p.d * q.d, r.n * s.d, s.n * r.d);
    lemma_mul_is_distributive_add_other_way(q.d * s.d, p.n * r.d, r.n * p.d);
    lemma_mul_is_distributive_add_other_way(p.d * r.d, q.n * s.d, s.n * q.d);
    lemma_mul_is_distributive_add_other_way(rd, a + b, c + e);
    lemma_mul_is_distributive_add_other_way(rd, a, b);
    lemma_mul_is_distributive_add_other_way(rd, c, e);
    lemma_mul_is_distributive_add_other_way(ld, a2 + c2, b2 + e2);
    lemma_mul_is_distributive_add_other_way(ld, a2, c2);
    lemma_mul_is_distributive_add_other_way(ld, b2, e2);
    assert(a * rd == a2 * ld) by (nonlinear_arith)
        requires
            a == (p.n * q.d) * (r.d * s.d),
            a2 == (p.n * r.d) * (q.d * s.d),
            ld == (p.d * q.d) * (r.d * s.d),
            rd == (p.d * r.d) * (q.d * s.d),
    ;
    assert(b * rd == b2 * ld) by (nonlinear_arith)
        requires
            b == (q.n * p.d) * (r.d * s.d),
            b2 == (q.n * s.d) * (p.d * r.d),
            ld == (p.d * q.d) * (r.d * s.d),
            rd == (p.d * r.d) * (q.d * s.d),
    ;
    assert(c * rd == c2 * ld) by (nonlinear_arith)
        requires
            c == (r.n * s.d) * (p.d * q.d),
            c2 == (r.n * p.d) * (q.d * s.d),
            ld == (p.d * q.d) * (r.d * s.d),
            rd == (p.d * r.d) * (q.d * s.d),
    ;
    assert(e * rd == e2 * ld) by (nonlinear_arith)
        requires
            e == (s.n * r.d) * (p.d * q.d),
            e2 == (s.n * q.d) * (p.d * r.d),
            ld == (p.d * q.d) * (r.d * s.d),
            rd == (p.d * r.d) * (q.d * s.d),
    ;
}

/// Multiplication of values is associative up to representation.
pub proof fn lemma_rat_mul_assoc(a: Rat, b: Rat, c: Rat)
    ensures
        rat_mul(a, rat_mul(b, c)) == rat_mul(rat_mul(a, b), c),
{
    lemma_mul_is_associative(a.n, b.n, c.n);
    lemma_mul_is_associative(a.d, b.d, c.d);
}

/// Multiplication of values is commutative up to representation.
pub proof fn lemma_rat_mul_comm(a: Rat, b: Rat)
    ensures
        rat_mul(a, b) == rat_mul(b, a),
{
    lemma_mul_is_commutative(a.n, b.n);
    lemma_mul_is_commutative(a.d, b.d);
}

/// Adding a vector and subtracting the same point are inverse moves.
pub proof fn lemma_rp_add_sub_cancel(a: RPoint, b: RPoint)
    requires
        rp_wf(a),
        rp_wf(b),
    ensures
        rp_eq(rp_sub(rp_add(a, b), a), b),
{
    assert(rat_eq(rat_sub(rat_add(a.x, b.x), a.x), b.x)) by (nonlinear_arith)
        requires
            a.x.d != 0,
            b.x.d != 0,
    ;
    assert(rat_eq(rat_sub(rat_add(a.y, b.y), a.y), b.y)) by (nonlinear_arith)
        requires
            a.y.d != 0,
            b.y.d != 0,
    ;
}

/// `(a + v) - t` denotes the same vector as `(a - t) + v`.
pub proof fn lemma_rp_sub_add_shuffle(a: RPoint, v: RPoint, t: RPoint)
    requires
        rp_wf(a),
        rp_wf(v),
        rp_wf(t),
    ensures
        rp_eq(rp_sub(rp_add(a, v), t), rp_add(rp_sub(a, t), v)),
{
    assert(rat_add(t.x, rat_zero()) == t.x);
    assert(rat_sub(v.x, rat_zero()) == v.x);
    lemma_rat_sub_of_adds(a.x, v.x, t.x, rat_zero());
    assert(rat_add(t.y, rat_zero()) == t.y);
    assert(rat_sub(v.y, rat_zero()) == v.y);
    lemma_rat_sub_of_adds(a.y, v.y, t.y, rat_zero());
}

/// The cross product of a vector with a scaling of itself is zero.
pub proof fn lemma_cross_scale_self(d: RPoint, f: Rat) by (nonlinear_arith)
    ensures
        rat_eq(rp_cross(d, rp_scale(d, f)), rat_zero()),
{
}

/// The cross product distributes over a sum in its second argument.
pub proof fn lemma_cross_add_right(e: RPoint, u: RPoint, v: RPoint)
    requires
        rp_wf(e),
        rp_wf(u),
        rp_wf(v),
    ensures
        rat_eq(rp_cross(e, rp_add(u, v)), rat_add(rp_cross(e, u), rp_cross(e, v))),
{
    let a = rat_mul(e.x, u.y);
    let b = rat_mul(e.x, v.y);
    let c = rat_mul(e.y, u.x);
    let g = rat_mul(e.y, v.x);
    lemma_rat_mul_add_right(e.x, u.y, v.y);
    lemma_rat_mul_add_right(e.y, u.x, v.x);
    lemma_rat_sub_cong(
        rat_mul(e.x, rat_add(u.y, v.y)),
        rat_add(a, b),
        rat_mul(e.y, rat_add(u.x, v.x)),
        rat_add(c, g),
    );
    lemma_rat_sub_of_adds(a, b, c, g);
    lemma_rat_ops_wf(e.x, u.y);
    lemma_rat_ops_wf(e.x, v.y);
    lemma_rat_ops_wf(e.y, u.x);
    lemma_rat_ops_wf(e.y, v.x);
    lemma_rat_ops_wf(a, b);
    lemma_rat_ops_wf(c, g);
    lemma_rat_ops_wf(rat_add(a, b), rat_add(c, g));
    lemma_rat_eq_trans(
        rp_cross(e, rp_add(u, v)),
        rat_sub(rat_add(a, b), rat_add(c, g)),
        rat_add(rp_cross(e, u), rp_cross(e, v)),
    );
}

/// Scaling the second argument scales the cross product.
pub proof fn lemma_cross_scale_right(e: RPoint, d: RPoint, f: Rat)
    ensures
        rat_eq(rp_cross(e, rp_scale(d, f)), rat_mul(f, rp_cross(e, d))),
{
    lemma_rat_mul_assoc(e.x, d.y, f);
    lemma_rat_mul_comm(rat_mul(e.x, d.y), f);
    lemma_rat_mul_assoc(e.y, d.x, f);
    lemma_rat_mul_comm(rat_mul(e.y, d.x), f);
    lemma_rat_mul_sub_right(f, rat_mul(e.x, d.y), rat_mul(e.y, d.x));
}

/// The scalar product distributes over a sum in its second argument.
pub proof fn lemma_dot_add_right(e: RPoint, u: RPoint, v: RPoint)
    requires
        rp_wf(e),
        rp_wf(u),
        rp_wf(v),
    ensures
        rat_eq(rp_dot(e, rp_add(u, v)), rat_add(rp_dot(e, u), rp_dot(e, v))),
{
    let a = rat_mul(e.x, u.x);
    let b = rat_mul(e.x, v.x);
    let c = rat_mul(e.y, u.y);
    let g = rat_mul(e.y, v.y);
    lemma_rat_mul_add_right(e.x, u.x, v.x);
    lemma_rat_mul_add_right(e.y, u.y, v.y);
    lemma_rat_add_cong(
        rat_mul(e.x, rat_add(u.x, v.x)),
        rat_add(a, b),
        rat_mul(e.y, rat_add(u.y, v.y)),
        rat_add(c, g),
    );
    lemma_rat_add_of_adds(a, b, c, g);
    lemma_rat_ops_wf(e.x, u.x);
    lemma_rat_ops_wf(e.x, v.x);
    lemma_rat_ops_wf(e.y, u.y);
    lemma_rat_ops_wf(e.y, v.y);
    lemma_rat_ops_wf(a, b);
    lemma_rat_ops_wf(c, g);
    lemma_rat_ops_wf(rat_add(a, b), rat_add(c, g));
    lemma_rat_eq_trans(
        rp_dot(e, rp_add(u, v)),
        rat_add(rat_add(a, b), rat_add(c, g)),
        rat_add(rp_dot(e, u), rp_dot(e, v)),
    );
}

/// Scaling the second argument scales the scalar product.
pub proof fn lemma_dot_scale_right(e: RPoint, d: RPoint, f: Rat)
    ensures
        rat_eq(rp_dot(e, rp_scale(d, f)), rat_mul(f, rp_dot(e, d))),
{
    lemma_rat_mul_assoc(e.x, d.x, f);
    lemma_rat_mul_comm(rat_mul(e.x, d.x), f);
    lemma_rat_mul_assoc(e.y, d.y, f);
    lemma_rat_mul_comm(rat_mul(e.y, d.y), f);
    lemma_rat_mul_add_right(f, rat_mul(e.x, d.x), rat_mul(e.y, d.y));
}

/// Sums of points denoting the same positions denote the same position.
pub proof fn lemma_rp_add_cong(a: RPoint, a2: RPoint, b: RPoint, b2: RPoint)
    requires
        rp_eq(a, a2),
        rp_eq(b, b2),
    ensures
        rp_eq(rp_add(a, b), rp_add(a2, b2)),
{
    lemma_rat_add_cong(a.x, a2.x, b.x, b2.x);
    lemma_rat_add_cong(a.y, a2.y, b.y, b2.y);
}

/// Differences of points denoting the same positions denote the same
/// vector.
pub proof fn lemma_rp_sub_cong(a: RPoint, a2: RPoint, b: RPoint, b2: RPoint)
    requires
        rp_eq(a, a2),
        rp_eq(b, b2),
    ensures
        rp_eq(rp_sub(a, b), rp_sub(a2, b2)),
{
    lemma_rat_sub_cong(a.x, a2.x, b.x, b2.x);
    lemma_rat_sub_cong(a.y, a2.y, b.y, b2.y);
}

/// Scaling respects equality of values.
pub proof fn lemma_rp_scale_cong(a: RPoint, a2: RPoint, f: Rat, f2: Rat)
    requires
        rp_eq(a, a2),
        rat_eq(f, f2),
    ensures
        rp_eq(rp_scale(a, f), rp_scale(a2, f2)),
{
    lemma_rat_mul_cong(a.x, a2.x, f, f2);
    lemma_rat_mul_cong(a.y, a2.y, f, f2);
}

/// The scalar product respects equality of values.
pub proof fn lemma_rp_dot_cong(a: RPoint, a2: RPoint, b: RPoint, b2: RPoint)
    requires
        rp_eq(a, a2),
        rp_eq(b, b2),
    ensures
        rat_eq(rp_dot(a, b), rp_dot(a2, b2)),
{
    lemma_rat_mul_cong(a.x, a2.x, b.x, b2.x);
    lemma_rat_mul_cong(a.y, a2.y, b.y, b2.y);
    lemma_rat_add_cong(rat_mul(a.x, b.x), rat_mul(a2.x, b2.x), rat_mul(a.y, b.y), rat_mul(a2.y, b2.y));
}

/// The cross product respects equality of values.
pub proof fn lemma_rp_cross_cong(a: RPoint, a2: RPoint, b: RPoint, b2: RPoint)
    requires
        rp_eq(a, a2),
        rp_eq(b, b2),
    ensures
        rat_eq(rp_cross(a, b), rp_cross(a2, b2)),
{
    lemma_rat_mul_cong(a.x, a2.x, b.y, b2.y);
    lemma_rat_mul_cong(a.y, a2.y, b.x, b2.x);
    lemma_rat_sub_cong(rat_mul(a.x, b.y), rat_mul(a2.x, b2.y), rat_mul(a.y, b.x), rat_mul(a2.y, b2.x));
}




/// Addition of values commutes up to representation.
pub proof fn lemma_rat_add_comm(a: Rat, b: Rat)
    ensures
        rat_add(a, b) == rat_add(b, a),
{
    lemma_mul_is_commutative(a.d, b.d);
}

/// Splitting a difference at an intermediate value.
pub proof fn lemma_rat_sub_split(a: Rat, b: Rat, c: Rat)
    requires
        rat_wf(a),
        rat_wf(b),
        rat_wf(c),
    ensures
        rat_eq(rat_sub(a, c), rat_add(rat_sub(a, b), rat_sub(b, c))),
{
    let m = rat_sub(rat_add(a, b), rat_add(b, c));
    lemma_rat_add_comm(b, c);
    lemma_rat_sub_of_adds(a, b, c, b);
    lemma_rat_sub_of_adds(a, b, b, c);
    // m denotes (a - c) + (b - b), so it denotes a - c
    assert(rat_eq(rat_sub(b, b), rat_zero())) by {
        lemma_rat_sub_eq_zero(b, b);
    };
    lemma_rat_ops_wf(a, c);
    lemma_rat_ops_wf(b, b);
    lemma_rat_add_cong(rat_sub(a, c), rat_sub(a, c), rat_sub(b, b), rat_zero());
    assert(rat_add(rat_sub(a, c), rat_zero()) == rat_sub(a, c));
    lemma_rat_ops_wf(a, b);
    lemma_rat_ops_wf(b, c);
    lemma_rat_ops_wf(rat_add(a, b), rat_add(b, c));
    lemma_rat_ops_wf(rat_sub(a, c), rat_sub(b, b));
    lemma_rat_eq_trans(rat_sub(a, c), rat_add(rat_sub(a, c), rat_sub(b, b)), m);
    lemma_rat_eq_trans(rat_sub(a, c), m, rat_add(rat_sub(a, b), rat_sub(b, c)));
}

/// Two differences subtracted pairwise: `(p - q) - (r - s)` denotes
/// `(p - r) - (q - s)`.
pub proof fn lemma_rat_sub_of_subs(p: Rat, q: Rat, r: Rat, s: Rat)
    ensures
        rat_eq(rat_sub(rat_sub(p, q), rat_sub(r, s)), rat_sub(rat_sub(p, r), rat_sub(q, s))),
{
    let a = (p.n * q.d) * (r.d * s.d);
    let b = (q.n * p.d) * (r.d * s.d);
    let c = (r.n * s.d) * (p.d * q.d);
    let e = (s.n * r.d) * (p.d * q.d);
    let a2 = (p.n * r.d) * (q.d * s.d);
    let c2 = (r.n * p.d) * (q.d * s.d);
    let b2 = (q.n * s.d) * (p.d * r.d);
    let e2 = (s.n * q.d) * (p.d * r.d);
    let ld = (p.d * q.d) * (r.d * s.d);
    let rd = (p.d * r.d) * (q.d * s.d);
    lemma_mul_is_distributive_sub_other_way(r.d * s.d, p.n * q.d, q.n * p.d);
    lemma_mul_is_distributive_sub_other_way(p.d * q.d, r.n * s.d, s.n * r.d);
    lemma_mul_is_distributive_sub_other_way(q.d * s.d, p.n * r.d, r.n * p.d);
    lemma_mul_is_distributive_sub_other_way(p.d * r.d, q.n * s.d, s.n * q.d);
    lemma_mul_is_distributive_sub_other_way(rd, a - b, c - e);
    lemma_mul_is_distributive_sub_other_way(rd, a, b);
    lemma_mul_is_distributive_sub_other_way(rd, c, e);
    lemma_mul_is_distributive_sub_other_way(ld, a2 - c2, b2 - e2);
    lemma_mul_is_distributive_sub_other_way(ld, a2, c2);
    lemma_mul_is_distributive_sub_other_way(ld, b2, e2);
    assert(a * rd == a2 * ld) by (nonlinear_arith)
        requires
            a == (p.n * q.d) * (r.d * s.d),
            a2 == (p.n * r.d) * (q.d * s.d),
            ld == (p.d * q.d) * (r.d * s.d),
            rd == (p.d * r.d) * (q.d * s.d),
    ;
    assert(b * rd == b2 * ld) by (nonlinear_arith)
        requires
            b == (q.n * p.d) * (r.d * s.d),
            b2 == (q.n * s.d) * (p.d * r.d),
            ld == (p.d * q.d) * (r.d * s.d),
            rd == (p.d * r.d) * (q.d * s.d),
    ;
    assert(c * rd == c2 * ld) by (nonlinear_arith)
        requires
            c == (r.n * s.d) * (p.d * q.d),
            c2 == (r.n * p.d) * (q.d * s.d),
            ld == (p.d * q.d) * (r.d * s.d),
            rd == (p.d * r.d) * (q.d * s.d),
    ;
    assert(e * rd == e2 * ld) by (nonlinear_arith)
        requires
            e == (s.n * r.d) * (p.d * q.d),
            e2 == (s.n * q.d) * (p.d * r.d),
            ld == (p.d * q.d) * (r.d * s.d),
            rd == (p.d * r.d) * (q.d * s.d),
    ;
}

/// The cross product distributes over a difference in its second
/// argument.
pub proof fn lemma_cross_sub_right(e: RPoint, u: RPoint, v: RPoint)
    requires
        rp_wf(e),
        rp_wf(u),
        rp_wf(v),
    ensures
        rat_eq(rp_cross(e, rp_sub(u, v)), rat_sub(rp_cross(e, u), rp_cross(e, v))),
{
    let a = rat_mul(e.x, u.y);
    let b = rat_mul(e.x, v.y);
    let c = rat_mul(e.y, u.x);
    let g = rat_mul(e.y, v.x);
    lemma_rat_mul_sub_right(e.x, u.y, v.y);
    lemma_rat_mul_sub_right(e.y, u.x, v.x);
    lemma_rat_sub_cong(
        rat_mul(e.x, rat_sub(u.y, v.y)),
        rat_sub(a, b),
        rat_mul(e.y, rat_sub(u.x, v.x)),
        rat_sub(c, g),
    );
    lemma_rat_sub_of_subs(a, b, c, g);
    lemma_rat_ops_wf(e.x, u.y);
    lemma_rat_ops_wf(e.x, v.y);
    lemma_rat_ops_wf(e.y, u.x);
    lemma_rat_ops_wf(e.y, v.x);
    lemma_rat_ops_wf(a, b);
    lemma_rat_ops_wf(c, g);
    lemma_rat_ops_wf(rat_sub(a, b), rat_sub(c, g));
    lemma_rat_eq_trans(
        rp_cross(e, rp_sub(u, v)),
        rat_sub(rat_sub(a, b), rat_sub(c, g)),
        rat_sub(rp_cross(e, u), rp_cross(e, v)),
    );
}

/// The scalar product distributes over a difference in its second
/// argument.
pub proof fn lemma_dot_sub_right(e: RPoint, u: RPoint, v: RPoint)
    requires
        rp_wf(e),
        rp_wf(u),
        rp_wf(v),
    ensures
        rat_eq(rp_dot(e, rp_sub(u, v)), rat_sub(rp_dot(e, u), rp_dot(e, v))),
{
    let a = rat_mul(e.x, u.x);
    let b = rat_mul(e.x, v.x);
    let c = rat_mul(e.y, u.y);
    let g = rat_mul(e.y, v.y);
    lemma_rat_mul_sub_right(e.x, u.x, v.x);
    lemma_rat_mul_sub_right(e.y, u.y, v.y);
    lemma_rat_add_cong(
        rat_mul(e.x, rat_sub(u.x, v.x)),
        rat_sub(a, b),
        rat_mul(e.y, rat_sub(u.y, v.y)),
        rat_sub(c, g),
    );
    assert(rat_eq(rat_add(rat_sub(a, b), rat_sub(c, g)), rat_sub(rat_add(a, c), rat_add(b, g)))) by {
        lemma_rat_sub_of_adds(a, c, b, g);
    };
    lemma_rat_ops_wf(e.x, u.x);
    lemma_rat_ops_wf(e.x, v.x);
    lemma_rat_ops_wf(e.y, u.y);
    lemma_rat_ops_wf(e.y, v.y);
    lemma_rat_ops_wf(a, b);
    lemma_rat_ops_wf(c, g);
    lemma_rat_ops_wf(rat_sub(a, b), rat_sub(c, g));
    lemma_rat_eq_trans(
        rp_dot(e, rp_sub(u, v)),
        rat_add(rat_sub(a, b), rat_sub(c, g)),
        rat_sub(rp_dot(e, u), rp_dot(e, v)),
    );
}

/// A sum of two values denoting zero denotes zero.
pub proof fn lemma_rat_zero_sum(a: Rat, b: Rat)
    requires
        rat_eq(a, rat_zero()),
        rat_eq(b, rat_zero()),
    ensures
        rat_eq(rat_add(a, b), rat_zero()),
{
    lemma_rat_add_cong(a, rat_zero(), b, rat_zero());
    lemma_rat_eq_trans(rat_add(a, b), rat_add(rat_zero(), rat_zero()), rat_zero());
}

/// A difference of two values denoting zero denotes zero.
pub proof fn lemma_rat_zero_diff(a: Rat, b: Rat)
    requires
        rat_eq(a, rat_zero()),
        rat_eq(b, rat_zero()),
    ensures
        rat_eq(rat_sub(a, b), rat_zero()),
{
    lemma_rat_sub_cong(a, rat_zero(), b, rat_zero());
    lemma_rat_eq_trans(rat_sub(a, b), rat_sub(rat_zero(), rat_zero()), rat_zero());
}

/// The heart of both reflection laws: a plane vector that is both
/// parallel (zero cross product) and orthogonal (zero scalar product)
/// to one and the same nonzero vector is the zero vector.
proof fn h_both_products_zero(vx: int, vy: int, wx: int, wy: int) by (nonlinear_arith)
    requires
        vx * wy == vy * wx,
        vx * wx + vy * wy == 0,
        wx * wx + wy * wy != 0,
    ensures
        vx == 0,
        vy == 0,
{
}

/// A vector `v` with zero cross and scalar products against one and
/// the same nonzero vector `w` denotes the zero vector.
pub proof fn lemma_vec_zero(w: RPoint, v: RPoint)
    requires
        rp_wf(v),
        rp_wf(w),
        rat_eq(rp_cross(w, v), rat_zero()),
        rat_eq(rp_dot(w, v), rat_zero()),
        !rat_eq(rp_dot(w, w), rat_zero()),
    ensures
        rat_eq(v.x, rat_zero()),
        rat_eq(v.y, rat_zero()),
{
    let sx = v.x.n * v.y.d;
    let sy = v.y.n * v.x.d;
    let tx = w.x.n * w.y.d;
    let ty = w.y.n * w.x.d;
    assert(sx * ty == sy * tx) by (nonlinear_arith)
        requires
            (w.x.n * v.y.n) * (w.y.d * v.x.d) - (w.y.n * v.x.n) * (w.x.d * v.y.d) == 0,
            sx == v.x.n * v.y.d,
            sy == v.y.n * v.x.d,
            tx == w.x.n * w.y.d,
            ty == w.y.n * w.x.d,
    ;
    assert(sx * tx + sy * ty == 0) by (nonlinear_arith)
        requires
            (w.x.n * v.x.n) * (w.y.d * v.y.d) + (w.y.n * v.y.n) * (w.x.d * v.x.d) == 0,
            sx == v.x.n * v.y.d,
            sy == v.y.n * v.x.d,
            tx == w.x.n * w.y.d,
            ty == w.y.n * w.x.d,
    ;
    assert(tx * tx + ty * ty != 0) by (nonlinear_arith)
        requires
            (w.x.n * w.x.n) * (w.y.d * w.y.d) + (w.y.n * w.y.n) * (w.x.d * w.x.d) != 0,
            tx == w.x.n * w.y.d,
            ty == w.y.n * w.x.d,
    ;
    h_both_products_zero(sx, sy, tx, ty);
    vstd::arithmetic::mul::lemma_mul_nonzero(v.x.n, v.y.d);
    vstd::arithmetic::mul::lemma_mul_nonzero(v.y.n, v.x.d);
}

/// If a sum denotes zero and one summand denotes zero, so does the
/// other.
pub proof fn lemma_rat_zero_from_sum(a: Rat, b: Rat) by (nonlinear_arith)
    requires
        rat_wf(a),
        rat_wf(b),
        rat_eq(rat_add(a, b), rat_zero()),
        rat_eq(a, rat_zero()),
    ensures
        rat_eq(b, rat_zero()),
{
}

/// Doubling a value is adding it to itself.
pub proof fn lemma_rat_double(c: Rat) by (nonlinear_arith)
    ensures
        rat_eq(rat_add(c, c), rat_mul(rat_int(2), c)),
{
}

/// Reversing a difference negates the value.
pub proof fn lemma_rat_sub_antisym(a: Rat, b: Rat)
    ensures
        rat_sub(b, a) == rat_neg(rat_sub(a, b)),
{
    lemma_mul_is_commutative(a.d, b.d);
}

/// Positions denoting the same point, as transitivity.
pub proof fn lemma_rp_eq_trans(a: RPoint, b: RPoint, c: RPoint)
    requires
        rp_wf(b),
        rp_eq(a, b),
        rp_eq(b, c),
    ensures
        rp_eq(a, c),
{
    lemma_rat_eq_trans(a.x, b.x, c.x);
    lemma_rat_eq_trans(a.y, b.y, c.y);
}

/// Vector addition commutes up to representation.
pub proof fn lemma_rp_add_comm(a: RPoint, b: RPoint)
    ensures
        rp_add(a, b) == rp_add(b, a),
{
    lemma_rat_add_comm(a.x, b.x);
    lemma_rat_add_comm(a.y, b.y);
}

/// Pairwise subtraction of two vector sums.
pub proof fn lemma_rp_sub_of_adds(p: RPoint, q: RPoint, r: RPoint, s: RPoint)
    ensures
        rp_eq(rp_sub(rp_add(p, q), rp_add(r, s)), rp_add(rp_sub(p, r), rp_sub(q, s))),
{
    lemma_rat_sub_of_adds(p.x, q.x, r.x, s.x);
    lemma_rat_sub_of_adds(p.y, q.y, r.y, s.y);
}

/// Pairwise subtraction of two vector differences.
pub proof fn lemma_rp_sub_of_subs(p: RPoint, q: RPoint, r: RPoint, s: RPoint)
    ensures
        rp_eq(rp_sub(rp_sub(p, q), rp_sub(r, s)), rp_sub(rp_sub(p, r), rp_sub(q, s))),
{
    lemma_rat_sub_of_subs(p.x, q.x, r.x, s.x);
    lemma_rat_sub_of_subs(p.y, q.y, r.y, s.y);
}

/// Splitting a vector difference at an intermediate point.
pub proof fn lemma_rp_sub_split(a: RPoint, b: RPoint, c: RPoint)
    requires
        rp_wf(a),
        rp_wf(b),
        rp_wf(c),
    ensures
        rp_eq(rp_sub(a, c), rp_add(rp_sub(a, b), rp_sub(b, c))),
{
    lemma_rat_sub_split(a.x, b.x, c.x);
    lemma_rat_sub_split(a.y, b.y, c.y);
}

/// Pairwise addition of two vector sums.
pub proof fn lemma_rp_add_of_adds(p: RPoint, q: RPoint, r: RPoint, s: RPoint)
    ensures
        rp_eq(rp_add(rp_add(p, q), rp_add(r, s)), rp_add(rp_add(p, r), rp_add(q, s))),
{
    lemma_rat_add_of_adds(p.x, q.x, r.x, s.x);
    lemma_rat_add_of_adds(p.y, q.y, r.y, s.y);
}

/// The cross product against an orthogonal-turned vector is the
/// negated scalar product: turning `d` left by a right angle gives
/// `(-d_y, d_x)`.
pub proof fn lemma_orth_cross_is_neg_dot(d: RPoint, u: RPoint)
    ensures
        rp_cross(RPoint { x: rat_neg(d.y), y: d.x }, u) == rat_neg(rp_dot(d, u)),
{
    vstd::arithmetic::mul::lemma_mul_unary_negation(d.y.n, u.y.n);
    vstd::arithmetic::mul::lemma_mul_unary_negation(d.y.n * u.y.n, d.x.d * u.x.d);
    lemma_mul_is_commutative(d.y.d * u.y.d, d.x.d * u.x.d);
}

/// A sum of two squares of well-formed values denotes zero only when
/// both values denote zero.
pub proof fn lemma_dot_self_zero(d: RPoint)
    requires
        rp_wf(d),
        rat_eq(rp_dot(d, d), rat_zero()),
    ensures
        rat_eq(d.x, rat_zero()),
        rat_eq(d.y, rat_zero()),
{
    assert(d.x.n == 0 && d.y.n == 0) by (nonlinear_arith)
        requires
            (d.x.n * d.x.n) * (d.y.d * d.y.d) + (d.y.n * d.y.n) * (d.x.d * d.x.d) == 0,
            d.x.d != 0,
            d.y.d != 0,
    ;
}

/// Swapping the arguments negates the cross product.
pub proof fn lemma_rp_cross_antisym(a: RPoint, b: RPoint)
    ensures
        rp_cross(a, b) == rat_neg(rp_cross(b, a)),
{
    lemma_rat_mul_comm(a.x, b.y);
    lemma_rat_mul_comm(a.y, b.x);
    lemma_rat_sub_antisym(rat_mul(b.x, a.y), rat_mul(b.y, a.x));
}

/// The scalar product is symmetric.
pub proof fn lemma_rp_dot_comm(a: RPoint, b: RPoint)
    ensures
        rp_dot(a, b) == rp_dot(b, a),
{
    lemma_rat_mul_comm(a.x, b.x);
    lemma_rat_mul_comm(a.y, b.y);
}

/// The cross product with a vector denoting zero denotes zero.
pub proof fn lemma_cross_zero_right(u: RPoint, v: RPoint)
    requires
        rp_wf(u),
        rp_wf(v),
        rp_eq(v, rp_zero()),
    ensures
        rat_eq(rp_cross(u, v), rat_zero()),
{
    lemma_rp_cross_cong(u, u, v, rp_zero());
    assert(rat_eq(rp_cross(u, rp_zero()), rat_zero())) by (nonlinear_arith);
    lemma_rp_ops_wf(u, rp_zero());
    lemma_rat_eq_trans(rp_cross(u, v), rp_cross(u, rp_zero()), rat_zero());
}

/// The scalar product with a vector denoting zero denotes zero.
pub proof fn lemma_dot_zero_left(u: RPoint, v: RPoint)
    requires
        rp_wf(u),
        rp_wf(v),
        rp_eq(u, rp_zero()),
    ensures
        rat_eq(rp_dot(u, v), rat_zero()),
{
    lemma_rp_dot_cong(u, rp_zero(), v, v);
    assert(rat_eq(rp_dot(rp_zero(), v), rat_zero())) by (nonlinear_arith);
    lemma_rp_ops_wf(rp_zero(), v);
    lemma_rat_eq_trans(rp_dot(u, v), rp_dot(rp_zero(), v), rat_zero());
}

/// The cross product of a vector with itself denotes zero.
pub proof fn lemma_rp_cross_self(u: RPoint)
    requires
        rp_wf(u),
    ensures
        rat_eq(rp_cross(u, u), rat_zero()),
{
    lemma_rat_mul_comm(u.x, u.y);
    lemma_rat_ops_wf(u.x, u.y);
    lemma_rat_sub_eq_zero(rat_mul(u.x, u.y), rat_mul(u.y, u.x));
    assert(rat_eq(rat_mul(u.x, u.y), rat_mul(u.y, u.x)));
}

} // verus!






