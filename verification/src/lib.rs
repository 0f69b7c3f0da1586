//! Regular tilings of the hyperbolic plane in the Poincaré disk
//! model. Coordinates are exact rational numbers, so the geometric
//! facts about reflection — circle inversion is an involution, points
//! on a geodesic are fixed by its reflection — are proved exactly
//! rather than up to a floating tolerance. An operation whose exact
//! result no longer fits the coordinate range reports absence, and the
//! tiling engine skips the affected edge, as it does for degenerate
//! geodesics.

pub mod arc;
pub mod circle;
pub mod frac;
pub mod line;
pub mod point;
pub mod rat;
pub mod tiling;
pub mod trig;

use vstd::prelude::*;

use crate::arc::Arc;
use crate::circle::Circle;
use crate::frac::Frac;
use crate::line::Line;
use crate::point::Point;
use crate::rat::{
    lemma_rat_eq_trans, lemma_rat_ops_wf, lemma_rat_sub_cong, lemma_rp_cross_cong,
    lemma_rp_cross_self, lemma_rp_ops_wf, rat_eq, rat_int, rat_le, rat_sub, rat_zero, rp_cross,
    rat_mul, rp_dot, rp_eq, rp_sub, rp_wf, RPoint,
};

verus! {

/// One polygon of the tiling: its vertices in traversal order around
/// the boundary (cyclic: after the last vertex comes the first).
pub type Shape = Vec<Point>;

/// A hyperbolic geodesic as this library realizes it: either a
/// Euclidean-straight chord or an arc of a circle orthogonal to the
/// disk boundary. A fresh value is built by the factory for each pair
/// of points; no value ever changes its variant.
#[derive(Clone, Copy, PartialEq, Eq, Structural, Debug)]
pub enum Geodesic {
    Straight(Line),
    Rounded(Arc),
}

impl Geodesic {
    pub open spec fn wf(self) -> bool {
        match self {
            Geodesic::Straight(l) => l.wf(),
            Geodesic::Rounded(a) => a.wf(),
        }
    }

    /// The position lies on the geodesic: on the infinite line, or
    /// exactly on the backing circle.
    pub open spec fn on_geodesic(self, p: RPoint) -> bool {
        match self {
            Geodesic::Straight(l) => l.on_line(p),
            Geodesic::Rounded(a) => a.circle.on_circle(p),
        }
    }

    /// `y` is the reflection of `x` across the geodesic.
    pub open spec fn reflects_g(self, x: RPoint, y: RPoint) -> bool {
        match self {
            Geodesic::Straight(l) => l.reflects(x, y),
            Geodesic::Rounded(a) => a.circle.reflects_c(x, y),
        }
    }

    pub open spec fn reflect_spec(self, point: Point) -> Option<Point> {
        match self {
            Geodesic::Straight(l) => l.reflect_spec(point),
            Geodesic::Rounded(a) => a.reflect_spec(point),
        }
    }

    /// Reflect a point across the geodesic: mirror across the line, or
    /// invert across the backing circle. Absence only when a
    /// coordinate no longer fits.
    pub fn reflect(&self, point: Point) -> (r: Option<Point>)
        requires
            self.wf(),
            point.wf(),
        ensures
            r == self.reflect_spec(point),
            r matches Some(y) ==> y.wf() && self.reflects_g(point@, y@),
    {
        match self {
            Geodesic::Straight(l) => l.reflect(point),
            Geodesic::Rounded(a) => a.reflect(point),
        }
    }

    /// Reflecting twice across one and the same geodesic gives back
    /// the original point: every reflection this library constructs is
    /// an involution.
    pub proof fn lemma_reflect_involution(self, x: RPoint, y: RPoint, z: RPoint)
        requires
            self.wf(),
            rp_wf(x),
            rp_wf(y),
            rp_wf(z),
            self.reflects_g(x, y),
            self.reflects_g(y, z),
        ensures
            rp_eq(z, x),
    {
        match self {
            Geodesic::Straight(l) => l.lemma_reflect_involution(x, y, z),
            Geodesic::Rounded(a) => a.circle.lemma_reflects_c_involution(x, y, z),
        }
    }

    /// A point lying exactly on the geodesic is fixed by its
    /// reflection.
    pub proof fn lemma_reflect_fixes_points(self, x: RPoint, y: RPoint)
        requires
            self.wf(),
            rp_wf(x),
            rp_wf(y),
            self.on_geodesic(x),
            self.reflects_g(x, y),
        ensures
            rp_eq(y, x),
    {
        match self {
            Geodesic::Straight(l) => l.lemma_reflect_fixes_points_on_line(x, y),
            Geodesic::Rounded(a) => a.circle.lemma_reflect_fixes_points_on_circle(x, y),
        }
    }
}

/// What the geodesic factory returns, step for step: the collinearity
/// test, the closed-form solution of the circle equation
/// `x^2 + a x + y^2 + b y + 1 = 0` through both points, the
/// large-radius fallback to a straight chord, and the checks that the
/// solved circle indeed passes through both points orthogonally to the
/// disk boundary.
pub open spec fn geodesic_spec(u: Point, v: Point) -> Option<Geodesic> {
    match u.x.mul_spec(v.y) {
        Some(t1) => match u.y.mul_spec(v.x) {
            Some(t2) => match t1.sub_spec(t2) {
                Some(divisor) => if divisor.num == 0 {
                    match Line::new_spec(u, v) {
                        Some(l) => Some(Geodesic::Straight(l)),
                        None => None,
                    }
                } else {
                    geodesic_circle_spec(u, v, divisor)
                },
                None => None,
            },
            None => None,
        },
        None => None,
    }
}

/// The circle branch of the factory.
pub open spec fn geodesic_circle_spec(u: Point, v: Point, divisor: Frac) -> Option<Geodesic> {
    match u.dot_spec(u) {
        Some(u2) => match v.dot_spec(v) {
            Some(v2) => match factor_spec(u.y, v.y, v2, u2, divisor) {
                Some(fx) => match factor_spec(v.x, u.x, u2, v2, divisor) {
                    Some(fy) => match fx.neg_spec().mul_spec(Frac { num: 1, den: 2 }) {
                        Some(cx) => match fy.neg_spec().mul_spec(Frac { num: 1, den: 2 }) {
                            Some(cy) => geodesic_finish_spec(u, v, Point { x: cx, y: cy }),
                            None => None,
                        },
                        None => None,
                    },
                    None => None,
                },
                None => None,
            },
            None => None,
        },
        None => None,
    }
}

/// One coefficient of the circle equation, by the closed-form linear
/// solution: `(p q2 - q p2 + p - q) / divisor`.
pub open spec fn factor_spec(p: Frac, q: Frac, q2: Frac, p2: Frac, divisor: Frac) -> Option<Frac> {
    match p.mul_spec(q2) {
        Some(a1) => match q.mul_spec(p2) {
            Some(a2) => match a1.sub_spec(a2) {
                Some(a3) => match p.sub_spec(q) {
                    Some(a4) => match a3.add_spec(a4) {
                        Some(a_num) => a_num.div_spec(divisor),
                        None => None,
                    },
                    None => None,
                },
                None => None,
            },
            None => None,
        },
        None => None,
    }
}

/// The tail of the circle branch: radius, large-radius fallback,
/// checks, and the construction of the circle and its arc.
pub open spec fn geodesic_finish_spec(u: Point, v: Point, center: Point) -> Option<Geodesic> {
    match u.dist2_spec(center) {
        Some(radius_sq) => if !rat_le(radius_sq@, rat_int(100)) {
            match Line::new_spec(u, v) {
                Some(l) => Some(Geodesic::Straight(l)),
                None => None,
            }
        } else {
            match v.dist2_spec(center) {
                Some(dv) => if !rat_eq(dv@, radius_sq@) {
                    None
                } else {
                    match center.dot_spec(center) {
                        Some(c2) => match c2.sub_spec(radius_sq) {
                            Some(orth) => if !rat_eq(orth@, rat_int(1)) {
                                None
                            } else {
                                match Circle::new_spec(center, radius_sq) {
                                    Some(circle) => match Arc::new_spec(u, v, circle) {
                                        Some(arc) => Some(Geodesic::Rounded(arc)),
                                        None => None,
                                    },
                                    None => None,
                                }
                            },
                            None => None,
                        },
                        None => None,
                    }
                },
                None => None,
            }
        },
        None => None,
    }
}

/// The unique geodesic through two distinct points of the open disk: a
/// straight chord when the points are collinear with the origin (the
/// circle equation degenerates) or when the solved circle is so large
/// (radius beyond ten disk radii) that its curvature within the disk
/// is negligible; otherwise the arc of the circle
/// `x^2 + a x + y^2 + b y + 1 = 0` through both points, which is
/// orthogonal to the disk boundary. Absence when the two points denote
/// the same position, when a coordinate no longer fits, or when the
/// solved center fails its defining checks, which would indicate an
/// arithmetic defect and is never returned as a valid geodesic.
pub fn geodesic_passing_by_two_points(u: Point, v: Point) -> (r: Option<Geodesic>)
    requires
        u.wf(),
        v.wf(),
    ensures
        r == geodesic_spec(u, v),
        rp_eq(u@, v@) ==> r is None,
        r matches Some(g) ==> g.wf() && !rp_eq(u@, v@) && g.on_geodesic(u@) && g.on_geodesic(v@)
            && match g {
            Geodesic::Straight(l) => l.start == u && l.end == v,
            Geodesic::Rounded(a) => {
                &&& a.start == u
                &&& a.end == v
                &&& a.circle.on_circle(u@)
                &&& a.circle.on_circle(v@)
                &&& rat_eq(
                    rat_sub(rp_dot(a.circle.center@, a.circle.center@), a.circle.radius_sq@),
                    rat_int(1),
                )
            },
        },
{
    let t1 = match u.x.mul(v.y) {
        Some(x) => x,
        None => {
            return None;
        },
    };
    let t2 = match u.y.mul(v.x) {
        Some(x) => x,
        None => {
            return None;
        },
    };
    let divisor = match t1.sub(t2) {
        Some(x) => x,
        None => {
            return None;
        },
    };
    proof {
        // two points denoting the same position are collinear with the
        // origin, so a successful circle branch implies distinctness
        if rp_eq(u@, v@) {
            lemma_rp_cross_cong(u@, u@, v@, u@);
            lemma_rp_cross_self(u@);
            lemma_rp_ops_wf(u@, u@);
            lemma_rp_ops_wf(u@, v@);
            lemma_rat_ops_wf(t1@, t2@);
            lemma_rat_sub_cong(t1@, rat_mul(u@.x, v@.y), t2@, rat_mul(u@.y, v@.x));
            lemma_rat_eq_trans(divisor@, rat_sub(t1@, t2@), rp_cross(u@, v@));
            lemma_rp_ops_wf(u@, v@);
            lemma_rat_eq_trans(rp_cross(u@, v@), rp_cross(u@, u@), rat_zero());
            lemma_rat_eq_trans(divisor@, rp_cross(u@, v@), rat_zero());
        }
    }
    if divisor.num == 0 {
        return match Line::new(u, v) {
            Some(l) => Some(Geodesic::Straight(l)),
            None => None,
        };
    }
    let u2 = match u.dot(u) {
        Some(x) => x,
        None => {
            return None;
        },
    };
    let v2 = match v.dot(v) {
        Some(x) => x,
        None => {
            return None;
        },
    };
    let fx = match solve_factor(u.y, v.y, v2, u2, divisor) {
        Some(x) => x,
        None => {
            return None;
        },
    };
    let fy = match solve_factor(v.x, u.x, u2, v2, divisor) {
        Some(x) => x,
        None => {
            return None;
        },
    };
    let half = Frac { num: 1, den: 2 };
    let cx = match fx.neg().mul(half) {
        Some(x) => x,
        None => {
            return None;
        },
    };
    let cy = match fy.neg().mul(half) {
        Some(x) => x,
        None => {
            return None;
        },
    };
    let center = Point { x: cx, y: cy };
    let radius_sq = match u.dist2(center) {
        Some(x) => x,
        None => {
            return None;
        },
    };
    let hundred = Frac { num: 100, den: 1 };
    if !radius_sq.le_val(hundred) {
        return match Line::new(u, v) {
            Some(l) => Some(Geodesic::Straight(l)),
            None => None,
        };
    }
    let dv = match v.dist2(center) {
        Some(x) => x,
        None => {
            return None;
        },
    };
    if !dv.eq_val(radius_sq) {
        return None;
    }
    let c2 = match center.dot(center) {
        Some(x) => x,
        None => {
            return None;
        },
    };
    let orth = match c2.sub(radius_sq) {
        Some(x) => x,
        None => {
            return None;
        },
    };
    let one = Frac { num: 1, den: 1 };
    if !orth.eq_val(one) {
        return None;
    }
    let circle = match Circle::new(center, radius_sq) {
        Some(c) => c,
        None => {
            return None;
        },
    };
    let r = match Arc::new(u, v, circle) {
        Some(arc) => Some(Geodesic::Rounded(arc)),
        None => None,
    };
    proof {
        if r is Some {
            let cen = center@;
            // the circle passes through v: the first check compared
            // the two squared distances
            lemma_rp_ops_wf(v@, cen);
            lemma_rp_ops_wf(rp_sub(v@, cen), rp_sub(v@, cen));
            lemma_rat_eq_trans(v.rdist2(center), dv@, radius_sq@);
            // and it is orthogonal to the disk boundary: the second
            // check compared center . center - radius_sq with one
            lemma_rp_ops_wf(cen, cen);
            lemma_rat_ops_wf(c2@, radius_sq@);
            lemma_rat_sub_cong(rp_dot(cen, cen), c2@, radius_sq@, radius_sq@);
            lemma_rat_eq_trans(
                rat_sub(rp_dot(cen, cen), radius_sq@),
                rat_sub(c2@, radius_sq@),
                orth@,
            );
            lemma_rat_eq_trans(rat_sub(rp_dot(cen, cen), radius_sq@), orth@, rat_int(1));
        }
    }
    r
}

/// One coefficient of the circle equation
/// `x^2 + a x + y^2 + b y + 1 = 0` by the closed-form linear solution:
/// `(p q2 - q p2 + p - q) / divisor`.
fn solve_factor(p: Frac, q: Frac, q2: Frac, p2: Frac, divisor: Frac) -> (r: Option<Frac>)
    requires
        p.wf(),
        q.wf(),
        q2.wf(),
        p2.wf(),
        divisor.wf(),
        divisor.num != 0,
    ensures
        r == factor_spec(p, q, q2, p2, divisor),
        r matches Some(f) ==> f.wf(),
{
    let a1 = match p.mul(q2) {
        Some(x) => x,
        None => {
            return None;
        },
    };
    let a2 = match q.mul(p2) {
        Some(x) => x,
        None => {
            return None;
        },
    };
    let a3 = match a1.sub(a2) {
        Some(x) => x,
        None => {
            return None;
        },
    };
    let a4 = match p.sub(q) {
        Some(x) => x,
        None => {
            return None;
        },
    };
    let a_num = match a3.add(a4) {
        Some(x) => x,
        None => {
            return None;
        },
    };
    a_num.div(divisor)
}

} // verus!
