use vstd::prelude::*;

use crate::frac::Frac;
use crate::point::Point;
use crate::rat::{
    lemma_cross_add_right, lemma_cross_scale_right, lemma_cross_scale_self, lemma_cross_sub_right,
    lemma_dot_add_right, lemma_dot_scale_right, lemma_rat_add_cong, lemma_rat_add_comm,
    lemma_rat_add_neg, lemma_rat_add_neg_is_sub, lemma_rat_div_mul_cancel, lemma_rat_double, lemma_rat_eq_trans,
    lemma_rat_mul_cong, lemma_rat_mul_neg_right, lemma_rat_neg_cong, lemma_rat_ops_wf,
    lemma_rat_sub_antisym, lemma_rat_sub_cong, lemma_rat_sub_eq_zero, lemma_rat_zero_diff,
    lemma_rat_zero_from_sum, lemma_rat_zero_sum, lemma_rp_add_comm, lemma_rp_add_of_adds, lemma_rp_add_sub_cancel,
    lemma_rp_cross_cong, lemma_rp_cross_self, lemma_rp_dot_cong, lemma_rp_eq_trans, lemma_rp_ops_wf,
    lemma_rp_scale_wf, lemma_rp_sub_add_shuffle, lemma_rp_sub_cong, lemma_rp_sub_of_adds, lemma_rp_sub_of_subs,
    lemma_rp_sub_split, lemma_rp_scale_cong, lemma_rp_add_cong, rp_zero, lemma_orth_cross_is_neg_dot, lemma_dot_self_zero, lemma_vec_zero, rat_add, rat_div, rat_eq, rat_int, rat_mul, rat_neg,
    rat_sub, rat_zero, rp_add, rp_cross, rp_dot, rp_eq, rp_scale, rp_sub, rp_wf, RPoint,
};

verus! {

/// A hyperbolic geodesic that is Euclidean-straight: the chord from
/// `start` to `end`, with the cached direction vector `end - start`.
#[derive(Clone, Copy, PartialEq, Eq, Structural, Debug)]
pub struct Line {
    pub start: Point,
    pub end: Point,
    pub direction: Point,
}

impl Line {
    /// A valid line: two distinct points, and a direction that denotes
    /// their difference.
    pub open spec fn wf(self) -> bool {
        &&& self.start.wf()
        &&& self.end.wf()
        &&& self.direction.wf()
        &&& rp_eq(self.direction@, rp_sub(self.end@, self.start@))
        &&& !rp_eq(self.start@, self.end@)
    }

    /// The position `p` lies on the infinite line through `start` and
    /// `end`.
    pub open spec fn on_line(self, p: RPoint) -> bool {
        rat_eq(rp_cross(self.direction@, rp_sub(p, self.start@)), rat_zero())
    }

    /// The vector `u` is orthogonal to the line's direction.
    pub open spec fn perp(self, u: RPoint) -> bool {
        rat_eq(rp_dot(self.direction@, u), rat_zero())
    }

    /// `y` is the mirror image of `x` across this line: their midpoint
    /// lies on the line (stated doubled, to stay within `+` and `-`)
    /// and their difference is orthogonal to it.
    pub open spec fn reflects(self, x: RPoint, y: RPoint) -> bool {
        &&& rat_eq(
            rp_cross(
                self.direction@,
                rp_sub(rp_add(x, y), rp_add(self.start@, self.start@)),
            ),
            rat_zero(),
        )
        &&& self.perp(rp_sub(y, x))
    }

    pub open spec fn new_spec(start: Point, end: Point) -> Option<Line> {
        if rp_eq(start@, end@) {
            None
        } else {
            match end.sub_spec(start) {
                Some(direction) => Some(Line { start, end, direction }),
                None => None,
            }
        }
    }

    /// Make the line through two points; absence when the points
    /// denote the same position (no direction vector exists) or the
    /// direction does not fit the coordinate range.
    pub fn new(start: Point, end: Point) -> (r: Option<Line>)
        requires
            start.wf(),
            end.wf(),
        ensures
            r == Self::new_spec(start, end),
            r matches Some(l) ==> l.wf() && l.start == start && l.end == end && l.on_line(start@)
                && l.on_line(end@),
    {
        if start.eq_val(end) {
            return None;
        }
        let direction = match end.sub(start) {
            Some(d) => d,
            None => {
                return None;
            },
        };
        let l = Line { start, end, direction };
        proof {
            // both construction points lie on the line: the one as a
            // zero offset, the other along the direction itself
            lemma_rp_ops_wf(start@, start@);
            lemma_rp_ops_wf(end@, start@);
            assert(rp_eq(rp_sub(start@, start@), rp_zero())) by {
                lemma_rat_sub_eq_zero(start@.x, start@.x);
                lemma_rat_sub_eq_zero(start@.y, start@.y);
            };
            crate::rat::lemma_cross_zero_right(direction@, rp_sub(start@, start@));
            lemma_rp_cross_cong(direction@, direction@, rp_sub(end@, start@), direction@);
            lemma_rp_cross_self(direction@);
            lemma_rp_ops_wf(direction@, direction@);
            lemma_rat_eq_trans(
                rp_cross(direction@, rp_sub(end@, start@)),
                rp_cross(direction@, direction@),
                rat_zero(),
            );
        }
        Some(l)
    }

    pub open spec fn orthogonal_spec(self, point: Point) -> Option<Line> {
        let odir = Point { x: self.direction.y.neg_spec(), y: self.direction.x };
        match point.add_spec(odir) {
            Some(end2) => Some(Line { start: point, end: end2, direction: odir }),
            None => None,
        }
    }

    /// The line orthogonal to this one that passes through `point`.
    pub fn orthogonal_line_passing_by_point(&self, point: Point) -> (r: Option<Line>)
        requires
            self.wf(),
            point.wf(),
        ensures
            r == self.orthogonal_spec(point),
            r matches Some(l) ==> l.wf() && l.start == point && rat_eq(
                rp_dot(self.direction@, l.direction@),
                rat_zero(),
            ),
    {
        let odir = Point { x: self.direction.y.neg(), y: self.direction.x };
        let end2 = match point.add(odir) {
            Some(e) => e,
            None => {
                return None;
            },
        };
        let l = Line { start: point, end: end2, direction: odir };
        proof {
            let d = self.direction@;
            // direction is orthogonal to the original one
            assert(rat_eq(rp_dot(d, odir@), rat_zero())) by (nonlinear_arith)
                requires
                    odir@.x == rat_neg(d.y),
                    odir@.y == d.x,
                    d.x.d != 0,
                    d.y.d != 0,
            ;
            // the new line is well-formed: its direction denotes
            // end2 - point, and the endpoints differ
            lemma_rp_add_sub_cancel(point@, odir@);
            lemma_rp_sub_cong(end2@, rp_add(point@, odir@), point@, point@);
            lemma_rp_ops_wf(point@, odir@);
            lemma_rp_ops_wf(rp_add(point@, odir@), point@);
            lemma_rp_eq_trans(odir@, rp_sub(rp_add(point@, odir@), point@), rp_sub(end2@, point@));
            assert(!rp_eq(point@, end2@)) by {
                if rp_eq(point@, end2@) {
                    // then the orthogonal direction denotes zero, so
                    // the original direction would too
                    lemma_rp_ops_wf(end2@, point@);
                    lemma_rp_ops_wf(point@, point@);
                    lemma_rp_sub_cong(end2@, point@, point@, point@);
                    lemma_rp_eq_trans(odir@, rp_sub(end2@, point@), rp_sub(point@, point@));
                    lemma_rat_sub_eq_zero(point@.x, point@.x);
                    lemma_rat_sub_eq_zero(point@.y, point@.y);
                    lemma_rat_eq_trans(odir@.x, rat_sub(point@.x, point@.x), rat_zero());
                    lemma_rat_eq_trans(odir@.y, rat_sub(point@.y, point@.y), rat_zero());
                    assert(rat_eq(d.y, rat_zero())) by (nonlinear_arith)
                        requires
                            rat_eq(rat_neg(d.y), rat_zero()),
                    ;
                    // but a well-formed line has distinct endpoints
                    lemma_rp_ops_wf(self.end@, self.start@);
                    lemma_rat_eq_trans(
                        rat_sub(self.end@.x, self.start@.x),
                        d.x,
                        rat_zero(),
                    );
                    lemma_rat_eq_trans(
                        rat_sub(self.end@.y, self.start@.y),
                        d.y,
                        rat_zero(),
                    );
                    lemma_rat_sub_eq_zero(self.end@.x, self.start@.x);
                    lemma_rat_sub_eq_zero(self.end@.y, self.start@.y);
                }
            };
        }
        Some(l)
    }

    pub open spec fn intersect_spec(self, line: Line) -> Option<Point> {
        match line.direction.y.mul_spec(self.direction.x) {
            Some(m1) => match line.direction.x.mul_spec(self.direction.y) {
                Some(m2) => match m1.sub_spec(m2) {
                    Some(denom) => if denom.num == 0 {
                        None
                    } else {
                        match self.start.y.sub_spec(line.start.y) {
                            Some(s1) => match line.start.x.sub_spec(self.start.x) {
                                Some(s2) => match line.direction.x.mul_spec(s1) {
                                    Some(f1) => match line.direction.y.mul_spec(s2) {
                                        Some(f2) => match f1.add_spec(f2) {
                                            Some(numf) => match numf.div_spec(denom) {
                                                Some(factor) => match self.direction.scale_spec(
                                                    factor,
                                                ) {
                                                    Some(scaled) => self.start.add_spec(scaled),
                                                    None => None,
                                                },
                                                None => None,
                                            },
                                            None => None,
                                        },
                                        None => None,
                                    },
                                    None => None,
                                },
                                None => None,
                            },
                            None => None,
                        }
                    },
                    None => None,
                },
                None => None,
            },
            None => None,
        }
    }

    /// The intersection point of the two lines, solved in closed form;
    /// absence when the lines are parallel (the solution factor has a
    /// zero divisor) or a coordinate no longer fits.
    pub fn intersect(&self, line: Line) -> (r: Option<Point>)
        requires
            self.wf(),
            line.wf(),
        ensures
            r == self.intersect_spec(line),
            r matches Some(x) ==> x.wf() && self.on_line(x@) && line.on_line(x@),
    {
        let ghost s = self.start@;
        let ghost d = self.direction@;
        let ghost t = line.start@;
        let ghost e = line.direction@;
        let m1 = match line.direction.y.mul(self.direction.x) {
            Some(v) => v,
            None => {
                return None;
            },
        };
        let m2 = match line.direction.x.mul(self.direction.y) {
            Some(v) => v,
            None => {
                return None;
            },
        };
        let denom = match m1.sub(m2) {
            Some(v) => v,
            None => {
                return None;
            },
        };
        if denom.num == 0 {
            return None;
        }
        let s1 = match self.start.y.sub(line.start.y) {
            Some(v) => v,
            None => {
                return None;
            },
        };
        let s2 = match line.start.x.sub(self.start.x) {
            Some(v) => v,
            None => {
                return None;
            },
        };
        let f1 = match line.direction.x.mul(s1) {
            Some(v) => v,
            None => {
                return None;
            },
        };
        let f2 = match line.direction.y.mul(s2) {
            Some(v) => v,
            None => {
                return None;
            },
        };
        let numf = match f1.add(f2) {
            Some(v) => v,
            None => {
                return None;
            },
        };
        let factor = match numf.div(denom) {
            Some(v) => v,
            None => {
                return None;
            },
        };
        let scaled = match self.direction.scale(factor) {
            Some(v) => v,
            None => {
                return None;
            },
        };
        let x = match self.start.add(scaled) {
            Some(v) => v,
            None => {
                return None;
            },
        };
        proof {
            // the denominator denotes minus the cross product e x d,
            // and the numerator denotes the cross product e x (s - t)
            let den_v = rat_sub(rat_mul(e.y, d.x), rat_mul(e.x, d.y));
            let num_v = rat_add(rat_mul(e.x, rat_sub(s.y, t.y)), rat_mul(e.y, rat_sub(t.x, s.x)));
            lemma_rat_ops_wf(e.y, d.x);
            lemma_rat_ops_wf(e.x, d.y);
            lemma_rat_ops_wf(rat_mul(e.y, d.x), rat_mul(e.x, d.y));
            lemma_rat_ops_wf(m1@, m2@);
            lemma_rat_sub_cong(m1@, rat_mul(e.y, d.x), m2@, rat_mul(e.x, d.y));
            lemma_rat_eq_trans(denom@, rat_sub(m1@, m2@), den_v);
            lemma_rat_sub_antisym(rat_mul(e.x, d.y), rat_mul(e.y, d.x));
            assert(rp_cross(e, d) == rat_neg(den_v));

            lemma_rat_ops_wf(s.y, t.y);
            lemma_rat_ops_wf(t.x, s.x);
            lemma_rat_ops_wf(e.x, rat_sub(s.y, t.y));
            lemma_rat_ops_wf(e.y, rat_sub(t.x, s.x));
            lemma_rat_ops_wf(rat_mul(e.x, rat_sub(s.y, t.y)), rat_mul(e.y, rat_sub(t.x, s.x)));
            lemma_rat_mul_cong(e.x, e.x, s1@, rat_sub(s.y, t.y));
            lemma_rat_mul_cong(e.y, e.y, s2@, rat_sub(t.x, s.x));
            lemma_rat_ops_wf(e.x, s1@);
            lemma_rat_ops_wf(e.y, s2@);
            lemma_rat_eq_trans(f1@, rat_mul(e.x, s1@), rat_mul(e.x, rat_sub(s.y, t.y)));
            lemma_rat_eq_trans(f2@, rat_mul(e.y, s2@), rat_mul(e.y, rat_sub(t.x, s.x)));
            lemma_rat_ops_wf(f1@, f2@);
            lemma_rat_add_cong(f1@, rat_mul(e.x, rat_sub(s.y, t.y)), f2@, rat_mul(e.y, rat_sub(t.x, s.x)));
            lemma_rat_eq_trans(numf@, rat_add(f1@, f2@), num_v);
            lemma_rat_sub_antisym(s.x, t.x);
            lemma_rat_mul_neg_right(e.y, rat_sub(s.x, t.x));
            lemma_rat_add_neg_is_sub(
                rat_mul(e.x, rat_sub(s.y, t.y)),
                rat_mul(e.y, rat_sub(s.x, t.x)),
            );
            assert(num_v == rp_cross(e, rp_sub(s, t)));

            // the computed point denotes s + factor * d
            lemma_rp_scale_wf(d, factor@);
            lemma_rp_ops_wf(s, scaled@);
            lemma_rp_ops_wf(rp_add(s, scaled@), s);

            // x lies on this line: x - s denotes factor * d, whose
            // cross product with d is zero
            lemma_rp_add_sub_cancel(s, scaled@);
            lemma_rp_sub_cong(x@, rp_add(s, scaled@), s, s);
            lemma_rp_eq_trans(rp_sub(x@, s), rp_sub(rp_add(s, scaled@), s), scaled@);
            lemma_rp_eq_trans(rp_sub(x@, s), scaled@, rp_scale(d, factor@));
            lemma_rp_cross_cong(d, d, rp_sub(x@, s), rp_scale(d, factor@));
            lemma_cross_scale_self(d, factor@);
            lemma_rp_ops_wf(d, rp_scale(d, factor@));
            lemma_rat_eq_trans(
                rp_cross(d, rp_sub(x@, s)),
                rp_cross(d, rp_scale(d, factor@)),
                rat_zero(),
            );

            // x lies on the other line: x - t denotes
            // (s - t) + factor * d
            lemma_rp_sub_cong(x@, rp_add(s, scaled@), t, t);
            lemma_rp_sub_add_shuffle(s, scaled@, t);
            lemma_rp_ops_wf(s, t);
            lemma_rp_ops_wf(rp_sub(s, t), scaled@);
            lemma_rp_ops_wf(rp_add(s, scaled@), t);
            lemma_rp_eq_trans(
                rp_sub(x@, t),
                rp_sub(rp_add(s, scaled@), t),
                rp_add(rp_sub(s, t), scaled@),
            );
            lemma_rp_cross_cong(e, e, rp_sub(x@, t), rp_add(rp_sub(s, t), scaled@));
            lemma_cross_add_right(e, rp_sub(s, t), scaled@);

            // factor times (e x d) denotes the negation of num_v
            let dv = rat_div(numf@, denom@);
            let m = rat_mul(factor@, den_v);
            lemma_rat_mul_neg_right(factor@, den_v);
            assert(rat_mul(factor@, rp_cross(e, d)) == rat_neg(m));
            lemma_rat_mul_cong(factor@, factor@, den_v, denom@);
            lemma_rat_mul_cong(factor@, dv, denom@, denom@);
            lemma_rat_div_mul_cancel(numf@, denom@);
            lemma_rat_ops_wf(numf@, denom@);
            lemma_rat_ops_wf(factor@, den_v);
            lemma_rat_ops_wf(factor@, denom@);
            lemma_rat_ops_wf(dv, denom@);
            lemma_rat_eq_trans(m, rat_mul(factor@, denom@), rat_mul(dv, denom@));
            lemma_rat_eq_trans(m, rat_mul(dv, denom@), numf@);
            lemma_rat_eq_trans(m, numf@, num_v);
            lemma_rat_neg_cong(m, num_v);

            // hence cross(e, x - t) denotes num_v + (-num_v), which is
            // zero
            lemma_rp_cross_cong(e, e, scaled@, rp_scale(d, factor@));
            lemma_cross_scale_right(e, d, factor@);
            lemma_rp_ops_wf(e, rp_scale(d, factor@));
            lemma_rat_ops_wf(factor@, rp_cross(e, d));
            lemma_rp_ops_wf(e, scaled@);
            lemma_rat_eq_trans(
                rp_cross(e, scaled@),
                rp_cross(e, rp_scale(d, factor@)),
                rat_mul(factor@, rp_cross(e, d)),
            );
            lemma_rat_eq_trans(rp_cross(e, scaled@), rat_mul(factor@, rp_cross(e, d)), rat_neg(num_v));
            lemma_rp_ops_wf(e, rp_sub(s, t));
            lemma_rat_add_cong(rp_cross(e, rp_sub(s, t)), num_v, rp_cross(e, scaled@), rat_neg(num_v));
            lemma_rat_add_neg(num_v);
            lemma_rat_ops_wf(num_v, rat_neg(num_v));
            lemma_rat_ops_wf(rp_cross(e, rp_sub(s, t)), rp_cross(e, scaled@));
            lemma_rp_ops_wf(e, rp_add(rp_sub(s, t), scaled@));
            lemma_rat_eq_trans(
                rp_cross(e, rp_sub(x@, t)),
                rp_cross(e, rp_add(rp_sub(s, t), scaled@)),
                rat_add(rp_cross(e, rp_sub(s, t)), rp_cross(e, scaled@)),
            );
            lemma_rat_eq_trans(
                rat_add(rp_cross(e, rp_sub(s, t)), rp_cross(e, scaled@)),
                rat_add(num_v, rat_neg(num_v)),
                rat_zero(),
            );
            lemma_rat_eq_trans(
                rp_cross(e, rp_sub(x@, t)),
                rat_add(rp_cross(e, rp_sub(s, t)), rp_cross(e, scaled@)),
                rat_zero(),
            );
        }
        Some(x)
    }
}

impl Line {
    pub open spec fn projection_spec(self, point: Point) -> Option<Point> {
        match self.orthogonal_spec(point) {
            Some(orth) => self.intersect_spec(orth),
            None => None,
        }
    }

    /// The orthogonal projection of `point` onto this line: the point
    /// of the line whose difference from `point` is orthogonal to it.
    /// Absence only when a coordinate no longer fits: the two lines
    /// used internally are orthogonal, never parallel.
    pub fn projection(&self, point: Point) -> (r: Option<Point>)
        requires
            self.wf(),
            point.wf(),
        ensures
            r == self.projection_spec(point),
            r matches Some(pr) ==> pr.wf() && self.on_line(pr@) && self.perp(rp_sub(pr@, point@)),
    {
        let orth = match self.orthogonal_line_passing_by_point(point) {
            Some(o) => o,
            None => {
                return None;
            },
        };
        let r = self.intersect(orth);
        proof {
            if r is Some {
                let pr = r->Some_0;
                let d = self.direction@;
                let u = rp_sub(pr@, point@);
                // pr lies on the orthogonal line through point, whose
                // cross product is the negated scalar product with our
                // own direction
                lemma_orth_cross_is_neg_dot(d, u);
                assert(orth.direction@ == RPoint { x: rat_neg(d.y), y: d.x });
                assert(rat_eq(rat_neg(rp_dot(d, u)), rat_zero()));
            }
        }
        r
    }

    pub open spec fn reflect_spec(self, point: Point) -> Option<Point> {
        match self.projection_spec(point) {
            Some(pr) => match pr.sub_spec(point) {
                Some(dirv) => match dirv.scale_spec(Frac { num: 2, den: 1 }) {
                    Some(sc) => point.add_spec(sc),
                    None => None,
                },
                None => None,
            },
            None => None,
        }
    }

    /// The mirror image of `point` across this line: the point plus
    /// twice the vector to its orthogonal projection. Absence only
    /// when a coordinate no longer fits.
    pub fn reflect(&self, point: Point) -> (r: Option<Point>)
        requires
            self.wf(),
            point.wf(),
        ensures
            r == self.reflect_spec(point),
            r matches Some(y) ==> y.wf() && self.reflects(point@, y@),
    {
        let pr = match self.projection(point) {
            Some(p) => p,
            None => {
                return None;
            },
        };
        let dirv = match pr.sub(point) {
            Some(v) => v,
            None => {
                return None;
            },
        };
        let two = Frac::from_int(2);
        let sc = match dirv.scale(two) {
            Some(v) => v,
            None => {
                return None;
            },
        };
        let y = match point.add(sc) {
            Some(v) => v,
            None => {
                return None;
            },
        };
        proof {
            let d = self.direction@;
            let s = self.start@;
            let x = point@;
            let v = rp_sub(pr@, x);
            let w = rp_sub(x, s);
            let pp = rp_sub(pr@, s);
            let c0 = rp_cross(d, w);
            let two_r = rat_int(2);
            lemma_rp_ops_wf(pr@, x);
            lemma_rp_ops_wf(x, s);
            lemma_rp_ops_wf(pr@, s);
            lemma_rp_ops_wf(d, w);
            lemma_rp_ops_wf(d, v);
            lemma_rp_scale_wf(v, two_r);
            lemma_rp_ops_wf(x, sc@);

            // sc denotes 2 * (pr - point)
            lemma_rp_scale_cong(dirv@, v, two@, two_r);
            lemma_rp_scale_wf(dirv@, two@);
            lemma_rp_eq_trans(sc@, rp_scale(dirv@, two@), rp_scale(v, two_r));

            // the difference y - point denotes 2 * (pr - point),
            // which is orthogonal to the line
            lemma_rp_add_sub_cancel(x, sc@);
            lemma_rp_sub_cong(y@, rp_add(x, sc@), x, x);
            lemma_rp_ops_wf(rp_add(x, sc@), x);
            lemma_rp_eq_trans(rp_sub(y@, x), rp_sub(rp_add(x, sc@), x), sc@);
            lemma_rp_eq_trans(rp_sub(y@, x), sc@, rp_scale(v, two_r));
            lemma_rp_ops_wf(y@, Point { x: point.x, y: point.y }@);
            lemma_rp_dot_cong(d, d, rp_sub(y@, x), rp_scale(v, two_r));
            lemma_dot_scale_right(d, v, two_r);
            lemma_rp_scale_wf(v, two_r);
            lemma_rp_ops_wf(d, rp_scale(v, two_r));
            lemma_rat_mul_cong(two_r, two_r, rp_dot(d, v), rat_zero());
            lemma_rat_ops_wf(two_r, rp_dot(d, v));
            lemma_rat_eq_trans(
                rp_dot(d, rp_sub(y@, x)),
                rp_dot(d, rp_scale(v, two_r)),
                rat_mul(two_r, rp_dot(d, v)),
            );
            lemma_rat_eq_trans(
                rp_dot(d, rp_sub(y@, x)),
                rat_mul(two_r, rp_dot(d, v)),
                rat_mul(two_r, rat_zero()),
            );
            assert(rat_eq(rat_mul(two_r, rat_zero()), rat_zero()));
            lemma_rat_ops_wf(two_r, rat_zero());
            lemma_rat_eq_trans(
                rp_dot(d, rp_sub(y@, x)),
                rat_mul(two_r, rat_zero()),
                rat_zero(),
            );

            // the doubled midpoint (x + y) - 2 s denotes
            // 2 (x - s) + 2 (pr - x); its cross product with the
            // direction cancels to zero
            let ss = rp_add(s, s);
            lemma_rp_ops_wf(s, s);
            // x + y denotes (x + x) + sc
            lemma_rp_add_cong(x, x, y@, rp_add(x, sc@));
            assert(rp_add(x, rp_zero()) == x);
            assert(rp_add(rp_zero(), sc@) == sc@);
            lemma_rp_add_of_adds(x, rp_zero(), x, sc@);
            lemma_rp_ops_wf(x, x);
            lemma_rp_ops_wf(x, rp_add(x, sc@));
            lemma_rp_ops_wf(rp_add(x, x), sc@);
            lemma_rp_eq_trans(rp_add(x, y@), rp_add(x, rp_add(x, sc@)), rp_add(rp_add(x, x), sc@));
            // so (x + y) - ss denotes ((x + x) - ss) + sc
            lemma_rp_sub_cong(rp_add(x, y@), rp_add(rp_add(x, x), sc@), ss, ss);
            lemma_rp_sub_add_shuffle(rp_add(x, x), sc@, ss);
            lemma_rp_ops_wf(rp_add(x, x), ss);
            lemma_rp_ops_wf(rp_add(x, y@), ss);
            lemma_rp_ops_wf(rp_add(rp_add(x, x), sc@), ss);
            lemma_rp_ops_wf(rp_sub(rp_add(x, x), ss), sc@);
            lemma_rp_eq_trans(
                rp_sub(rp_add(x, y@), ss),
                rp_sub(rp_add(rp_add(x, x), sc@), ss),
                rp_add(rp_sub(rp_add(x, x), ss), sc@),
            );
            // (x + x) - ss denotes w + w
            lemma_rp_sub_of_adds(x, x, s, s);
            lemma_rp_ops_wf(w, w);
            lemma_rp_add_cong(rp_sub(rp_add(x, x), ss), rp_add(w, w), sc@, sc@);
            lemma_rp_ops_wf(rp_add(w, w), sc@);
            lemma_rp_eq_trans(
                rp_sub(rp_add(x, y@), ss),
                rp_add(rp_sub(rp_add(x, x), ss), sc@),
                rp_add(rp_add(w, w), sc@),
            );
            // cross with d distributes over that sum
            lemma_rp_cross_cong(d, d, rp_sub(rp_add(x, y@), ss), rp_add(rp_add(w, w), sc@));
            lemma_cross_add_right(d, rp_add(w, w), sc@);
            lemma_cross_add_right(d, w, w);
            // cross(d, sc) denotes -2 cross(d, w): sc denotes
            // 2 (pr - x) and pr - x denotes (pr - s) - (x - s)
            lemma_rp_sub_of_subs(pr@, s, x, s);
            assert(rp_eq(rp_sub(s, s), rp_zero())) by {
                lemma_rat_sub_eq_zero(s.x, s.x);
                lemma_rat_sub_eq_zero(s.y, s.y);
            };
            lemma_rp_sub_cong(rp_sub(pr@, x), rp_sub(pr@, x), rp_sub(s, s), rp_zero());
            assert(rp_sub(rp_sub(pr@, x), rp_zero()) == rp_sub(pr@, x));
            lemma_rp_ops_wf(rp_sub(pr@, x), rp_sub(s, s));
            lemma_rp_ops_wf(pp, w);
            lemma_rp_eq_trans(v, rp_sub(rp_sub(pr@, x), rp_sub(s, s)), rp_sub(pp, w));
            lemma_rp_cross_cong(d, d, v, rp_sub(pp, w));
            lemma_cross_sub_right(d, pp, w);
            lemma_rp_ops_wf(d, pp);
            // cross(d, pp) denotes zero because pr is on the line
            lemma_rat_sub_cong(rp_cross(d, pp), rat_zero(), c0, c0);
            assert(rat_sub(rat_zero(), c0) == rat_neg(c0));
            lemma_rat_ops_wf(rp_cross(d, pp), c0);
            lemma_rp_ops_wf(d, rp_sub(pp, w));
            lemma_rat_eq_trans(rp_cross(d, v), rp_cross(d, rp_sub(pp, w)), rat_sub(rp_cross(d, pp), c0));
            lemma_rat_eq_trans(rp_cross(d, v), rat_sub(rp_cross(d, pp), c0), rat_neg(c0));
            // hence cross(d, sc) denotes - (2 c0)
            lemma_rp_cross_cong(d, d, sc@, rp_scale(v, two_r));
            lemma_cross_scale_right(d, v, two_r);
            lemma_rat_mul_cong(two_r, two_r, rp_cross(d, v), rat_neg(c0));
            lemma_rat_mul_neg_right(two_r, c0);
            lemma_rat_ops_wf(two_r, rp_cross(d, v));
            lemma_rp_ops_wf(d, rp_scale(v, two_r));
            lemma_rat_eq_trans(
                rp_cross(d, sc@),
                rp_cross(d, rp_scale(v, two_r)),
                rat_mul(two_r, rp_cross(d, v)),
            );
            lemma_rat_ops_wf(two_r, rat_neg(c0));
            lemma_rat_eq_trans(
                rp_cross(d, sc@),
                rat_mul(two_r, rp_cross(d, v)),
                rat_neg(rat_mul(two_r, c0)),
            );
            // and cross(d, w + w) denotes 2 c0
            lemma_rat_double(c0);
            lemma_rat_add_cong(rp_cross(d, w), c0, rp_cross(d, w), c0);
            lemma_rp_ops_wf(d, rp_add(w, w));
            lemma_rat_ops_wf(c0, c0);
            lemma_rat_eq_trans(rp_cross(d, rp_add(w, w)), rat_add(c0, c0), rat_mul(two_r, c0));
            // the two cancel
            lemma_rat_ops_wf(two_r, c0);
            lemma_rat_add_cong(
                rp_cross(d, rp_add(w, w)),
                rat_mul(two_r, c0),
                rp_cross(d, sc@),
                rat_neg(rat_mul(two_r, c0)),
            );
            lemma_rat_add_neg(rat_mul(two_r, c0));
            lemma_rp_ops_wf(d, sc@);
            lemma_rat_ops_wf(rp_cross(d, rp_add(w, w)), rp_cross(d, sc@));
            lemma_rat_ops_wf(rat_mul(two_r, c0), rat_neg(rat_mul(two_r, c0)));
            lemma_rat_eq_trans(
                rat_add(rp_cross(d, rp_add(w, w)), rp_cross(d, sc@)),
                rat_add(rat_mul(two_r, c0), rat_neg(rat_mul(two_r, c0))),
                rat_zero(),
            );
            lemma_rp_ops_wf(d, rp_add(rp_add(w, w), sc@));
            lemma_rat_eq_trans(
                rp_cross(d, rp_sub(rp_add(x, y@), ss)),
                rp_cross(d, rp_add(rp_add(w, w), sc@)),
                rat_add(rp_cross(d, rp_add(w, w)), rp_cross(d, sc@)),
            );
            lemma_rat_ops_wf(rp_cross(d, rp_add(w, w)), rp_cross(d, sc@));
            lemma_rat_eq_trans(
                rp_cross(d, rp_sub(rp_add(x, y@), ss)),
                rat_add(rp_cross(d, rp_add(w, w)), rp_cross(d, sc@)),
                rat_zero(),
            );
        }
        Some(y)
    }

    /// A well-formed line's direction is not the zero vector, so its
    /// scalar product with itself does not denote zero.
    pub proof fn lemma_direction_nonzero(self)
        requires
            self.wf(),
        ensures
            !rat_eq(rp_dot(self.direction@, self.direction@), rat_zero()),
    {
        let d = self.direction@;
        let s = self.start@;
        let e = self.end@;
        if rat_eq(rp_dot(d, d), rat_zero()) {
            lemma_dot_self_zero(d);
            lemma_rp_ops_wf(e, s);
            lemma_rat_eq_trans(rat_sub(e.x, s.x), d.x, rat_zero());
            lemma_rat_eq_trans(rat_sub(e.y, s.y), d.y, rat_zero());
            lemma_rat_sub_eq_zero(e.x, s.x);
            lemma_rat_sub_eq_zero(e.y, s.y);
        }
    }

    /// Reflecting twice across one and the same line gives back the
    /// original point: reflection is an involution.
    pub proof fn lemma_reflect_involution(self, x: RPoint, y: RPoint, z: RPoint)
        requires
            self.wf(),
            rp_wf(x),
            rp_wf(y),
            rp_wf(z),
            self.reflects(x, y),
            self.reflects(y, z),
        ensures
            rp_eq(z, x),
    {
        let d = self.direction@;
        let s = self.start@;
        let ss = rp_add(s, s);
        let a = rp_sub(rp_add(x, y), ss);
        let b = rp_sub(rp_add(y, z), ss);
        let v = rp_sub(z, x);
        lemma_rp_ops_wf(s, s);
        lemma_rp_ops_wf(x, x);
        lemma_rp_ops_wf(z, x);
        lemma_rp_ops_wf(y, x);
        lemma_rp_ops_wf(z, y);
        lemma_rp_ops_wf(x, y);
        lemma_rp_ops_wf(y, z);
        lemma_rp_ops_wf(rp_add(x, y), ss);
        lemma_rp_ops_wf(rp_add(y, z), ss);

        // the difference b - a denotes z - x
        lemma_rp_sub_of_subs(rp_add(y, z), ss, rp_add(x, y), ss);
        assert(rp_eq(rp_sub(ss, ss), rp_zero())) by {
            lemma_rat_sub_eq_zero(ss.x, ss.x);
            lemma_rat_sub_eq_zero(ss.y, ss.y);
        };
        lemma_rp_sub_of_adds(y, z, x, y);
        lemma_rp_sub_split(z, y, x);
        lemma_rp_add_comm(rp_sub(y, x), rp_sub(z, y));
        lemma_rp_ops_wf(rp_add(y, z), rp_add(x, y));
        lemma_rp_ops_wf(ss, ss);
        lemma_rp_sub_cong(
            rp_sub(rp_add(y, z), rp_add(x, y)),
            rp_sub(rp_add(y, z), rp_add(x, y)),
            rp_sub(ss, ss),
            rp_zero(),
        );
        assert(rp_sub(rp_sub(rp_add(y, z), rp_add(x, y)), rp_zero()) == rp_sub(
            rp_add(y, z),
            rp_add(x, y),
        ));
        lemma_rp_ops_wf(rp_sub(rp_add(y, z), rp_add(x, y)), rp_sub(ss, ss));
        lemma_rp_ops_wf(b, a);
        lemma_rp_eq_trans(
            rp_sub(b, a),
            rp_sub(rp_sub(rp_add(y, z), rp_add(x, y)), rp_sub(ss, ss)),
            rp_sub(rp_add(y, z), rp_add(x, y)),
        );
        lemma_rp_ops_wf(rp_sub(z, y), rp_sub(y, x));
        lemma_rp_eq_trans(
            rp_sub(b, a),
            rp_sub(rp_add(y, z), rp_add(x, y)),
            rp_add(rp_sub(y, x), rp_sub(z, y)),
        );
        lemma_rp_ops_wf(rp_sub(y, x), rp_sub(z, y));
        lemma_rp_eq_trans(
            rp_sub(b, a),
            rp_add(rp_sub(y, x), rp_sub(z, y)),
            rp_add(rp_sub(z, y), rp_sub(y, x)),
        );
        // so cross(d, z - x) denotes cross(d, b) - cross(d, a),
        // which denotes zero
        lemma_rp_eq_trans(rp_sub(b, a), rp_add(rp_sub(z, y), rp_sub(y, x)), v);
        lemma_rp_cross_cong(d, d, v, rp_sub(b, a));
        lemma_cross_sub_right(d, b, a);
        lemma_rat_zero_diff(rp_cross(d, b), rp_cross(d, a));
        lemma_rp_ops_wf(d, rp_sub(b, a));
        lemma_rp_ops_wf(d, b);
        lemma_rp_ops_wf(d, a);
        lemma_rat_ops_wf(rp_cross(d, b), rp_cross(d, a));
        lemma_rat_eq_trans(
            rp_cross(d, v),
            rp_cross(d, rp_sub(b, a)),
            rat_sub(rp_cross(d, b), rp_cross(d, a)),
        );
        lemma_rat_eq_trans(
            rp_cross(d, v),
            rat_sub(rp_cross(d, b), rp_cross(d, a)),
            rat_zero(),
        );
        // dot(d, z - x) also denotes zero
        lemma_rp_sub_split(z, y, x);
        lemma_rp_dot_cong(d, d, v, rp_add(rp_sub(z, y), rp_sub(y, x)));
        lemma_dot_add_right(d, rp_sub(z, y), rp_sub(y, x));
        lemma_rat_zero_sum(rp_dot(d, rp_sub(z, y)), rp_dot(d, rp_sub(y, x)));
        lemma_rp_ops_wf(d, rp_add(rp_sub(z, y), rp_sub(y, x)));
        lemma_rp_ops_wf(d, rp_sub(z, y));
        lemma_rp_ops_wf(d, rp_sub(y, x));
        lemma_rat_ops_wf(rp_dot(d, rp_sub(z, y)), rp_dot(d, rp_sub(y, x)));
        lemma_rat_eq_trans(
            rp_dot(d, v),
            rp_dot(d, rp_add(rp_sub(z, y), rp_sub(y, x))),
            rat_add(rp_dot(d, rp_sub(z, y)), rp_dot(d, rp_sub(y, x))),
        );
        lemma_rat_eq_trans(
            rp_dot(d, v),
            rat_add(rp_dot(d, rp_sub(z, y)), rp_dot(d, rp_sub(y, x))),
            rat_zero(),
        );
        // a vector parallel and orthogonal to the nonzero direction is
        // the zero vector
        self.lemma_direction_nonzero();
        lemma_vec_zero(d, v);
        lemma_rat_sub_eq_zero(z.x, x.x);
        lemma_rat_sub_eq_zero(z.y, x.y);
    }

    /// A point lying on the line is fixed by its reflection.
    pub proof fn lemma_reflect_fixes_points_on_line(self, x: RPoint, y: RPoint)
        requires
            self.wf(),
            rp_wf(x),
            rp_wf(y),
            self.on_line(x),
            self.reflects(x, y),
        ensures
            rp_eq(y, x),
    {
        let d = self.direction@;
        let s = self.start@;
        let ss = rp_add(s, s);
        let v = rp_sub(y, x);
        let w = rp_sub(x, s);
        lemma_rp_ops_wf(s, s);
        lemma_rp_ops_wf(x, s);
        lemma_rp_ops_wf(y, s);
        lemma_rp_ops_wf(y, x);
        lemma_rp_ops_wf(x, y);
        lemma_rp_ops_wf(rp_add(x, y), ss);
        lemma_rp_ops_wf(v, w);
        lemma_rp_ops_wf(d, w);
        lemma_rp_ops_wf(d, v);

        // (x + y) - 2 s denotes w + (v + w)
        lemma_rp_sub_of_adds(x, y, s, s);
        lemma_rp_sub_split(y, x, s);
        lemma_rp_add_cong(w, w, rp_sub(y, s), rp_add(v, w));
        lemma_rp_ops_wf(w, rp_sub(y, s));
        lemma_rp_ops_wf(w, rp_add(v, w));
        lemma_rp_eq_trans(
            rp_sub(rp_add(x, y), ss),
            rp_add(w, rp_sub(y, s)),
            rp_add(w, rp_add(v, w)),
        );
        // distribute the cross product
        lemma_rp_cross_cong(d, d, rp_sub(rp_add(x, y), ss), rp_add(w, rp_add(v, w)));
        lemma_cross_add_right(d, w, rp_add(v, w));
        lemma_cross_add_right(d, v, w);
        lemma_rp_ops_wf(d, rp_add(w, rp_add(v, w)));
        lemma_rp_ops_wf(d, rp_add(v, w));
        lemma_rat_ops_wf(rp_cross(d, w), rp_cross(d, rp_add(v, w)));
        lemma_rat_ops_wf(rp_cross(d, v), rp_cross(d, w));
        lemma_rat_eq_trans(
            rp_cross(d, rp_sub(rp_add(x, y), ss)),
            rp_cross(d, rp_add(w, rp_add(v, w))),
            rat_add(rp_cross(d, w), rp_cross(d, rp_add(v, w))),
        );
        // the total denotes zero and cross(d, w) denotes zero, so the
        // rest does too; peel twice
        lemma_rp_ops_wf(d, rp_sub(rp_add(x, y), ss));
        lemma_rat_eq_trans(
            rat_add(rp_cross(d, w), rp_cross(d, rp_add(v, w))),
            rp_cross(d, rp_sub(rp_add(x, y), ss)),
            rat_zero(),
        );
        assert(rat_eq(rat_add(rp_cross(d, w), rp_cross(d, rp_add(v, w))), rat_zero()));
        lemma_rat_zero_from_sum(rp_cross(d, w), rp_cross(d, rp_add(v, w)));
        lemma_rp_ops_wf(d, rp_add(v, w));
        lemma_rat_eq_trans(
            rat_add(rp_cross(d, v), rp_cross(d, w)),
            rp_cross(d, rp_add(v, w)),
            rat_zero(),
        );
        lemma_rat_add_comm(rp_cross(d, v), rp_cross(d, w));
        lemma_rat_zero_from_sum(rp_cross(d, w), rp_cross(d, v));
        // the other product is the reflection's own orthogonality
        self.lemma_direction_nonzero();
        lemma_vec_zero(d, v);
        lemma_rat_sub_eq_zero(y.x, x.x);
        lemma_rat_sub_eq_zero(y.y, x.y);
    }
}

} // verus!

