use vstd::prelude::*;

use crate::frac::Frac;
use crate::point::Point;
use crate::rat::{
    lemma_dot_scale_right, lemma_dot_self_zero, lemma_dot_zero_left, lemma_rat_div_mul_cancel,
    lemma_rat_eq_trans, lemma_rat_mul_cong, lemma_rat_neg_cong, lemma_rat_ops_wf,
    lemma_rat_sub_cong, lemma_rat_sub_eq_zero, lemma_rat_zero_diff, lemma_rp_cross_antisym, lemma_rp_cross_cong,
    lemma_rp_cross_self, lemma_rp_dot_comm, lemma_rp_dot_cong, lemma_rp_eq_trans, lemma_rp_ops_wf, lemma_rp_scale_cong,
    lemma_rp_scale_wf, lemma_rp_sub_cong, lemma_rp_sub_of_subs, lemma_rp_add_sub_cancel,
    lemma_cross_scale_self, lemma_cross_sub_right, lemma_dot_sub_right, lemma_vec_zero, rat_div,
    rat_eq, rat_lt, rat_mul, rat_neg, rat_sub, rat_zero, rp_add, rp_cross, rp_dot, rp_eq,
    rp_scale, rp_sub, rp_wf, rp_zero, RPoint,
};

verus! {

/// A hyperbolic geodesic realized as a circle orthogonal to the disk
/// boundary. The square of the radius is stored: it is an exact
/// rational wherever the radius itself is not, and circle inversion
/// needs nothing more.
#[derive(Clone, Copy, PartialEq, Eq, Structural, Debug)]
pub struct Circle {
    pub center: Point,
    pub radius_sq: Frac,
}

impl Circle {
    /// A valid circle: a well-formed center and a nonnegative squared
    /// radius.
    pub open spec fn wf(self) -> bool {
        &&& self.center.wf()
        &&& self.radius_sq.wf()
        &&& !rat_lt(self.radius_sq@, rat_zero())
    }

    pub open spec fn new_spec(center: Point, radius_sq: Frac) -> Option<Circle> {
        if rat_lt(radius_sq@, rat_zero()) {
            None
        } else {
            Some(Circle { center, radius_sq })
        }
    }

    /// Make a circle from its center and squared radius; absence when
    /// the squared radius is negative, which no valid radius gives.
    pub fn new(center: Point, radius_sq: Frac) -> (r: Option<Circle>)
        requires
            center.wf(),
            radius_sq.wf(),
        ensures
            r == Self::new_spec(center, radius_sq),
            r matches Some(c) ==> c.wf() && c.center == center && c.radius_sq == radius_sq,
    {
        if radius_sq.is_neg() {
            None
        } else {
            Some(Circle { center, radius_sq })
        }
    }

    pub fn center(&self) -> (r: Point)
        ensures
            r == self.center,
    {
        self.center
    }

    pub fn radius_sq(&self) -> (r: Frac)
        ensures
            r == self.radius_sq,
    {
        self.radius_sq
    }

    /// The position `x` lies exactly on the circle.
    pub open spec fn on_circle(self, x: RPoint) -> bool {
        rat_eq(rp_dot(rp_sub(x, self.center@), rp_sub(x, self.center@)), self.radius_sq@)
    }

    /// `y` is the circle inversion of `x` (proper case): `y - c` and
    /// `x - c` are parallel and their scalar product is the squared
    /// radius, so the product of the two distances from the center is
    /// the squared radius and both points lie on the same ray.
    pub open spec fn inverts(self, x: RPoint, y: RPoint) -> bool {
        let c = self.center@;
        &&& rat_eq(rp_cross(rp_sub(y, c), rp_sub(x, c)), rat_zero())
        &&& rat_eq(rp_dot(rp_sub(y, c), rp_sub(x, c)), self.radius_sq@)
    }

    /// The full relation between a point and its reflection: the
    /// center maps to itself, points at the circle's own distance are
    /// fixed (as is everything when the squared radius is zero), and
    /// every other point is properly inverted.
    pub open spec fn reflects_c(self, x: RPoint, y: RPoint) -> bool {
        let c = self.center@;
        let dv = rp_dot(rp_sub(x, c), rp_sub(x, c));
        if rat_eq(dv, rat_zero()) {
            rp_eq(y, c)
        } else if rat_eq(self.radius_sq@, rat_zero()) || rat_eq(dv, self.radius_sq@) {
            rp_eq(y, x)
        } else {
            self.inverts(x, y)
        }
    }

    pub open spec fn reflect_spec(self, point: Point) -> Option<Point> {
        match point.dist2_spec(self.center) {
            Some(d2) => if d2.num == 0 {
                Some(self.center)
            } else if self.radius_sq.num == 0 || rat_eq(d2@, self.radius_sq@) {
                Some(point)
            } else {
                match self.radius_sq.div_spec(d2) {
                    Some(factor) => match point.sub_spec(self.center) {
                        Some(vx) => match vx.scale_spec(factor) {
                            Some(sc) => self.center.add_spec(sc),
                            None => None,
                        },
                        None => None,
                    },
                    None => None,
                }
            },
            None => None,
        }
    }

    /// Classic circle inversion. The center maps to itself; a point
    /// whose squared distance equals the squared radius is returned
    /// unchanged (it is a fixed point, and the unstable division is
    /// avoided); otherwise the point is scaled along its ray from the
    /// center by `radius_sq / dist_sq`. Absence only when a coordinate
    /// no longer fits.
    pub fn reflect(&self, point: Point) -> (r: Option<Point>)
        requires
            self.wf(),
            point.wf(),
        ensures
            r == self.reflect_spec(point),
            r matches Some(y) ==> y.wf() && self.reflects_c(point@, y@),
    {
        let ghost c = self.center@;
        let ghost x = point@;
        let ghost px = rp_sub(x, c);
        let ghost dv = rp_dot(px, px);
        let ghost r2 = self.radius_sq@;
        proof {
            lemma_rp_ops_wf(x, c);
            lemma_rp_ops_wf(px, px);
        }
        let d2 = match point.dist2(self.center) {
            Some(v) => v,
            None => {
                return None;
            },
        };
        if d2.num == 0 {
            proof {
                lemma_rat_eq_trans(dv, d2@, rat_zero());
            }
            return Some(self.center);
        }
        if self.radius_sq.num == 0 || d2.eq_val(self.radius_sq) {
            proof {
                if rat_eq(dv, rat_zero()) {
                    lemma_rat_eq_trans(d2@, dv, rat_zero());
                }
                if !rat_eq(r2, rat_zero()) {
                    lemma_rat_eq_trans(dv, d2@, r2);
                }
            }
            return Some(point);
        }
        let factor = match self.radius_sq.div(d2) {
            Some(v) => v,
            None => {
                return None;
            },
        };
        let vx = match point.sub(self.center) {
            Some(v) => v,
            None => {
                return None;
            },
        };
        let sc = match vx.scale(factor) {
            Some(v) => v,
            None => {
                return None;
            },
        };
        let y = match self.center.add(sc) {
            Some(v) => v,
            None => {
                return None;
            },
        };
        proof {
            // the three branch conditions of the relation
            if rat_eq(dv, rat_zero()) {
                lemma_rat_eq_trans(d2@, dv, rat_zero());
            }
            if rat_eq(dv, r2) {
                lemma_rat_eq_trans(d2@, dv, r2);
            }
            // y - c denotes factor * (x - c)
            lemma_rp_scale_wf(px, factor@);
            lemma_rp_scale_wf(vx@, factor@);
            lemma_rp_add_sub_cancel(c, sc@);
            lemma_rp_ops_wf(c, sc@);
            lemma_rp_ops_wf(rp_add(c, sc@), c);
            lemma_rp_sub_cong(y@, rp_add(c, sc@), c, c);
            lemma_rp_eq_trans(rp_sub(y@, c), rp_sub(rp_add(c, sc@), c), sc@);
            lemma_rp_scale_cong(vx@, px, factor@, factor@);
            lemma_rp_eq_trans(sc@, rp_scale(vx@, factor@), rp_scale(px, factor@));
            lemma_rp_eq_trans(rp_sub(y@, c), sc@, rp_scale(px, factor@));

            // cross product: a scaled vector is parallel to the vector
            lemma_rp_ops_wf(y@, c);
            lemma_rp_cross_cong(rp_sub(y@, c), rp_scale(px, factor@), px, px);
            lemma_rp_cross_antisym(rp_scale(px, factor@), px);
            lemma_cross_scale_self(px, factor@);
            lemma_rat_neg_cong(rp_cross(px, rp_scale(px, factor@)), rat_zero());
            lemma_rp_ops_wf(px, rp_scale(px, factor@));
            assert(rat_neg(rat_zero()) == rat_zero());
            lemma_rat_ops_wf(rp_cross(px, rp_scale(px, factor@)), rat_zero());
            lemma_rat_eq_trans(
                rp_cross(rp_scale(px, factor@), px),
                rat_neg(rp_cross(px, rp_scale(px, factor@))),
                rat_zero(),
            );
            lemma_rp_ops_wf(rp_scale(px, factor@), px);
            lemma_rat_eq_trans(
                rp_cross(rp_sub(y@, c), px),
                rp_cross(rp_scale(px, factor@), px),
                rat_zero(),
            );

            // scalar product: factor * (x-c) . (x-c) denotes
            // (r2 / d2) * d2, which denotes r2
            lemma_rp_dot_cong(rp_sub(y@, c), rp_scale(px, factor@), px, px);
            lemma_rp_dot_comm(rp_scale(px, factor@), px);
            lemma_dot_scale_right(px, px, factor@);
            lemma_rat_mul_cong(factor@, rat_div(r2, d2@), rp_dot(px, px), d2@);
            lemma_rat_div_mul_cancel(r2, d2@);
            lemma_rat_ops_wf(factor@, rp_dot(px, px));
            lemma_rat_ops_wf(rat_div(r2, d2@), d2@);
            lemma_rat_eq_trans(
                rat_mul(factor@, rp_dot(px, px)),
                rat_mul(rat_div(r2, d2@), d2@),
                r2,
            );
            lemma_rp_ops_wf(px, rp_scale(px, factor@));
            lemma_rat_eq_trans(
                rp_dot(px, rp_scale(px, factor@)),
                rat_mul(factor@, rp_dot(px, px)),
                r2,
            );
            lemma_rp_ops_wf(rp_scale(px, factor@), px);
            lemma_rat_eq_trans(
                rp_dot(rp_sub(y@, c), px),
                rp_dot(rp_scale(px, factor@), px),
                r2,
            );
        }
        Some(y)
    }

    /// A point lying exactly on the circle is fixed by its reflection.
    pub proof fn lemma_reflect_fixes_points_on_circle(self, x: RPoint, y: RPoint)
        requires
            self.wf(),
            rp_wf(x),
            rp_wf(y),
            self.on_circle(x),
            self.reflects_c(x, y),
        ensures
            rp_eq(y, x),
    {
        let c = self.center@;
        let px = rp_sub(x, c);
        let dv = rp_dot(px, px);
        lemma_rp_ops_wf(x, c);
        lemma_rp_ops_wf(px, px);
        if rat_eq(dv, rat_zero()) {
            // the point is the center, which is fixed
            lemma_dot_self_zero(px);
            lemma_rat_sub_eq_zero(x.x, c.x);
            lemma_rat_sub_eq_zero(x.y, c.y);
            assert(rp_eq(x, c));
            assert(rp_eq(y, c));
            lemma_rp_eq_trans(y, c, x);
        }
    }

    /// Inverting twice across one and the same circle with a nonzero
    /// radius gives back the original point: circle inversion is an
    /// involution on its proper domain.
    pub proof fn lemma_invert_involution(self, x: RPoint, y: RPoint, z: RPoint)
        requires
            self.wf(),
            rp_wf(x),
            rp_wf(y),
            rp_wf(z),
            !rat_eq(self.radius_sq@, rat_zero()),
            self.inverts(x, y),
            self.inverts(y, z),
        ensures
            rp_eq(z, x),
    {
        let c = self.center@;
        let r2 = self.radius_sq@;
        let px = rp_sub(x, c);
        let pz = rp_sub(z, c);
        let w = rp_sub(y, c);
        let v = rp_sub(x, z);
        lemma_rp_ops_wf(x, c);
        lemma_rp_ops_wf(y, c);
        lemma_rp_ops_wf(z, c);
        lemma_rp_ops_wf(x, z);
        lemma_rp_ops_wf(c, c);
        lemma_rp_ops_wf(px, pz);
        lemma_rp_ops_wf(w, px);
        lemma_rp_ops_wf(w, pz);
        lemma_rp_ops_wf(w, v);
        lemma_rp_ops_wf(w, w);

        // v denotes px - pz
        lemma_rp_sub_of_subs(x, c, z, c);
        assert(rp_eq(rp_sub(c, c), rp_zero())) by {
            lemma_rat_sub_eq_zero(c.x, c.x);
            lemma_rat_sub_eq_zero(c.y, c.y);
        };
        lemma_rp_sub_cong(rp_sub(x, z), rp_sub(x, z), rp_sub(c, c), rp_zero());
        assert(rp_sub(rp_sub(x, z), rp_zero()) == rp_sub(x, z));
        lemma_rp_ops_wf(rp_sub(x, z), rp_sub(c, c));
        lemma_rp_eq_trans(
            rp_sub(px, pz),
            rp_sub(rp_sub(x, z), rp_sub(c, c)),
            v,
        );

        // cross(w, px) and cross(w, pz) both denote zero
        lemma_rp_cross_antisym(w, px);
        // from inverts(x, y): cross(w, px) ~ 0 directly
        lemma_rp_cross_antisym(w, pz);
        lemma_rat_neg_cong(rp_cross(pz, w), rat_zero());
        assert(rat_neg(rat_zero()) == rat_zero());
        lemma_rat_ops_wf(rp_cross(pz, w), rat_zero());
        lemma_rat_eq_trans(rp_cross(w, pz), rat_neg(rp_cross(pz, w)), rat_zero());

        // so cross(w, v) denotes zero
        lemma_cross_sub_right(w, px, pz);
        lemma_rat_zero_diff(rp_cross(w, px), rp_cross(w, pz));
        lemma_rat_ops_wf(rp_cross(w, px), rp_cross(w, pz));
        lemma_rp_ops_wf(w, rp_sub(px, pz));
        lemma_rat_eq_trans(
            rp_cross(w, rp_sub(px, pz)),
            rat_sub(rp_cross(w, px), rp_cross(w, pz)),
            rat_zero(),
        );
        lemma_rp_cross_cong(w, w, v, rp_sub(px, pz));
        lemma_rat_eq_trans(rp_cross(w, v), rp_cross(w, rp_sub(px, pz)), rat_zero());

        // dot(w, px) and dot(w, pz) both denote the squared radius,
        // so dot(w, v) denotes zero
        lemma_rp_dot_comm(pz, w);
        lemma_dot_sub_right(w, px, pz);
        lemma_rat_zero_diff(rat_sub(rp_dot(w, px), r2), rat_sub(rp_dot(w, pz), r2));
        assert(rat_eq(rat_sub(rp_dot(w, px), rp_dot(w, pz)), rat_zero())) by {
            lemma_rat_sub_cong(rp_dot(w, px), r2, rp_dot(w, pz), r2);
            lemma_rat_sub_eq_zero(r2, r2);
            lemma_rat_ops_wf(r2, r2);
            lemma_rat_ops_wf(rp_dot(w, px), rp_dot(w, pz));
            lemma_rat_eq_trans(
                rat_sub(rp_dot(w, px), rp_dot(w, pz)),
                rat_sub(r2, r2),
                rat_zero(),
            );
        };
        lemma_rat_ops_wf(rp_dot(w, px), rp_dot(w, pz));
        lemma_rp_dot_cong(w, w, v, rp_sub(px, pz));
        lemma_rat_eq_trans(
            rp_dot(w, rp_sub(px, pz)),
            rat_sub(rp_dot(w, px), rp_dot(w, pz)),
            rat_zero(),
        );
        lemma_rat_eq_trans(rp_dot(w, v), rp_dot(w, rp_sub(px, pz)), rat_zero());

        // w is not the zero vector: its scalar product with px denotes
        // the nonzero squared radius
        assert(!rat_eq(rp_dot(w, w), rat_zero())) by {
            if rat_eq(rp_dot(w, w), rat_zero()) {
                lemma_dot_self_zero(w);
                lemma_dot_zero_left(w, px);
                lemma_rat_eq_trans(r2, rp_dot(w, px), rat_zero());
            }
        };
        lemma_vec_zero(w, v);
        lemma_rat_sub_eq_zero(x.x, z.x);
        lemma_rat_sub_eq_zero(x.y, z.y);
    }
}

impl Circle {
    /// Reflecting twice across one and the same circle gives back the
    /// original point, whatever branch of the relation applies:
    /// reflection across a circle is an involution.
    pub proof fn lemma_reflects_c_involution(self, x: RPoint, y: RPoint, z: RPoint)
        requires
            self.wf(),
            rp_wf(x),
            rp_wf(y),
            rp_wf(z),
            self.reflects_c(x, y),
            self.reflects_c(y, z),
        ensures
            rp_eq(z, x),
    {
        let c = self.center@;
        let r2 = self.radius_sq@;
        let px = rp_sub(x, c);
        let w = rp_sub(y, c);
        let dvx = rp_dot(px, px);
        let dvy = rp_dot(w, w);
        lemma_rp_ops_wf(x, c);
        lemma_rp_ops_wf(y, c);
        lemma_rp_ops_wf(c, c);
        lemma_rp_ops_wf(px, px);
        lemma_rp_ops_wf(w, w);
        lemma_rp_ops_wf(w, px);
        if rat_eq(dvx, rat_zero()) {
            // the point was the center; so is its image, and its
            // image's image
            lemma_dot_self_zero(px);
            lemma_rat_sub_eq_zero(x.x, c.x);
            lemma_rat_sub_eq_zero(x.y, c.y);
            assert(rp_eq(x, c));
            lemma_rp_sub_cong(y, c, c, c);
            assert(rp_eq(rp_sub(c, c), rp_zero())) by {
                lemma_rat_sub_eq_zero(c.x, c.x);
                lemma_rat_sub_eq_zero(c.y, c.y);
            };
            lemma_rp_eq_trans(w, rp_sub(c, c), rp_zero());
            lemma_dot_zero_left(w, w);
            assert(rat_eq(dvy, rat_zero()));
            lemma_rp_eq_trans(z, c, x);
        } else if rat_eq(r2, rat_zero()) || rat_eq(dvx, r2) {
            // the point was fixed, so its image is reflected the same
            // way
            lemma_rp_sub_cong(y, x, c, c);
            lemma_rp_dot_cong(w, px, w, px);
            assert(rat_eq(dvy, dvx));
            if rat_eq(dvy, rat_zero()) {
                lemma_rat_eq_trans(dvx, dvy, rat_zero());
            }
            if rat_eq(dvx, r2) {
                lemma_rat_eq_trans(dvy, dvx, r2);
            }
            lemma_rp_eq_trans(z, y, x);
        } else {
            // proper inversion: the image is neither the center nor a
            // fixed point, so it is properly inverted back
            assert(!rat_eq(dvy, rat_zero())) by {
                if rat_eq(dvy, rat_zero()) {
                    lemma_dot_self_zero(w);
                    lemma_dot_zero_left(w, px);
                    lemma_rat_eq_trans(r2, rp_dot(w, px), rat_zero());
                }
            };
            assert(!rat_eq(dvy, r2)) by {
                if rat_eq(dvy, r2) {
                    // then the original point would be at the
                    // circle's own distance
                    let vd = rp_sub(px, w);
                    lemma_rp_ops_wf(px, w);
                    lemma_rp_ops_wf(w, vd);
                    lemma_rp_cross_self(w);
                    lemma_cross_sub_right(w, px, w);
                    lemma_rat_zero_diff(rp_cross(w, px), rp_cross(w, w));
                    lemma_rat_ops_wf(rp_cross(w, px), rp_cross(w, w));
                    lemma_rat_eq_trans(
                        rp_cross(w, vd),
                        rat_sub(rp_cross(w, px), rp_cross(w, w)),
                        rat_zero(),
                    );
                    lemma_dot_sub_right(w, px, w);
                    lemma_rat_sub_cong(rp_dot(w, px), r2, rp_dot(w, w), r2);
                    lemma_rat_sub_eq_zero(r2, r2);
                    lemma_rat_ops_wf(r2, r2);
                    lemma_rat_ops_wf(rp_dot(w, px), rp_dot(w, w));
                    lemma_rat_eq_trans(
                        rat_sub(rp_dot(w, px), rp_dot(w, w)),
                        rat_sub(r2, r2),
                        rat_zero(),
                    );
                    lemma_rat_eq_trans(
                        rp_dot(w, vd),
                        rat_sub(rp_dot(w, px), rp_dot(w, w)),
                        rat_zero(),
                    );
                    lemma_vec_zero(w, vd);
                    lemma_rat_sub_eq_zero(px.x, w.x);
                    lemma_rat_sub_eq_zero(px.y, w.y);
                    assert(rp_eq(px, w));
                    lemma_rp_dot_cong(px, w, px, w);
                    lemma_rat_eq_trans(dvx, rp_dot(w, w), r2);
                }
            };
            self.lemma_invert_involution(x, y, z);
        }
    }
}

} // verus!

