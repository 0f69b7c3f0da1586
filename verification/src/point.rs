use vstd::prelude::*;

use crate::frac::Frac;
use crate::rat::{
    lemma_rat_add_cong, lemma_rat_eq_trans, rat_add, rat_eq, rat_mul, rp_add, rp_dot, rp_eq,
    rp_scale, rp_sub, rp_zero, RPoint, Rat,
};

verus! {

/// A position in (or near) the Poincaré disk, or a plane vector; both
/// coordinates are exact rationals.
#[derive(Clone, Copy, PartialEq, Eq, Structural, Debug)]
pub struct Point {
    pub x: Frac,
    pub y: Frac,
}

impl View for Point {
    type V = RPoint;

    open spec fn view(&self) -> RPoint {
        RPoint { x: self.x@, y: self.y@ }
    }
}

impl Point {
    pub open spec fn wf(self) -> bool {
        self.x.wf() && self.y.wf()
    }

    pub fn new(x: Frac, y: Frac) -> (r: Point)
        requires
            x.wf(),
            y.wf(),
        ensures
            r.wf(),
            r == (Point { x, y }),
    {
        Point { x, y }
    }

    /// The origin of the disk.
    pub fn zero() -> (r: Point)
        ensures
            r.wf(),
            r@ == rp_zero(),
            r == (Point { x: Frac { num: 0, den: 1 }, y: Frac { num: 0, den: 1 } }),
    {
        Point { x: Frac::zero(), y: Frac::zero() }
    }

    pub open spec fn add_spec(self, o: Point) -> Option<Point> {
        match self.x.add_spec(o.x) {
            Some(x) => match self.y.add_spec(o.y) {
                Some(y) => Some(Point { x, y }),
                None => None,
            },
            None => None,
        }
    }

    /// Exact vector sum; absence when a coordinate no longer fits.
    pub fn add(self, o: Point) -> (r: Option<Point>)
        requires
            self.wf(),
            o.wf(),
        ensures
            r == self.add_spec(o),
            r matches Some(p) ==> p.wf() && rp_eq(p@, rp_add(self@, o@)),
    {
        let x = match self.x.add(o.x) {
            Some(x) => x,
            None => {
                return None;
            },
        };
        let y = match self.y.add(o.y) {
            Some(y) => y,
            None => {
                return None;
            },
        };
        Some(Point { x, y })
    }

    pub open spec fn sub_spec(self, o: Point) -> Option<Point> {
        match self.x.sub_spec(o.x) {
            Some(x) => match self.y.sub_spec(o.y) {
                Some(y) => Some(Point { x, y }),
                None => None,
            },
            None => None,
        }
    }

    /// Exact vector difference; absence when a coordinate no longer
    /// fits.
    pub fn sub(self, o: Point) -> (r: Option<Point>)
        requires
            self.wf(),
            o.wf(),
        ensures
            r == self.sub_spec(o),
            r matches Some(p) ==> p.wf() && rp_eq(p@, rp_sub(self@, o@)),
    {
        let x = match self.x.sub(o.x) {
            Some(x) => x,
            None => {
                return None;
            },
        };
        let y = match self.y.sub(o.y) {
            Some(y) => y,
            None => {
                return None;
            },
        };
        Some(Point { x, y })
    }

    pub open spec fn scale_spec(self, f: Frac) -> Option<Point> {
        match self.x.mul_spec(f) {
            Some(x) => match self.y.mul_spec(f) {
                Some(y) => Some(Point { x, y }),
                None => None,
            },
            None => None,
        }
    }

    /// Exact scaling of a vector by a rational factor.
    pub fn scale(self, f: Frac) -> (r: Option<Point>)
        requires
            self.wf(),
            f.wf(),
        ensures
            r == self.scale_spec(f),
            r matches Some(p) ==> p.wf() && rp_eq(p@, rp_scale(self@, f@)),
    {
        let x = match self.x.mul(f) {
            Some(x) => x,
            None => {
                return None;
            },
        };
        let y = match self.y.mul(f) {
            Some(y) => y,
            None => {
                return None;
            },
        };
        Some(Point { x, y })
    }

    pub open spec fn dot_spec(self, o: Point) -> Option<Frac> {
        match self.x.mul_spec(o.x) {
            Some(t1) => match self.y.mul_spec(o.y) {
                Some(t2) => t1.add_spec(t2),
                None => None,
            },
            None => None,
        }
    }

    /// Exact scalar product of two vectors.
    pub fn dot(self, o: Point) -> (r: Option<Frac>)
        requires
            self.wf(),
            o.wf(),
        ensures
            r == self.dot_spec(o),
            r matches Some(f) ==> f.wf() && rat_eq(f@, rp_dot(self@, o@)),
    {
        let t1 = match self.x.mul(o.x) {
            Some(t) => t,
            None => {
                return None;
            },
        };
        let t2 = match self.y.mul(o.y) {
            Some(t) => t,
            None => {
                return None;
            },
        };
        let s = match t1.add(t2) {
            Some(s) => s,
            None => {
                return None;
            },
        };
        proof {
            crate::rat::lemma_rat_ops_wf(t1@, t2@);
            lemma_rat_add_cong(t1@, rat_mul(self@.x, o@.x), t2@, rat_mul(self@.y, o@.y));
            lemma_rat_eq_trans(s@, rat_add(t1@, t2@), rp_dot(self@, o@));
        }
        Some(s)
    }

    /// Exact squared distance between two points.
    pub open spec fn dist2_spec(self, o: Point) -> Option<Frac> {
        match self.sub_spec(o) {
            Some(d) => d.dot_spec(d),
            None => None,
        }
    }

    /// The squared distance `self` to `o` as a value of the
    /// specification: the scalar product of the difference vector with
    /// itself.
    pub open spec fn rdist2(self, o: Point) -> Rat {
        rp_dot(rp_sub(self@, o@), rp_sub(self@, o@))
    }

    pub fn dist2(self, o: Point) -> (r: Option<Frac>)
        requires
            self.wf(),
            o.wf(),
        ensures
            r == self.dist2_spec(o),
            r matches Some(f) ==> f.wf() && rat_eq(f@, self.rdist2(o)),
    {
        let d = match self.sub(o) {
            Some(d) => d,
            None => {
                return None;
            },
        };
        let s = match d.dot(d) {
            Some(s) => s,
            None => {
                return None;
            },
        };
        proof {
            crate::rat::lemma_rp_dot_cong(d@, rp_sub(self@, o@), d@, rp_sub(self@, o@));
            crate::rat::lemma_rp_ops_wf(d@, d@);
            lemma_rat_eq_trans(s@, rp_dot(d@, d@), self.rdist2(o));
        }
        Some(s)
    }

    /// Whether the two points denote the same position.
    pub fn eq_val(self, o: Point) -> (r: bool)
        requires
            self.wf(),
            o.wf(),
        ensures
            r == rp_eq(self@, o@),
    {
        self.x.eq_val(o.x) && self.y.eq_val(o.y)
    }
}

} // verus!
