use vstd::prelude::*;

use crate::circle::Circle;
use crate::point::Point;
use crate::rat::rp_eq;

verus! {

/// A bounded rendering view of a `Circle`: the boundary-orthogonal arc
/// between two disk points. The bounds have no effect on reflection,
/// which the backing circle performs.
#[derive(Clone, Copy, PartialEq, Eq, Structural, Debug)]
pub struct Arc {
    pub start: Point,
    pub end: Point,
    pub circle: Circle,
}

impl Arc {
    pub open spec fn wf(self) -> bool {
        &&& self.start.wf()
        &&& self.end.wf()
        &&& self.circle.wf()
        &&& !rp_eq(self.start@, self.end@)
    }

    pub open spec fn new_spec(start: Point, end: Point, circle: Circle) -> Option<Arc> {
        if rp_eq(start@, end@) {
            None
        } else {
            Some(Arc { start, end, circle })
        }
    }

    /// Make the arc between two points of a circle; absence when the
    /// two points denote the same position (no arc exists).
    pub fn new(start: Point, end: Point, circle: Circle) -> (r: Option<Arc>)
        requires
            start.wf(),
            end.wf(),
            circle.wf(),
        ensures
            r == Self::new_spec(start, end, circle),
            r matches Some(a) ==> a.wf() && a.start == start && a.end == end && a.circle == circle,
    {
        if start.eq_val(end) {
            return None;
        }
        Some(Arc { start, end, circle })
    }

    pub open spec fn reflect_spec(self, point: Point) -> Option<Point> {
        self.circle.reflect_spec(point)
    }

    /// Reflection across the arc is the inversion across its backing
    /// circle: the bounds only affect what is drawn.
    pub fn reflect(&self, point: Point) -> (r: Option<Point>)
        requires
            self.wf(),
            point.wf(),
        ensures
            r == self.reflect_spec(point),
            r matches Some(y) ==> y.wf() && self.circle.reflects_c(point@, y@),
    {
        self.circle.reflect(point)
    }
}

} // verus!
