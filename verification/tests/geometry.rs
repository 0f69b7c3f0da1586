use poincare_tiling::arc::Arc;
use poincare_tiling::circle::Circle;
use poincare_tiling::frac::Frac;
use poincare_tiling::geodesic_passing_by_two_points;
use poincare_tiling::line::Line;
use poincare_tiling::point::Point;
use poincare_tiling::Geodesic;

fn fr(num: i64, den: i64) -> Frac {
    Frac::new(num, den).unwrap()
}

fn pt(nx: i64, dx: i64, ny: i64, dy: i64) -> Point {
    Point::new(fr(nx, dx), fr(ny, dy))
}

#[test]
fn frac_reduces_to_lowest_terms() {
    let f = fr(2, 4);
    assert_eq!(f.num, 1);
    assert_eq!(f.den, 2);
    let g = fr(3, -6);
    assert_eq!(g.num, -1);
    assert_eq!(g.den, 2);
    assert!(Frac::new(1, 0).is_none());
}

#[test]
fn frac_arithmetic_is_exact() {
    let a = fr(1, 3);
    let b = fr(1, 6);
    assert_eq!(a.add(b).unwrap(), fr(1, 2));
    assert_eq!(a.sub(b).unwrap(), fr(1, 6));
    assert_eq!(a.mul(b).unwrap(), fr(1, 18));
    assert_eq!(a.div(b).unwrap(), fr(2, 1));
}

#[test]
fn unit_circle_fixes_point_on_it() {
    // circle centered at the origin with radius 1: (0, 1) lies on it
    let c = Circle::new(Point::zero(), fr(1, 1)).unwrap();
    let p = pt(0, 1, 1, 1);
    assert_eq!(c.reflect(p).unwrap(), p);
}

#[test]
fn unit_circle_inverts_outer_point() {
    // (2, 0) maps to (1/2, 0)
    let c = Circle::new(Point::zero(), fr(1, 1)).unwrap();
    let r = c.reflect(pt(2, 1, 0, 1)).unwrap();
    assert_eq!(r, pt(1, 2, 0, 1));
}

#[test]
fn unit_circle_inverts_inner_point() {
    // (-1/2, 0) maps to (-2, 0)
    let c = Circle::new(Point::zero(), fr(1, 1)).unwrap();
    let r = c.reflect(pt(-1, 2, 0, 1)).unwrap();
    assert_eq!(r, pt(-2, 1, 0, 1));
}

#[test]
fn circle_inversion_is_involution() {
    let c = Circle::new(pt(5, 4, -1, 3), fr(7, 5)).unwrap();
    let x = pt(1, 4, 1, 8);
    let y = c.reflect(x).unwrap();
    assert_ne!(y, x);
    let z = c.reflect(y).unwrap();
    assert_eq!(z, x);
}

#[test]
fn circle_center_maps_to_itself() {
    let center = pt(1, 2, 1, 3);
    let c = Circle::new(center, fr(2, 1)).unwrap();
    assert_eq!(c.reflect(center).unwrap(), center);
}

#[test]
fn negative_squared_radius_is_rejected() {
    assert!(Circle::new(Point::zero(), fr(-1, 4)).is_none());
}

#[test]
fn line_reflection_is_involution() {
    let l = Line::new(pt(1, 2, 0, 1), pt(0, 1, 1, 2)).unwrap();
    let x = pt(1, 8, 1, 16);
    let y = l.reflect(x).unwrap();
    assert_ne!(y, x);
    let z = l.reflect(y).unwrap();
    assert_eq!(z, x);
}

#[test]
fn line_fixes_points_on_it() {
    // the line through (1, 1) and (-1, -1) contains (1/4, 1/4)
    let l = Line::new(pt(1, 1, 1, 1), pt(-1, 1, -1, 1)).unwrap();
    let x = pt(1, 4, 1, 4);
    assert_eq!(l.reflect(x).unwrap(), x);
}

#[test]
fn line_needs_two_distinct_points() {
    let p = pt(1, 2, 1, 2);
    assert!(Line::new(p, p).is_none());
    assert!(Line::new(p, pt(2, 4, 3, 6)).is_none());
}

#[test]
fn arc_needs_two_distinct_points() {
    let c = Circle::new(Point::zero(), fr(1, 1)).unwrap();
    let p = pt(1, 2, 0, 1);
    assert!(Arc::new(p, p, c).is_none());
}

#[test]
fn arc_reflects_like_its_circle() {
    let c = Circle::new(Point::zero(), fr(1, 1)).unwrap();
    let a = Arc::new(pt(1, 1, 0, 1), pt(0, 1, 1, 1), c).unwrap();
    let x = pt(2, 1, 0, 1);
    assert_eq!(a.reflect(x).unwrap(), c.reflect(x).unwrap());
}

#[test]
fn geodesic_for_points_symmetric_about_origin_is_a_chord() {
    // symmetric points are collinear with the origin, so the geodesic
    // degenerates to a straight diameter, and it fixes both of its
    // construction points
    let u = pt(1, 4, 1, 8);
    let v = pt(-1, 4, -1, 8);
    let g = geodesic_passing_by_two_points(u, v).unwrap();
    assert!(matches!(g, Geodesic::Straight(_)));
    assert_eq!(g.reflect(u).unwrap(), u);
    assert_eq!(g.reflect(v).unwrap(), v);
}

#[test]
fn geodesic_for_generic_points_is_an_orthogonal_arc() {
    let u = pt(1, 2, 0, 1);
    let v = pt(0, 1, 1, 2);
    let g = geodesic_passing_by_two_points(u, v).unwrap();
    match g {
        Geodesic::Rounded(a) => {
            // the backing circle passes through both construction
            // points, so both are fixed by the reflection
            assert_eq!(g.reflect(u).unwrap(), u);
            assert_eq!(g.reflect(v).unwrap(), v);
            // and it crosses the unit circle at a right angle:
            // |center|^2 - radius^2 == 1
            let c = a.circle.center();
            let c2 = c.dot(c).unwrap();
            let orth = c2.sub(a.circle.radius_sq()).unwrap();
            assert_eq!(orth, Frac::new(1, 1).unwrap());
        },
        Geodesic::Straight(_) => panic!("expected the circle-backed arc"),
    }
}

#[test]
fn geodesic_needs_two_distinct_points() {
    let u = pt(1, 4, 1, 8);
    assert!(geodesic_passing_by_two_points(u, u).is_none());
    assert!(geodesic_passing_by_two_points(u, pt(2, 8, 2, 16)).is_none());
}

#[test]
fn geodesic_reflection_is_involution() {
    let u = pt(1, 2, 0, 1);
    let v = pt(0, 1, 1, 2);
    let g = geodesic_passing_by_two_points(u, v).unwrap();
    let x = pt(1, 8, -1, 8);
    let y = g.reflect(x).unwrap();
    let z = g.reflect(y).unwrap();
    assert_eq!(z, x);
}

#[test]
fn coordinate_range_exhaustion_is_reported_as_absence() {
    // a product whose reduced form no longer fits the coordinate range
    let big = Frac::new(i64::MAX - 1, 1).unwrap();
    assert!(big.mul(big).is_none());
    // and a reflection whose coordinates would overflow is absent too
    let c = Circle::new(Point::zero(), Frac::new(1, 1).unwrap()).unwrap();
    let far = Point::new(big, Frac::new(1, 3).unwrap());
    assert!(c.reflect(far).is_none());
}
