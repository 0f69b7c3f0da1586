use vstd::prelude::*;

use crate::frac::Frac;
use crate::geodesic_spec;
use crate::geodesic_passing_by_two_points;
use crate::point::Point;
use crate::trig::{cos_sin_turn, cos_sin_turn_spec};
use crate::Geodesic;
use crate::Shape;

verus! {

/// All points of a polygon are valid coordinates.
pub open spec fn points_wf(s: Seq<Point>) -> bool {
    forall|k: int| 0 <= k < s.len() ==> (#[trigger] s[k]).wf()
}

/// The vertex sequences of a list of polygons.
pub open spec fn deep(shapes: Seq<Shape>) -> Seq<Seq<Point>> {
    shapes.map_values(|s: Shape| s@)
}

/// The origin of the disk.
pub open spec fn origin_pt() -> Point {
    Point { x: Frac { num: 0, den: 1 }, y: Frac { num: 0, den: 1 } }
}

/// Every vertex of the polygon has a reflection across the geodesic.
pub open spec fn all_reflect(g: Geodesic, shape: Seq<Point>) -> bool {
    forall|k: int| 0 <= k < shape.len() ==> (#[trigger] g.reflect_spec(shape[k])) is Some
}

/// The reflected polygon, vertex by vertex.
pub open spec fn reflected(g: Geodesic, shape: Seq<Point>) -> Seq<Point> {
    Seq::new(shape.len(), |k: int| g.reflect_spec(shape[k])->Some_0)
}

/// What one pass of the recursive generator appends: polygons,
/// geodesics and reflection centers, in generation order.
pub struct TileOut {
    pub shapes: Seq<Seq<Point>>,
    pub geos: Seq<Geodesic>,
    pub centers: Seq<Point>,
}

pub open spec fn empty_out() -> TileOut {
    TileOut { shapes: Seq::empty(), geos: Seq::empty(), centers: Seq::empty() }
}

/// The output of the generator from edge `i` of the current polygon
/// on: for each edge whose geodesic exists and whose reflections all
/// fit, the reflected center (before the subtree), then the subtree,
/// then the reflected polygon and the geodesic; an edge that yields no
/// geodesic, or whose reflection leaves the coordinate range, is
/// skipped with its whole subtree.
pub open spec fn tile_edges(
    shape: Seq<Point>,
    center: Point,
    i: int,
    depth: int,
    max_depth: int,
) -> TileOut
    decreases max_depth - depth, shape.len() - i, 0int,
{
    if depth < 0 || max_depth <= depth || i < 0 || shape.len() <= i {
        empty_out()
    } else {
        let rest = tile_edges(shape, center, i + 1, depth, max_depth);
        let a = shape[i];
        let b = shape[(i + 1) % (shape.len() as int)];
        match geodesic_spec(a, b) {
            Some(g) => match g.reflect_spec(center) {
                Some(rc) => if all_reflect(g, shape) {
                    let next = reflected(g, shape);
                    let child = tile_children(next, rc, depth + 1, max_depth);
                    TileOut {
                        shapes: child.shapes + seq![next] + rest.shapes,
                        geos: child.geos + seq![g] + rest.geos,
                        centers: seq![rc] + child.centers + rest.centers,
                    }
                } else {
                    rest
                },
                None => rest,
            },
            None => rest,
        }
    }
}

/// The output of the generator for one polygon at the given depth.
pub open spec fn tile_children(
    shape: Seq<Point>,
    center: Point,
    depth: int,
    max_depth: int,
) -> TileOut
    decreases max_depth - depth, shape.len(), 1int,
{
    if 0 <= depth && depth < max_depth {
        tile_edges(shape, center, 0, depth, max_depth)
    } else {
        empty_out()
    }
}

/// Whether a regular tiling with `p`-sided polygons, `q` around each
/// vertex, exists in the hyperbolic plane.
pub open spec fn tilable_spec(p: u8, q: u8) -> bool {
    (p as int - 2) * (q as int - 2) > 4
}

/// Floor square root, for arguments below `2^14`.
pub open spec fn isqrt_s(n: int) -> int {
    choose|r: int| 0 <= r && #[trigger] (r * r) <= n && n < (r + 1) * (r + 1)
}

proof fn lemma_isqrt_unique(n: int, r1: int, r2: int) by (nonlinear_arith)
    requires
        0 <= r1,
        0 <= r2,
        r1 * r1 <= n,
        n < (r1 + 1) * (r1 + 1),
        r2 * r2 <= n,
        n < (r2 + 1) * (r2 + 1),
    ensures
        r1 == r2,
{
}

/// Floor square root by counting up; the arguments stay tiny.
fn isqrt14(n: u64) -> (r: u64)
    requires
        n < 16384,
    ensures
        r as int == isqrt_s(n as int),
        r * r <= n,
        n < (r + 1) * (r + 1),
        r <= 127,
{
    let mut r: u64 = 0;
    let mut sq: u64 = 1;
    while sq <= n
        invariant
            n < 16384,
            r * r <= n,
            r <= 127,
            sq == (r + 1) * (r + 1),
        decreases 16384 - r,
    {
        proof {
            assert(r + 1 <= 127) by (nonlinear_arith)
                requires
                    (r as int + 1) * (r as int + 1) <= n as int,
                    n < 16384,
                    r <= 127,
            ;
            assert((r + 2) * (r + 2) == (r + 1) * (r + 1) + 2 * (r + 1) + 1) by (nonlinear_arith);
        }
        r = r + 1;
        sq = sq + 2 * r + 1;
    }
    proof {
        assert(exists|w: int|
            0 <= w && #[trigger] (w * w) <= n as int && (n as int) < (w + 1) * (w + 1)) by {
            assert(0 <= r as int && (r as int) * (r as int) <= n as int && (n as int) < ((
            r as int) + 1) * ((r as int) + 1));
        };
        let w = isqrt_s(n as int);
        lemma_isqrt_unique(n as int, r as int, w);
    }
    r
}

/// The scaled circumradius of the seed polygon, as the executable code
/// computes it.
pub open spec fn seed_radius_spec(p: u8, q: u8) -> Option<int> {
    let (cq, sq) = cos_sin_turn_spec(1, 2 * (q as int));
    let (cp, sp) = cos_sin_turn_spec(1, 2 * (p as int));
    if cq <= 0 || sq <= 0 || cp <= 0 || sp <= 0 {
        None
    } else {
        let a = cq * cp;
        let b = sp * sq;
        if a <= b {
            None
        } else {
            let t = ((a - b) * 1024) / (a + b);
            let r = isqrt_s(t);
            if r == 0 {
                None
            } else {
                Some(r)
            }
        }
    }
}

/// The circumradius of the seed polygon, in units of `1 / 32` of the
/// disk radius: the standard regular-tiling formula
/// `r = sqrt((tan(pi/2 - pi/q) - tan(pi/p)) / (tan(pi/2 - pi/q) + tan(pi/p)))`,
/// evaluated over the fixed-point sine and cosine (the Q30 scales of
/// the two tangent quotients cancel). Absence when the truncated
/// trigonometry leaves its positive range or the configuration leaves
/// no positive radius, which no tilable pair of parameters does.
fn seed_radius_q5(p: u8, q: u8) -> (r: Option<i64>)
    requires
        3 <= p,
        3 <= q,
    ensures
        r matches Some(v) ==> Some(v as int) == seed_radius_spec(p, q) && 1 <= v <= 31,
        r is None ==> seed_radius_spec(p, q) is None,
{
    let (cq, sq) = cos_sin_turn(1, 2 * (q as u32));
    let (cp, sp) = cos_sin_turn(1, 2 * (p as u32));
    if cq <= 0 || sq <= 0 || cp <= 0 || sp <= 0 {
        return None;
    }
    proof {
        assert(0 < (cq as int) * (cp as int) <= 0x8000_0000 * 0x8000_0000) by (nonlinear_arith)
            requires
                0 < cq <= 0x8000_0000,
                0 < cp <= 0x8000_0000,
        ;
        assert(0 < (sp as int) * (sq as int) <= 0x8000_0000 * 0x8000_0000) by (nonlinear_arith)
            requires
                0 < sq <= 0x8000_0000,
                0 < sp <= 0x8000_0000,
        ;
    }
    let a: u128 = (cq as u128) * (cp as u128);
    let b: u128 = (sp as u128) * (sq as u128);
    if a <= b {
        return None;
    }
    proof {
        assert((a - b) * 1024 < (a + b) * 1024) by (nonlinear_arith)
            requires
                0 < b < a,
                a <= 0x8000_0000 * 0x8000_0000,
                b <= 0x8000_0000 * 0x8000_0000,
        ;
        vstd::arithmetic::div_mod::lemma_multiply_divide_lt(
            ((a - b) * 1024) as int,
            (a + b) as int,
            1024,
        );
        vstd::arithmetic::div_mod::lemma_div_pos_is_pos(((a - b) * 1024) as int, (a + b) as int);
    }
    let t: u128 = ((a - b) * 1024) / (a + b);
    let r = isqrt14(t as u64);
    proof {
        assert(r <= 31) by (nonlinear_arith)
            requires
                (r as int) * (r as int) <= t as int,
                t < 1024,
                0 <= r,
        ;
    }
    if r == 0 {
        None
    } else {
        Some(r as i64)
    }
}

/// One vertex of the seed polygon: the fixed-point cosine and sine of
/// `2 pi k / p`, scaled by the circumradius and rounded to the nearest
/// `1 / 32`.
pub open spec fn seed_vertex_spec(p: u8, rq5: int, k: int) -> Option<Point> {
    let (c, s) = cos_sin_turn_spec(k, p as int);
    let xa = ((if c < 0 {
        -c
    } else {
        c
    }) * rq5 + 536870912) / 1073741824;
    let ya = ((if s < 0 {
        -s
    } else {
        s
    }) * rq5 + 536870912) / 1073741824;
    let xn = if c < 0 {
        -xa
    } else {
        xa
    };
    let yn = if s < 0 {
        -ya
    } else {
        ya
    };
    match Frac::new_spec(xn as i64, 32) {
        Some(fx) => match Frac::new_spec(yn as i64, 32) {
            Some(fy) => Some(Point { x: fx, y: fy }),
            None => None,
        },
        None => None,
    }
}

/// The seed polygon: `p` vertices evenly spread on the circle of the
/// seed radius around the origin.
pub open spec fn seed_spec(p: u8, q: u8) -> Option<Seq<Point>> {
    match seed_radius_spec(p, q) {
        Some(rq5) => if forall|k: int| 0 <= k < p as int ==> (#[trigger] seed_vertex_spec(p, rq5, k)) is Some {
            Some(Seq::new(p as nat, |k: int| seed_vertex_spec(p, rq5, k)->Some_0))
        } else {
            None
        },
        None => None,
    }
}

/// Round one scaled coordinate to units of `1 / 32`.
fn round_coord(c: i64, rq5: i64) -> (r: i64)
    requires
        -0x8000_0000 <= c <= 0x8000_0000,
        1 <= rq5 <= 31,
    ensures
        r as int == ({
            let xa = ((if c < 0 {
                -(c as int)
            } else {
                c as int
            }) * (rq5 as int) + 536870912) / 1073741824;
            if c < 0 {
                -xa
            } else {
                xa
            }
        }),
        -1000 <= r <= 1000,
{
    let mag: u64 = if c < 0 {
        (-c) as u64
    } else {
        c as u64
    };
    proof {
        assert(0 <= (mag as int) * (rq5 as int) <= 0x8000_0000 * 31) by (nonlinear_arith)
            requires
                0 <= mag <= 0x8000_0000,
                1 <= rq5 <= 31,
        ;
        vstd::arithmetic::div_mod::lemma_div_pos_is_pos(
            (mag as int) * (rq5 as int) + 536870912,
            1073741824,
        );
        vstd::arithmetic::div_mod::lemma_div_is_ordered(
            (mag as int) * (rq5 as int) + 536870912,
            0x8000_0000int * 31 + 536870912,
            1073741824,
        );
        assert((0x8000_0000int * 31 + 536870912) / 1073741824int == 62int);
    }
    let xa: u64 = (mag * (rq5 as u64) + 536870912) / 1073741824;
    if c < 0 {
        -(xa as i64)
    } else {
        xa as i64
    }
}

/// Build the seed polygon.
fn build_seed(p: u8, q: u8) -> (r: Option<Vec<Point>>)
    requires
        3 <= p,
        3 <= q,
    ensures
        r matches Some(v) ==> seed_spec(p, q) == Some(v@) && points_wf(v@) && v@.len() == p as int,
        r is None ==> seed_spec(p, q) is None,
{
    let rq5 = match seed_radius_q5(p, q) {
        Some(v) => v,
        None => {
            return None;
        },
    };
    let mut pts: Vec<Point> = Vec::new();
    let mut k: u32 = 0;
    while k < p as u32
        invariant
            3 <= p,
            1 <= rq5 <= 31,
            Some(rq5 as int) == seed_radius_spec(p, q),
            k <= p as u32,
            pts@.len() == k as int,
            forall|j: int|
                0 <= j < k as int ==> (#[trigger] seed_vertex_spec(p, rq5 as int, j)) is Some
                    && pts@[j] == seed_vertex_spec(p, rq5 as int, j)->Some_0 && pts@[j].wf(),
        decreases p as int - k as int,
    {
        let (c, s) = cos_sin_turn(k, p as u32);
        let xn = round_coord(c, rq5);
        let yn = round_coord(s, rq5);
        let fx = match Frac::new(xn, 32) {
            Some(f) => f,
            None => {
                proof {
                    assert(seed_vertex_spec(p, rq5 as int, k as int) is None);
                }
                return None;
            },
        };
        let fy = match Frac::new(yn, 32) {
            Some(f) => f,
            None => {
                proof {
                    assert(seed_vertex_spec(p, rq5 as int, k as int) is None);
                }
                return None;
            },
        };
        proof {
            assert(seed_vertex_spec(p, rq5 as int, k as int) == Some(Point { x: fx, y: fy }));
        }
        pts.push(Point { x: fx, y: fy });
        k = k + 1;
    }
    proof {
        assert(seed_spec(p, q) matches Some(sq) && sq =~= pts@) by {
            assert(forall|j: int|
                0 <= j < p as int ==> (#[trigger] seed_vertex_spec(p, rq5 as int, j)) is Some);
        };
    }
    Some(pts)
}

/// The recursive generator: for each edge of the current polygon, the
/// geodesic through its two vertices; across it, the reflected center
/// and the reflected polygon; then the same one level deeper. Children
/// are appended before the edge that produced them; the reflected
/// center is appended before either.
fn tile_rec(
    shapes: &mut Vec<Shape>,
    geos: &mut Vec<Geodesic>,
    centers: &mut Vec<Point>,
    shape: &Vec<Point>,
    center: Point,
    depth: u8,
    max_depth: u8,
)
    requires
        points_wf(shape@),
        center.wf(),
    ensures
        ({
            let out = tile_children(shape@, center, depth as int, max_depth as int);
            &&& deep(final(shapes)@) == deep(old(shapes)@) + out.shapes
            &&& final(geos)@ == old(geos)@ + out.geos
            &&& final(centers)@ == old(centers)@ + out.centers
        }),
    decreases max_depth as int - depth as int,
{
    if depth >= max_depth {
        proof {
            assert(deep(shapes@) =~= deep(shapes@) + empty_out().shapes);
            assert(geos@ =~= geos@ + empty_out().geos);
            assert(centers@ =~= centers@ + empty_out().centers);
        }
        return;
    }
    let ghost out0 = tile_edges(shape@, center, 0, depth as int, max_depth as int);
    let len = shape.len();
    let mut i: usize = 0;
    while i < len
        invariant
            points_wf(shape@),
            center.wf(),
            depth < max_depth,
            len == shape@.len(),
            i <= len,
            deep(old(shapes)@) + out0.shapes =~= deep(shapes@) + tile_edges(
                shape@,
                center,
                i as int,
                depth as int,
                max_depth as int,
            ).shapes,
            old(geos)@ + out0.geos =~= geos@ + tile_edges(
                shape@,
                center,
                i as int,
                depth as int,
                max_depth as int,
            ).geos,
            old(centers)@ + out0.centers =~= centers@ + tile_edges(
                shape@,
                center,
                i as int,
                depth as int,
                max_depth as int,
            ).centers,
        decreases len - i,
    {
        let ghost rest = tile_edges(shape@, center, i as int + 1, depth as int, max_depth as int);
        let ghost here = tile_edges(shape@, center, i as int, depth as int, max_depth as int);
        let a = shape[i];
        let b = shape[(i + 1) % len];
        proof {
            assert(shape@[(i as int + 1) % (shape@.len() as int)] == b);
        }
        match geodesic_passing_by_two_points(a, b) {
            None => {
                proof {
                    assert(here == rest);
                }
            },
            Some(g) => {
                match g.reflect(center) {
                    None => {
                        proof {
                            assert(here == rest);
                        }
                    },
                    Some(rc) => {
                        // reflect every vertex of the current polygon
                        let mut next: Vec<Point> = Vec::new();
                        let mut ok = true;
                        let mut j: usize = 0;
                        while j < len
                            invariant
                                points_wf(shape@),
                                g.wf(),
                                len == shape@.len(),
                                j <= len,
                                ok ==> next@.len() == j as int,
                                ok ==> forall|m: int|
                                    0 <= m < j as int ==> (#[trigger] g.reflect_spec(
                                        shape@[m],
                                    )) is Some && next@[m] == g.reflect_spec(shape@[m])->Some_0
                                        && next@[m].wf(),
                                !ok ==> !all_reflect(g, shape@),
                            decreases len - j,
                        {
                            if ok {
                                match g.reflect(shape[j]) {
                                    Some(pnt) => {
                                        next.push(pnt);
                                    },
                                    None => {
                                        ok = false;
                                    },
                                }
                            }
                            j = j + 1;
                        }
                        if ok {
                            proof {
                                assert(all_reflect(g, shape@));
                                assert(next@ =~= reflected(g, shape@));
                                assert(points_wf(next@));
                            }
                            let ghost nv = next@;
                            let ghost dpre = deep(shapes@);
                            let ghost gpre = geos@;
                            let ghost cpre = centers@;
                            centers.push(rc);
                            tile_rec(shapes, geos, centers, &next, rc, depth + 1, max_depth);
                            let ghost child = tile_children(
                                nv,
                                rc,
                                depth as int + 1,
                                max_depth as int,
                            );
                            let ghost dmid = deep(shapes@);
                            shapes.push(next);
                            geos.push(g);
                            proof {
                                assert(here.shapes == child.shapes + seq![nv] + rest.shapes);
                                assert(here.geos == child.geos + seq![g] + rest.geos);
                                assert(here.centers == seq![rc] + child.centers + rest.centers);
                                assert(deep(shapes@) =~= dmid.push(nv));
                                assert(deep(shapes@) =~= dpre + (child.shapes + seq![nv]));
                                assert(deep(shapes@) + rest.shapes =~= dpre + here.shapes);
                                assert(geos@ =~= gpre + (child.geos + seq![g]));
                                assert(geos@ + rest.geos =~= gpre + here.geos);
                                assert(centers@ =~= cpre + (seq![rc] + child.centers));
                                assert(centers@ + rest.centers =~= cpre + here.centers);
                            }
                        } else {
                            proof {
                                assert(here == rest);
                            }
                        }
                    },
                }
            },
        }
        i = i + 1;
    }
    proof {
        assert(tile_edges(shape@, center, len as int, depth as int, max_depth as int).shapes
            =~= Seq::<Seq<Point>>::empty());
        assert(deep(shapes@) =~= deep(old(shapes)@) + out0.shapes);
        assert(geos@ =~= old(geos)@ + out0.geos);
        assert(centers@ =~= old(centers)@ + out0.centers);
        assert(tile_children(shape@, center, depth as int, max_depth as int) == out0);
    }
}

/// Everything one computation of the tiling produces: the polygons
/// (seed first), the geodesics, and the reflection centers (the origin
/// first).
pub open spec fn compute_spec(p: u8, q: u8, max_depth: u8) -> (Seq<Seq<Point>>, Seq<Geodesic>, Seq<
    Point,
>) {
    if !tilable_spec(p, q) {
        (Seq::empty(), Seq::empty(), seq![origin_pt()])
    } else {
        match seed_spec(p, q) {
            None => (Seq::empty(), Seq::empty(), seq![origin_pt()]),
            Some(seed) => {
                let out = tile_children(seed, origin_pt(), 0, max_depth as int);
                (seq![seed] + out.shapes, out.geos, seq![origin_pt()] + out.centers)
            },
        }
    }
}

/// A `{p, q}` tiling of the hyperbolic plane, computed on demand up to
/// a bounded recursion depth and cached until a parameter changes.
pub struct Tiling {
    pub p: u8,
    pub q: u8,
    pub max_depth: u8,
    pub centers: Vec<Point>,
    pub geodesics: Vec<Geodesic>,
    pub shapes: Vec<Shape>,
    pub computed: bool,
}

impl Tiling {
    /// A fresh, uncomputed tiling with the given parameters.
    pub fn new(p: u8, q: u8, max_depth: u8) -> (r: Tiling)
        ensures
            r.p == p && r.q == q && r.max_depth == max_depth,
            !r.computed,
            r.centers@ == seq![origin_pt()],
            r.geodesics@ == Seq::<Geodesic>::empty(),
            r.shapes@ == Seq::<Shape>::empty(),
    {
        let mut centers: Vec<Point> = Vec::new();
        centers.push(Point::zero());
        proof {
            assert(centers@ =~= seq![origin_pt()]);
        }
        Tiling {
            p,
            q,
            max_depth,
            centers,
            geodesics: Vec::new(),
            shapes: Vec::new(),
            computed: false,
        }
    }

    /// The accumulated reflection centers, or absence while the list
    /// still holds only its initial origin entry.
    pub fn centers(&self) -> (r: Option<&Vec<Point>>)
        ensures
            r is None <==> (self.centers@.len() == 1 && self.centers@[0] == origin_pt()),
            r matches Some(v) ==> v@ == self.centers@,
    {
        if self.centers.len() == 1 {
            let z = Point::zero();
            if self.centers[0] == z {
                return None;
            }
        }
        Some(&self.centers)
    }

    /// The accumulated geodesics, or absence while there are none.
    pub fn geodesics(&self) -> (r: Option<&Vec<Geodesic>>)
        ensures
            r is None <==> self.geodesics@.len() == 0,
            r matches Some(v) ==> v@ == self.geodesics@,
    {
        if self.geodesics.len() == 0 {
            None
        } else {
            Some(&self.geodesics)
        }
    }

    /// The accumulated polygons, or absence while there are none.
    pub fn shapes(&self) -> (r: Option<&Vec<Shape>>)
        ensures
            r is None <==> self.shapes@.len() == 0,
            r matches Some(v) ==> v@ == self.shapes@,
    {
        if self.shapes.len() == 0 {
            None
        } else {
            Some(&self.shapes)
        }
    }

    /// Whether a `{p, q}` tiling exists in the hyperbolic plane:
    /// `(p - 2) (q - 2) > 4`.
    pub fn is_tilable(&self) -> (r: bool)
        ensures
            r == tilable_spec(self.p, self.q),
    {
        proof {
            assert((self.p as int - 2) * (self.q as int - 2) <= 64009
                && (self.p as int - 2) * (self.q as int - 2) >= -510) by (nonlinear_arith)
                requires
                    0 <= self.p <= 255,
                    0 <= self.q <= 255,
            ;
        }
        ((self.p as i32) - 2) * ((self.q as i32) - 2) > 4
    }

    pub fn p(&self) -> (r: u8)
        ensures
            r == self.p,
    {
        self.p
    }

    pub fn q(&self) -> (r: u8)
        ensures
            r == self.q,
    {
        self.q
    }

    pub fn max_depth(&self) -> (r: u8)
        ensures
            r == self.max_depth,
    {
        self.max_depth
    }

    /// Change `p`; a change of value invalidates the cached outputs.
    pub fn set_p(&mut self, p: u8)
        ensures
            final(self).p == p,
            final(self).q == old(self).q && final(self).max_depth == old(self).max_depth,
            final(self).computed == (old(self).computed && old(self).p == p),
            final(self).centers == old(self).centers,
            final(self).geodesics == old(self).geodesics,
            final(self).shapes == old(self).shapes,
    {
        if self.p != p {
            self.p = p;
            self.computed = false;
        }
    }

    /// Change `q`; a change of value invalidates the cached outputs.
    pub fn set_q(&mut self, q: u8)
        ensures
            final(self).q == q,
            final(self).p == old(self).p && final(self).max_depth == old(self).max_depth,
            final(self).computed == (old(self).computed && old(self).q == q),
            final(self).centers == old(self).centers,
            final(self).geodesics == old(self).geodesics,
            final(self).shapes == old(self).shapes,
    {
        if self.q != q {
            self.q = q;
            self.computed = false;
        }
    }

    /// Change the depth bound; a change of value invalidates the
    /// cached outputs.
    pub fn set_max_depth(&mut self, max_depth: u8)
        ensures
            final(self).max_depth == max_depth,
            final(self).p == old(self).p && final(self).q == old(self).q,
            final(self).computed == (old(self).computed && old(self).max_depth == max_depth),
            final(self).centers == old(self).centers,
            final(self).geodesics == old(self).geodesics,
            final(self).shapes == old(self).shapes,
    {
        if self.max_depth != max_depth {
            self.max_depth = max_depth;
            self.computed = false;
        }
    }

    /// Compute the tiling: a no-op while the cached outputs are valid;
    /// otherwise the outputs are rebuilt from scratch — the seed
    /// polygon around the origin first, then everything the recursive
    /// generator reaches within the depth bound. A configuration that
    /// is not tilable (or whose seed leaves the fixed-point range,
    /// which no tilable configuration does) yields empty outputs and is
    /// still marked computed.
    pub fn compute(&mut self)
        ensures
            final(self).computed,
            final(self).p == old(self).p,
            final(self).q == old(self).q,
            final(self).max_depth == old(self).max_depth,
            old(self).computed ==> *final(self) == *old(self),
            !old(self).computed ==> {
                let (shapes, geos, centers) = compute_spec(
                    old(self).p,
                    old(self).q,
                    old(self).max_depth,
                );
                &&& deep(final(self).shapes@) == shapes
                &&& final(self).geodesics@ == geos
                &&& final(self).centers@ == centers
            },
    {
        if self.computed {
            return;
        }
        let mut centers: Vec<Point> = Vec::new();
        centers.push(Point::zero());
        self.centers = centers;
        self.geodesics = Vec::new();
        self.shapes = Vec::new();
        self.computed = true;
        if !self.is_tilable() {
            proof {
                assert(deep(self.shapes@) =~= compute_spec(self.p, self.q, self.max_depth).0);
                assert(self.geodesics@ =~= compute_spec(self.p, self.q, self.max_depth).1);
                assert(self.centers@ =~= compute_spec(self.p, self.q, self.max_depth).2);
            }
            return;
        }
        proof {
            assert(3 <= self.p && 3 <= self.q) by (nonlinear_arith)
                requires
                    (self.p as int - 2) * (self.q as int - 2) > 4,
                    0 <= self.p,
                    0 <= self.q,
            ;
        }
        let seed = match build_seed(self.p, self.q) {
            Some(s) => s,
            None => {
                proof {
                    assert(deep(self.shapes@) =~= compute_spec(self.p, self.q, self.max_depth).0);
                    assert(self.geodesics@ =~= compute_spec(self.p, self.q, self.max_depth).1);
                    assert(self.centers@ =~= compute_spec(self.p, self.q, self.max_depth).2);
                }
                return;
            },
        };
        // keep a copy of the seed to drive the generator, and store
        // the original as the first polygon
        let mut walker: Vec<Point> = Vec::new();
        let mut i: usize = 0;
        while i < seed.len()
            invariant
                i <= seed@.len(),
                walker@ == seed@.take(i as int),
            decreases seed@.len() - i,
        {
            walker.push(seed[i]);
            proof {
                assert(walker@ =~= seed@.take(i as int + 1));
            }
            i = i + 1;
        }
        proof {
            assert(walker@ =~= seed@);
        }
        self.shapes.push(seed);
        let origin = Point::zero();
        tile_rec(
            &mut self.shapes,
            &mut self.geodesics,
            &mut self.centers,
            &walker,
            origin,
            0,
            self.max_depth,
        );
        proof {
            let out = tile_children(walker@, origin_pt(), 0, self.max_depth as int);
            assert(deep(self.shapes@) =~= seq![walker@] + out.shapes);
            assert(self.geodesics@ =~= out.geos);
            assert(self.centers@ =~= seq![origin_pt()] + out.centers);
            assert(deep(self.shapes@) == compute_spec(self.p, self.q, self.max_depth).0);
            assert(self.geodesics@ == compute_spec(self.p, self.q, self.max_depth).1);
            assert(self.centers@ == compute_spec(self.p, self.q, self.max_depth).2);
        }
    }
}

/// With a deeper bound the generator visits every node it visited
/// before, and more: the polygon count never shrinks as the depth
/// bound grows (stated from edge `i` on).
pub proof fn lemma_edges_monotone(
    shape: Seq<Point>,
    center: Point,
    i: int,
    depth: int,
    md1: int,
    md2: int,
)
    requires
        md1 <= md2,
    ensures
        tile_edges(shape, center, i, depth, md1).shapes.len() <= tile_edges(
            shape,
            center,
            i,
            depth,
            md2,
        ).shapes.len(),
    decreases md2 - depth, shape.len() - i, 0int,
{
    if depth < 0 || md2 <= depth || i < 0 || shape.len() <= i {
        // with the larger bound the generator stops here too, or the
        // smaller bound's output is empty
        if depth < 0 || md1 <= depth || i < 0 || shape.len() <= i {
        }
    } else if md1 <= depth {
        // the smaller bound's output is empty here
    } else {
        lemma_edges_monotone(shape, center, i + 1, depth, md1, md2);
        let a = shape[i];
        let b = shape[(i + 1) % (shape.len() as int)];
        match geodesic_spec(a, b) {
            Some(g) => match g.reflect_spec(center) {
                Some(rc) => {
                    if all_reflect(g, shape) {
                        let next = reflected(g, shape);
                        lemma_children_monotone(next, rc, depth + 1, md1, md2);
                    }
                },
                None => {},
            },
            None => {},
        }
    }
}

/// The same, for a whole polygon at a given depth.
pub proof fn lemma_children_monotone(
    shape: Seq<Point>,
    center: Point,
    depth: int,
    md1: int,
    md2: int,
)
    requires
        md1 <= md2,
    ensures
        tile_children(shape, center, depth, md1).shapes.len() <= tile_children(
            shape,
            center,
            depth,
            md2,
        ).shapes.len(),
    decreases md2 - depth, shape.len(), 1int,
{
    if 0 <= depth && depth < md1 {
        lemma_edges_monotone(shape, center, 0, depth, md1, md2);
    }
}

/// Raising the depth bound never shrinks the computed polygon count,
/// and the seed polygon is always the first entry and does not depend
/// on the depth bound at all.
pub proof fn lemma_compute_monotone_in_depth(p: u8, q: u8, md1: u8, md2: u8)
    requires
        md1 <= md2,
    ensures
        compute_spec(p, q, md1).0.len() <= compute_spec(p, q, md2).0.len(),
        compute_spec(p, q, md1).0.len() > 0 ==> compute_spec(p, q, md1).0[0] == compute_spec(
            p,
            q,
            md2,
        ).0[0],
{
    if tilable_spec(p, q) {
        match seed_spec(p, q) {
            None => {},
            Some(seed) => {
                lemma_children_monotone(seed, origin_pt(), 0, md1 as int, md2 as int);
            },
        }
    }
}

} // verus!
