//! Boundary geometry and the point-containment test.
//!
//! A boundary is a polygon (an exterior ring plus hole rings) or a
//! multi-polygon. Containment is the classic even-odd ray cast: a point is
//! inside a ring when an upward ray from it crosses an odd number of ring
//! edges, with the crossing test done in exact integer arithmetic. A point
//! exactly on an edge follows that exact test's verdict; the convention is
//! fixed here and used everywhere. A polygon contains a point when its
//! exterior ring does and no hole ring does; a multi-polygon contains a
//! point when any constituent polygon does.
use crate::num::COORD_LIMIT;
use vstd::prelude::*;

verus! {

/// A coordinate pair in fixed-point degrees: ten-millionths of a degree
/// per unit, longitude first.
#[derive(Clone, Copy, Debug, PartialEq, Eq, Structural)]
pub struct LonLat {
    pub lon: i64,
    pub lat: i64,
}

impl View for LonLat {
    type V = (int, int);

    open spec fn view(&self) -> (int, int) {
        (self.lon as int, self.lat as int)
    }
}

/// An ordered closed sequence of coordinate pairs. A closing pair equal to
/// the first is allowed but not required: the edge from the last pair back
/// to the first is always part of the ring.
#[derive(Clone, Debug, PartialEq)]
pub struct Ring {
    pub points: Vec<LonLat>,
}

impl View for Ring {
    type V = Seq<(int, int)>;

    open spec fn view(&self) -> Seq<(int, int)> {
        self.points@.map_values(|c: LonLat| c@)
    }
}

/// A polygon: one exterior ring and zero or more hole rings.
#[derive(Clone, Debug, PartialEq)]
pub struct Polygon {
    pub exterior: Ring,
    pub holes: Vec<Ring>,
}

/// The mathematical shape of a polygon.
pub struct PolyModel {
    pub exterior: Seq<(int, int)>,
    pub holes: Seq<Seq<(int, int)>>,
}

impl View for Polygon {
    type V = PolyModel;

    open spec fn view(&self) -> PolyModel {
        PolyModel { exterior: self.exterior@, holes: self.holes@.map_values(|r: Ring| r@) }
    }
}

/// A region's boundary: a single polygon or a multi-polygon.
#[derive(Clone, Debug, PartialEq)]
pub enum PolyType {
    Polygon(Polygon),
    MultiPoly(Vec<Polygon>),
}

/// The mathematical shape of a boundary.
pub enum GeomModel {
    Poly(PolyModel),
    Multi(Seq<PolyModel>),
}

impl View for PolyType {
    type V = GeomModel;

    open spec fn view(&self) -> GeomModel {
        match self {
            PolyType::Polygon(p) => GeomModel::Poly(p@),
            PolyType::MultiPoly(ps) => GeomModel::Multi(ps@.map_values(|p: Polygon| p@)),
        }
    }
}

pub open spec fn coord_in_range(c: (int, int)) -> bool {
    &&& -(COORD_LIMIT as int) <= c.0 <= COORD_LIMIT as int
    &&& -(COORD_LIMIT as int) <= c.1 <= COORD_LIMIT as int
}

pub open spec fn ring_in_range(r: Seq<(int, int)>) -> bool {
    forall|i: int| 0 <= i < r.len() ==> coord_in_range(r[i])
}

pub open spec fn poly_in_range(p: PolyModel) -> bool {
    &&& ring_in_range(p.exterior)
    &&& forall|i: int| 0 <= i < p.holes.len() ==> ring_in_range(p.holes[i])
}

pub open spec fn polys_in_range(ps: Seq<PolyModel>) -> bool {
    forall|i: int| 0 <= i < ps.len() ==> poly_in_range(#[trigger] ps[i])
}

pub open spec fn geom_in_range(g: GeomModel) -> bool {
    match g {
        GeomModel::Poly(p) => poly_in_range(p),
        GeomModel::Multi(ps) => polys_in_range(ps),
    }
}

/// Whether the edge from `a` to `b` crosses the upward vertical ray from
/// `p`: the edge spans `p`'s latitude, and `p` lies strictly on the side
/// from which the edge's longitude at that latitude is greater.
pub open spec fn edge_crosses(a: (int, int), b: (int, int), p: (int, int)) -> bool {
    ((a.1 > p.1) != (b.1 > p.1)) && (if b.1 > a.1 {
        (p.0 - a.0) * (b.1 - a.1) < (b.0 - a.0) * (p.1 - a.1)
    } else {
        (p.0 - a.0) * (b.1 - a.1) > (b.0 - a.0) * (p.1 - a.1)
    })
}

/// The endpoints of ring edge `k`: from vertex `k` to the next vertex,
/// wrapping from the last vertex back to the first.
pub open spec fn ring_edge(r: Seq<(int, int)>, k: int) -> ((int, int), (int, int)) {
    (
        r[k],
        r[
            if k + 1 == r.len() {
                0int
            } else {
                k + 1
            }
        ],
    )
}

/// Parity of ray crossings among the first `n` edges of the ring.
pub open spec fn crossings_before(r: Seq<(int, int)>, p: (int, int), n: int) -> bool
    decreases n,
{
    if n <= 0 {
        false
    } else {
        crossings_before(r, p, n - 1) != edge_crosses(
            ring_edge(r, n - 1).0,
            ring_edge(r, n - 1).1,
            p,
        )
    }
}

/// Even-odd containment: the upward ray from `p` crosses an odd number of
/// ring edges.
pub open spec fn ring_contains(r: Seq<(int, int)>, p: (int, int)) -> bool {
    crossings_before(r, p, r.len() as int)
}

/// A polygon contains the points of its exterior ring that lie in no hole.
pub open spec fn polygon_contains(pm: PolyModel, p: (int, int)) -> bool {
    &&& ring_contains(pm.exterior, p)
    &&& forall|i: int| 0 <= i < pm.holes.len() ==> !ring_contains(pm.holes[i], p)
}

/// A boundary contains a point when its polygon does, or, for a
/// multi-polygon, when any constituent polygon does.
pub open spec fn polys_contain(ps: Seq<PolyModel>, p: (int, int)) -> bool {
    exists|i: int| 0 <= i < ps.len() && polygon_contains(#[trigger] ps[i], p)
}

pub open spec fn geom_contains(g: GeomModel, p: (int, int)) -> bool {
    match g {
        GeomModel::Poly(pm) => polygon_contains(pm, p),
        GeomModel::Multi(ps) => polys_contain(ps, p),
    }
}

fn coord_ok(c: &LonLat) -> (b: bool)
    ensures
        b == coord_in_range(c@),
{
    -COORD_LIMIT <= c.lon && c.lon <= COORD_LIMIT && -COORD_LIMIT <= c.lat && c.lat <= COORD_LIMIT
}

#[verifier::loop_isolation(false)]
fn ring_ok(r: &Ring) -> (b: bool)
    ensures
        b == ring_in_range(r@),
{
    let n = r.points.len();
    let mut i: usize = 0;
    while i < n
        invariant
            0 <= i <= n,
            forall|m: int| 0 <= m < i ==> coord_in_range(#[trigger] r@[m]),
        decreases n - i,
    {
        proof {
            assert(r@[i as int] == r.points@[i as int]@);
        }
        if !coord_ok(&r.points[i]) {
            return false;
        }
        i = i + 1;
    }
    true
}

#[verifier::loop_isolation(false)]
fn polygon_ok(p: &Polygon) -> (b: bool)
    ensures
        b == poly_in_range(p@),
{
    if !ring_ok(&p.exterior) {
        return false;
    }
    let n = p.holes.len();
    let mut i: usize = 0;
    while i < n
        invariant
            0 <= i <= n,
            forall|m: int| 0 <= m < i ==> ring_in_range(#[trigger] p@.holes[m]),
        decreases n - i,
    {
        proof {
            assert(p@.holes[i as int] == p.holes@[i as int]@);
        }
        if !ring_ok(&p.holes[i]) {
            return false;
        }
        i = i + 1;
    }
    true
}

impl PolyType {
    /// Whether every coordinate of this boundary lies in the accepted
    /// degree range; building and decoding both insist on it.
    #[verifier::loop_isolation(false)]
    pub fn in_range(&self) -> (b: bool)
        ensures
            b == geom_in_range(self@),
    {
        match self {
            PolyType::Polygon(p) => polygon_ok(p),
            PolyType::MultiPoly(ps) => {
                let n = ps.len();
                let ghost models = ps@.map_values(|q: Polygon| q@);
                let mut i: usize = 0;
                while i < n
                    invariant
                        0 <= i <= n,
                        forall|m: int| 0 <= m < i ==> poly_in_range(#[trigger] models[m]),
                    decreases n - i,
                {
                    proof {
                        assert(models[i as int] == ps@[i as int]@);
                    }
                    if !polygon_ok(&ps[i]) {
                        proof {
                            assert(!polys_in_range(models));
                        }
                        return false;
                    }
                    i = i + 1;
                }
                proof {
                    assert(polys_in_range(models));
                }
                true
            },
        }
    }
}

proof fn lemma_mul_abs_bound(x: int, y: int, xb: int, yb: int)
    by (nonlinear_arith)
    requires
        -xb <= x <= xb,
        -yb <= y <= yb,
        0 <= xb,
        0 <= yb,
    ensures
        -(xb * yb) <= x * y <= xb * yb,
{
}

fn edge_test(a: LonLat, b: LonLat, p: LonLat) -> (c: bool)
    requires
        coord_in_range(a@),
        coord_in_range(b@),
    ensures
        c == edge_crosses(a@, b@, p@),
{
    if (a.lat > p.lat) != (b.lat > p.lat) {
        proof {
            lemma_mul_abs_bound(
                p.lon as int - a.lon as int,
                b.lat as int - a.lat as int,
                0x8000_0000_0000_0000 + COORD_LIMIT as int,
                2 * COORD_LIMIT as int,
            );
            lemma_mul_abs_bound(
                b.lon as int - a.lon as int,
                p.lat as int - a.lat as int,
                2 * COORD_LIMIT as int,
                0x8000_0000_0000_0000 + COORD_LIMIT as int,
            );
        }
        let lhs: i128 = (p.lon as i128 - a.lon as i128) * (b.lat as i128 - a.lat as i128);
        let rhs: i128 = (b.lon as i128 - a.lon as i128) * (p.lat as i128 - a.lat as i128);
        if b.lat > a.lat {
            lhs < rhs
        } else {
            lhs > rhs
        }
    } else {
        false
    }
}

/// Ray-cast containment against one ring.
pub fn ring_hit(ring: &Ring, p: LonLat) -> (c: bool)
    requires
        ring_in_range(ring@),
    ensures
        c == ring_contains(ring@, p@),
{
    let n = ring.points.len();
    let mut c = false;
    let mut k: usize = 0;
    while k < n
        invariant
            0 <= k <= n,
            n == ring.points@.len(),
            ring_in_range(ring@),
            c == crossings_before(ring@, p@, k as int),
        decreases n - k,
    {
        let a = ring.points[k];
        let next: usize = if k + 1 == n {
            0
        } else {
            k + 1
        };
        let b = ring.points[next];
        proof {
            assert(ring@[k as int] == a@);
            assert(ring@[next as int] == b@);
            assert(ring_edge(ring@, k as int) == (a@, b@));
        }
        if edge_test(a, b, p) {
            c = !c;
        }
        k = k + 1;
    }
    c
}

/// Containment against one polygon: inside the exterior ring and in none
/// of the holes.
pub fn polygon_hit(poly: &Polygon, p: LonLat) -> (c: bool)
    requires
        poly_in_range(poly@),
    ensures
        c == polygon_contains(poly@, p@),
{
    if !ring_hit(&poly.exterior, p) {
        return false;
    }
    let n = poly.holes.len();
    let mut i: usize = 0;
    while i < n
        invariant
            0 <= i <= n,
            n == poly.holes@.len(),
            poly_in_range(poly@),
            ring_contains(poly@.exterior, p@),
            forall|j: int| 0 <= j < i ==> !ring_contains(poly@.holes[j], p@),
        decreases n - i,
    {
        proof {
            assert(poly@.holes[i as int] == poly.holes@[i as int]@);
        }
        if ring_hit(&poly.holes[i], p) {
            return false;
        }
        i = i + 1;
    }
    true
}

impl PolyType {
    /// Containment against this boundary.
    pub fn contains_point(&self, p: LonLat) -> (c: bool)
        requires
            geom_in_range(self@),
        ensures
            c == geom_contains(self@, p@),
    {
        match self {
            PolyType::Polygon(poly) => polygon_hit(poly, p),
            PolyType::MultiPoly(ps) => {
                let n = ps.len();
                let ghost models = ps@.map_values(|q: Polygon| q@);
                proof {
                    assert(self@ == GeomModel::Multi(models));
                    assert(polys_in_range(models));
                }
                let mut i: usize = 0;
                while i < n
                    invariant
                        0 <= i <= n,
                        n == ps@.len(),
                        n == models.len(),
                        models == ps@.map_values(|q: Polygon| q@),
                        self@ == GeomModel::Multi(models),
                        polys_in_range(models),
                        forall|j: int| 0 <= j < i ==> !polygon_contains(#[trigger] models[j], p@),
                    decreases n - i,
                {
                    proof {
                        assert(models[i as int] == ps@[i as int]@);
                        assert(poly_in_range(models[i as int]));
                    }
                    if polygon_hit(&ps[i], p) {
                        proof {
                            assert(polys_contain(models, p@));
                        }
                        return true;
                    }
                    i = i + 1;
                }
                proof {
                    assert(!polys_contain(models, p@));
                }
                false
            },
        }
    }
}

} // verus!

