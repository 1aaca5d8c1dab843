//! The library's laws, proved once and for all inputs.
use crate::builder::BuildTzLookupError;
use crate::catalog::{lookup_post, new_post, TzLookup};
use crate::geometry::{
    geom_contains, polygon_contains, polys_contain, ring_contains, GeomModel, PolyModel,
};
use vstd::prelude::*;

verus! {

/// Order determinism: building is a pure function of the input bytes, so
/// two builds over the same bytes yield catalogs with the same regions in
/// the same order with the same coordinates, or failures of the same kind.
pub proof fn lemma_build_deterministic(
    bytes: Seq<u8>,
    r1: Result<TzLookup, BuildTzLookupError>,
    r2: Result<TzLookup, BuildTzLookupError>,
)
    requires
        new_post(bytes, r1),
        new_post(bytes, r2),
    ensures
        r1 matches Ok(c1) ==> r2 matches Ok(c2) && c1@ == c2@,
        r1 matches Err(e1) ==> r2 matches Err(e2) && e1@ == e2@,
{
}

/// First-match precedence: when two regions both contain the point, the
/// lookup answer is the identifier of a containing region that appears no
/// later than either of them, and of the earliest containing one.
pub proof fn lemma_first_match_precedence(
    regions: Seq<(Seq<char>, GeomModel)>,
    p: (int, int),
    r: Option<Seq<char>>,
    i: int,
    j: int,
)
    requires
        lookup_post(regions, p, r),
        0 <= i < j < regions.len(),
        geom_contains(regions[i].1, p),
        geom_contains(regions[j].1, p),
    ensures
        r matches Some(id) && exists|k: int|
            #![trigger regions[k]]
            0 <= k <= i && id == regions[k].0 && geom_contains(regions[k].1, p) && (forall|m: int|
                0 <= m < k ==> !geom_contains((#[trigger] regions[m]).1, p)),
{
    match r {
        Option::Some(id) => {
            let k = choose|k: int|
                #![trigger regions[k]]
                0 <= k < regions.len() && geom_contains(regions[k].1, p) && id == regions[k].0 && (
                forall|m: int| 0 <= m < k ==> !geom_contains((#[trigger] regions[m]).1, p));
            if k > i {
                assert(!geom_contains(regions[i].1, p));
            }
        },
        Option::None => {
            assert(!geom_contains(regions[i].1, p));
        },
    }
}

/// The lookup contract pins its answer: two results that both satisfy it
/// for the same catalog and point are the same result.
pub proof fn lemma_lookup_deterministic(
    regions: Seq<(Seq<char>, GeomModel)>,
    p: (int, int),
    r1: Option<Seq<char>>,
    r2: Option<Seq<char>>,
)
    requires
        lookup_post(regions, p, r1),
        lookup_post(regions, p, r2),
    ensures
        r1 == r2,
{
    match (r1, r2) {
        (Option::Some(id1), Option::Some(id2)) => {
            let k1 = choose|k: int|
                #![trigger regions[k]]
                0 <= k < regions.len() && geom_contains(regions[k].1, p) && id1 == regions[k].0 && (
                forall|m: int| 0 <= m < k ==> !geom_contains((#[trigger] regions[m]).1, p));
            let k2 = choose|k: int|
                #![trigger regions[k]]
                0 <= k < regions.len() && geom_contains(regions[k].1, p) && id2 == regions[k].0 && (
                forall|m: int| 0 <= m < k ==> !geom_contains((#[trigger] regions[m]).1, p));
            if k1 < k2 {
                assert(!geom_contains(regions[k1].1, p));
            }
            if k2 < k1 {
                assert(!geom_contains(regions[k2].1, p));
            }
        },
        (Option::Some(id1), Option::None) => {
            let k1 = choose|k: int|
                #![trigger regions[k]]
                0 <= k < regions.len() && geom_contains(regions[k].1, p) && id1 == regions[k].0 && (
                forall|m: int| 0 <= m < k ==> !geom_contains((#[trigger] regions[m]).1, p));
            assert(!geom_contains(regions[k1].1, p));
        },
        (Option::None, Option::Some(id2)) => {
            let k2 = choose|k: int|
                #![trigger regions[k]]
                0 <= k < regions.len() && geom_contains(regions[k].1, p) && id2 == regions[k].0 && (
                forall|m: int| 0 <= m < k ==> !geom_contains((#[trigger] regions[m]).1, p));
            assert(!geom_contains(regions[k2].1, p));
        },
        (Option::None, Option::None) => {},
    }
}

/// Hole exclusion: a point inside one of a polygon's interior rings is
/// not contained by that polygon, however its exterior ring votes.
pub proof fn lemma_hole_exclusion(pm: PolyModel, p: (int, int), h: int)
    requires
        0 <= h < pm.holes.len(),
        ring_contains(pm.holes[h], p),
    ensures
        !polygon_contains(pm, p),
{
}

/// Multi-polygon union: a point contained by any constituent polygon is
/// contained by the multi-polygon boundary.
pub proof fn lemma_multi_polygon_union(ps: Seq<PolyModel>, p: (int, int), i: int)
    requires
        0 <= i < ps.len(),
        polygon_contains(ps[i], p),
    ensures
        geom_contains(GeomModel::Multi(ps), p),
{
    assert(polys_contain(ps, p));
}

/// Absence: when no cataloged boundary contains the point, the lookup
/// answer is "no region found".
pub proof fn lemma_absence(regions: Seq<(Seq<char>, GeomModel)>, p: (int, int), r: Option<
    Seq<char>,
>)
    requires
        lookup_post(regions, p, r),
        forall|i: int| 0 <= i < regions.len() ==> !geom_contains((#[trigger] regions[i]).1, p),
    ensures
        r is None,
{
}

} // verus!
