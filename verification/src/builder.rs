//! Structural validation and shape conversion of a feature collection.
//!
//! Each spec function here is the exact model of one conversion step; the
//! executable parsers return precisely what their model says, including
//! which error a malformed input yields. The first structural error aborts
//! the whole build: a malformed dataset is assumed static and curated, so
//! silently skipping a region would answer queries wrongly with no warning.
use crate::geometry::{
    coord_in_range, geom_in_range, poly_in_range, polys_in_range, ring_in_range, GeomModel,
    LonLat, PolyModel, PolyType, Polygon, Ring,
};
use crate::json::{obj_find, obj_get, JsonValue};
use crate::num::{coord_model, parse_coord, CoordOutcome};
use vstd::prelude::*;

verus! {

/// Why a geometry value failed shape conversion.
#[derive(Clone, Copy, Debug, PartialEq, Eq, Structural)]
pub enum GeometryFault {
    /// The geometry is not a JSON object.
    NotAnObject,
    /// The geometry object has no `type` member.
    KindMissing,
    /// The `type` member is not a text value.
    KindNotText,
    /// The `type` text names no GeoJSON geometry kind.
    UnknownKind,
    /// The geometry object has no `coordinates` member.
    CoordinatesMissing,
    /// A rings or positions level is not an array.
    NotAnArray,
    /// A position is not an array of at least two numbers.
    BadPosition,
    /// A coordinate is not a plain decimal literal.
    BadNumber,
    /// A coordinate lies beyond the accepted degree range.
    CoordinateOutOfRange,
    /// A ring has fewer than three distinct vertices.
    DegenerateRing,
    /// A polygon has no rings at all.
    EmptyPolygon,
    /// A multi-polygon has no polygons at all.
    EmptyMultiPolygon,
}

/// A build failure. Every one aborts the whole build; query time has no
/// error channel.
#[derive(Debug, Clone, PartialEq)]
pub enum BuildTzLookupError {
    /// The bytes are not well-formed JSON; carries the parser's message.
    ParseError(String),
    /// The document is no feature collection, or a feature lacks geometry.
    InvalidDocument,
    /// A feature has no property map at all.
    FeatureHasNoProperties,
    /// A feature's property map lacks `tzid`.
    FeaturePropertyMissing,
    /// A feature's `tzid` property is not a text value.
    FeaturePropertyNotString,
    /// A geometry failed shape conversion.
    InvalidGeometry(GeometryFault),
    /// A well-formed geometry of a kind other than polygon or multi-polygon.
    UnsupportedGeometryKind,
}

/// The mathematical shape of a build failure. The text carried by
/// `ParseError` is diagnostic only and has no model.
pub enum ErrKind {
    Parse,
    InvalidDocument,
    NoProperties,
    PropertyMissing,
    PropertyNotString,
    Geometry(GeometryFault),
    Unsupported,
}

impl View for BuildTzLookupError {
    type V = ErrKind;

    open spec fn view(&self) -> ErrKind {
        match self {
            BuildTzLookupError::ParseError(_) => ErrKind::Parse,
            BuildTzLookupError::InvalidDocument => ErrKind::InvalidDocument,
            BuildTzLookupError::FeatureHasNoProperties => ErrKind::NoProperties,
            BuildTzLookupError::FeaturePropertyMissing => ErrKind::PropertyMissing,
            BuildTzLookupError::FeaturePropertyNotString => ErrKind::PropertyNotString,
            BuildTzLookupError::InvalidGeometry(f) => ErrKind::Geometry(*f),
            BuildTzLookupError::UnsupportedGeometryKind => ErrKind::Unsupported,
        }
    }
}

/// What one position array denotes: a coordinate pair, or the first fault.
pub open spec fn position_model(v: JsonValue) -> Result<(int, int), GeometryFault> {
    match v {
        JsonValue::Arr(elems) => if elems@.len() < 2 {
            Err(GeometryFault::BadPosition)
        } else {
            match elems@[0] {
                JsonValue::Num(a) => match elems@[1] {
                    JsonValue::Num(b) => match coord_model(a@) {
                        CoordOutcome::Malformed => Err(GeometryFault::BadNumber),
                        CoordOutcome::OutOfRange => Err(GeometryFault::CoordinateOutOfRange),
                        CoordOutcome::Value(x) => match coord_model(b@) {
                            CoordOutcome::Malformed => Err(GeometryFault::BadNumber),
                            CoordOutcome::OutOfRange => Err(GeometryFault::CoordinateOutOfRange),
                            CoordOutcome::Value(y) => Ok((x as int, y as int)),
                        },
                    },
                    _ => Err(GeometryFault::BadPosition),
                },
                _ => Err(GeometryFault::BadPosition),
            }
        },
        _ => Err(GeometryFault::BadPosition),
    }
}

/// The coordinate pairs of the first `i` positions, or the first fault.
pub open spec fn positions_model_upto(s: Seq<JsonValue>, i: int) -> Result<
    Seq<(int, int)>,
    GeometryFault,
>
    decreases i,
{
    if i <= 0 {
        Ok(Seq::empty())
    } else {
        match positions_model_upto(s, i - 1) {
            Err(f) => Err(f),
            Ok(pre) => match position_model(s[i - 1]) {
                Err(f) => Err(f),
                Ok(c) => Ok(pre.push(c)),
            },
        }
    }
}

pub proof fn lemma_positions_upto_err(s: Seq<JsonValue>, i: int, n: int)
    requires
        0 <= i <= n,
        positions_model_upto(s, i) is Err,
    ensures
        positions_model_upto(s, n) == positions_model_upto(s, i),
    decreases n - i,
{
    if i < n {
        lemma_positions_upto_err(s, i, n - 1);
    }
}

/// What one ring array denotes: its coordinate pairs, which must include
/// three distinct vertices.
pub open spec fn ring_model(v: JsonValue) -> Result<Seq<(int, int)>, GeometryFault> {
    match v {
        JsonValue::Arr(ps) => match positions_model_upto(ps@, ps@.len() as int) {
            Err(f) => Err(f),
            Ok(cs) => if has_three_distinct(cs) {
                Ok(cs)
            } else {
                Err(GeometryFault::DegenerateRing)
            },
        },
        _ => Err(GeometryFault::NotAnArray),
    }
}

/// At least three pairwise distinct vertices.
pub open spec fn has_three_distinct(r: Seq<(int, int)>) -> bool {
    exists|i: int, j: int, k: int|
        #![trigger r[i], r[j], r[k]]
        0 <= i < j < k < r.len() && r[i] != r[j] && r[i] != r[k] && r[j] != r[k]
}

/// The ring sequences of the first `i` ring arrays, or the first fault.
pub open spec fn rings_model_upto(s: Seq<JsonValue>, i: int) -> Result<
    Seq<Seq<(int, int)>>,
    GeometryFault,
>
    decreases i,
{
    if i <= 0 {
        Ok(Seq::empty())
    } else {
        match rings_model_upto(s, i - 1) {
            Err(f) => Err(f),
            Ok(pre) => match ring_model(s[i - 1]) {
                Err(f) => Err(f),
                Ok(rg) => Ok(pre.push(rg)),
            },
        }
    }
}

pub proof fn lemma_rings_upto_err(s: Seq<JsonValue>, i: int, n: int)
    requires
        0 <= i <= n,
        rings_model_upto(s, i) is Err,
    ensures
        rings_model_upto(s, n) == rings_model_upto(s, i),
    decreases n - i,
{
    if i < n {
        lemma_rings_upto_err(s, i, n - 1);
    }
}

/// What one polygon coordinate array denotes: the first ring is the
/// exterior, the rest are holes.
pub open spec fn polygon_model(v: JsonValue) -> Result<PolyModel, GeometryFault> {
    match v {
        JsonValue::Arr(rs) => if rs@.len() == 0 {
            Err(GeometryFault::EmptyPolygon)
        } else {
            match rings_model_upto(rs@, rs@.len() as int) {
                Err(f) => Err(f),
                Ok(rr) => Ok(PolyModel { exterior: rr[0], holes: rr.drop_first() }),
            }
        },
        _ => Err(GeometryFault::NotAnArray),
    }
}

/// The polygons of the first `i` polygon arrays, or the first fault.
pub open spec fn polys_model_upto(s: Seq<JsonValue>, i: int) -> Result<
    Seq<PolyModel>,
    GeometryFault,
>
    decreases i,
{
    if i <= 0 {
        Ok(Seq::empty())
    } else {
        match polys_model_upto(s, i - 1) {
            Err(f) => Err(f),
            Ok(pre) => match polygon_model(s[i - 1]) {
                Err(f) => Err(f),
                Ok(pm) => Ok(pre.push(pm)),
            },
        }
    }
}

pub proof fn lemma_polys_upto_err(s: Seq<JsonValue>, i: int, n: int)
    requires
        0 <= i <= n,
        polys_model_upto(s, i) is Err,
    ensures
        polys_model_upto(s, n) == polys_model_upto(s, i),
    decreases n - i,
{
    if i < n {
        lemma_polys_upto_err(s, i, n - 1);
    }
}

/// The GeoJSON geometry kinds that are well-formed but not cataloged.
pub open spec fn is_other_kind(k: Seq<char>) -> bool {
    ||| k == "Point"@
    ||| k == "MultiPoint"@
    ||| k == "LineString"@
    ||| k == "MultiLineString"@
    ||| k == "GeometryCollection"@
}

/// What one geometry object denotes: a boundary, or why it is refused.
/// The kind is judged before the coordinates: a non-polygon kind is
/// unsupported whatever its coordinates hold.
pub open spec fn geometry_model(g: JsonValue) -> Result<GeomModel, ErrKind> {
    match g {
        JsonValue::Obj(ge) => match obj_get(ge@, "type"@) {
            Option::None => Err(ErrKind::Geometry(GeometryFault::KindMissing)),
            Option::Some(kv) => match kv {
                JsonValue::Text(k) => if k@ == "Polygon"@ {
                    match obj_get(ge@, "coordinates"@) {
                        Option::None => Err(ErrKind::Geometry(GeometryFault::CoordinatesMissing)),
                        Option::Some(c) => match polygon_model(c) {
                            Err(f) => Err(ErrKind::Geometry(f)),
                            Ok(pm) => Ok(GeomModel::Poly(pm)),
                        },
                    }
                } else if k@ == "MultiPolygon"@ {
                    match obj_get(ge@, "coordinates"@) {
                        Option::None => Err(ErrKind::Geometry(GeometryFault::CoordinatesMissing)),
                        Option::Some(c) => match c {
                            JsonValue::Arr(ps) => if ps@.len() == 0 {
                                Err(ErrKind::Geometry(GeometryFault::EmptyMultiPolygon))
                            } else {
                                match polys_model_upto(ps@, ps@.len() as int) {
                                    Err(f) => Err(ErrKind::Geometry(f)),
                                    Ok(ms) => Ok(GeomModel::Multi(ms)),
                                }
                            },
                            _ => Err(ErrKind::Geometry(GeometryFault::NotAnArray)),
                        },
                    }
                } else if is_other_kind(k@) {
                    Err(ErrKind::Unsupported)
                } else {
                    Err(ErrKind::Geometry(GeometryFault::UnknownKind))
                },
                _ => Err(ErrKind::Geometry(GeometryFault::KindNotText)),
            },
        },
        _ => Err(ErrKind::Geometry(GeometryFault::NotAnObject)),
    }
}

/// What one feature object denotes: its zone identifier and boundary, or
/// the first failure, with the property map judged before the geometry.
/// A missing, null or non-object property map counts as no properties; a
/// missing or null geometry makes the document invalid.
pub open spec fn feature_model(f: JsonValue) -> Result<(Seq<char>, GeomModel), ErrKind> {
    match f {
        JsonValue::Obj(fe) => match obj_get(fe@, "properties"@) {
            Option::Some(JsonValue::Obj(pe)) => match obj_get(pe@, "tzid"@) {
                Option::None => Err(ErrKind::PropertyMissing),
                Option::Some(JsonValue::Text(s)) => match obj_get(fe@, "geometry"@) {
                    Option::None => Err(ErrKind::InvalidDocument),
                    Option::Some(JsonValue::Null) => Err(ErrKind::InvalidDocument),
                    Option::Some(g) => match geometry_model(g) {
                        Err(k) => Err(k),
                        Ok(gm) => Ok((s@, gm)),
                    },
                },
                Option::Some(_) => Err(ErrKind::PropertyNotString),
            },
            _ => Err(ErrKind::NoProperties),
        },
        _ => Err(ErrKind::InvalidDocument),
    }
}

/// The regions of the first `i` features, or the first failure.
pub open spec fn features_model_upto(s: Seq<JsonValue>, i: int) -> Result<
    Seq<(Seq<char>, GeomModel)>,
    ErrKind,
>
    decreases i,
{
    if i <= 0 {
        Ok(Seq::empty())
    } else {
        match features_model_upto(s, i - 1) {
            Err(k) => Err(k),
            Ok(pre) => match feature_model(s[i - 1]) {
                Err(k) => Err(k),
                Ok(rg) => Ok(pre.push(rg)),
            },
        }
    }
}

pub proof fn lemma_features_upto_err(s: Seq<JsonValue>, i: int, n: int)
    requires
        0 <= i <= n,
        features_model_upto(s, i) is Err,
    ensures
        features_model_upto(s, n) == features_model_upto(s, i),
    decreases n - i,
{
    if i < n {
        lemma_features_upto_err(s, i, n - 1);
    }
}

/// What a whole document denotes: the ordered regions of a feature
/// collection, or the first failure.
pub open spec fn build_model(doc: JsonValue) -> Result<Seq<(Seq<char>, GeomModel)>, ErrKind> {
    match doc {
        JsonValue::Obj(es) => if obj_get(es@, "type"@) matches Option::Some(JsonValue::Text(t))
            && t@ == "FeatureCollection"@ {
            match obj_get(es@, "features"@) {
                Option::Some(JsonValue::Arr(fs)) => features_model_upto(fs@, fs@.len() as int),
                _ => Err(ErrKind::InvalidDocument),
            }
        } else {
            Err(ErrKind::InvalidDocument)
        },
        _ => Err(ErrKind::InvalidDocument),
    }
}

fn parse_position(v: &JsonValue) -> (r: Result<LonLat, GeometryFault>)
    ensures
        match r {
            Ok(c) => position_model(*v) == Ok::<(int, int), GeometryFault>(c@) && coord_in_range(
                c@,
            ),
            Err(f) => position_model(*v) == Err::<(int, int), GeometryFault>(f),
        },
{
    match v {
        JsonValue::Arr(elems) => {
            if elems.len() < 2 {
                return Err(GeometryFault::BadPosition);
            }
            let a = match &elems[0] {
                JsonValue::Num(a) => a,
                _ => {
                    return Err(GeometryFault::BadPosition);
                },
            };
            let b = match &elems[1] {
                JsonValue::Num(b) => b,
                _ => {
                    return Err(GeometryFault::BadPosition);
                },
            };
            let x = match parse_coord(a) {
                CoordOutcome::Value(x) => x,
                CoordOutcome::Malformed => {
                    return Err(GeometryFault::BadNumber);
                },
                CoordOutcome::OutOfRange => {
                    return Err(GeometryFault::CoordinateOutOfRange);
                },
            };
            let y = match parse_coord(b) {
                CoordOutcome::Value(y) => y,
                CoordOutcome::Malformed => {
                    return Err(GeometryFault::BadNumber);
                },
                CoordOutcome::OutOfRange => {
                    return Err(GeometryFault::CoordinateOutOfRange);
                },
            };
            Ok(LonLat { lon: x, lat: y })
        },
        _ => Err(GeometryFault::BadPosition),
    }
}

#[verifier::loop_isolation(false)]
fn has_three_distinct_pts(points: &Vec<LonLat>) -> (r: bool)
    ensures
        r == has_three_distinct(points@.map_values(|c: LonLat| c@)),
{
    let ghost rv = points@.map_values(|c: LonLat| c@);
    let n = points.len();
    if n == 0 {
        return false;
    }
    let a = points[0];
    let mut i: usize = 1;
    while i < n && points[i].lon == a.lon && points[i].lat == a.lat
        invariant
            1 <= i <= n,
            forall|m: int| 0 <= m < i ==> points@[m] == a,
        decreases n - i,
    {
        i = i + 1;
    }
    if i == n {
        // every vertex equals the first: no two vertices differ
        proof {
            assert forall|m: int| 0 <= m < rv.len() implies rv[m] == a@ by {
                assert(rv[m] == points@[m]@);
            }
        }
        return false;
    }
    let b = points[i];
    let ghost ib = i as int;
    let mut j: usize = i + 1;
    while j < n && ((points[j].lon == a.lon && points[j].lat == a.lat) || (points[j].lon == b.lon
        && points[j].lat == b.lat))
        invariant
            ib < j <= n,
            forall|m: int| 0 <= m < j ==> points@[m] == a || points@[m] == b,
        decreases n - j,
    {
        j = j + 1;
    }
    if j < n {
        // three pairwise distinct vertices: the first, the first other
        // value, and this one
        proof {
            assert(rv[0] == points@[0]@);
            assert(rv[ib] == points@[ib]@);
            assert(rv[j as int] == points@[j as int]@);
            assert(0 <= 0 < ib < j < rv.len() && rv[0] != rv[ib] && rv[0] != rv[j as int] && rv[ib]
                != rv[j as int]);
        }
        return true;
    }
    // every vertex is one of two values, so among any three two coincide
    proof {
        assert forall|m: int| 0 <= m < rv.len() implies rv[m] == a@ || rv[m] == b@ by {
            assert(rv[m] == points@[m]@);
        }
    }
    false
}

#[verifier::loop_isolation(false)]
pub(crate) fn parse_ring(v: &JsonValue) -> (r: Result<Ring, GeometryFault>)
    ensures
        match r {
            Ok(rg) => ring_model(*v) == Ok::<Seq<(int, int)>, GeometryFault>(rg@) && ring_in_range(
                rg@,
            ),
            Err(f) => ring_model(*v) == Err::<Seq<(int, int)>, GeometryFault>(f),
        },
{
    match v {
        JsonValue::Arr(ps) => {
            let n = ps.len();
            let mut points: Vec<LonLat> = Vec::new();
            proof {
                assert(points@.map_values(|c: LonLat| c@) =~= Seq::<(int, int)>::empty());
            }
            let mut i: usize = 0;
            while i < n
                invariant
                    0 <= i <= n,
                    n == ps@.len(),
                    points@.len() == i,
                    positions_model_upto(ps@, i as int) == Ok::<Seq<(int, int)>, GeometryFault>(
                        points@.map_values(|c: LonLat| c@),
                    ),
                    forall|m: int| 0 <= m < i ==> coord_in_range(#[trigger] points@[m]@),
                decreases n - i,
            {
                let ghost pre = points@.map_values(|c: LonLat| c@);
                match parse_position(&ps[i]) {
                    Ok(c) => {
                        points.push(c);
                        proof {
                            assert(points@.map_values(|c: LonLat| c@) =~= pre.push(c@));
                        }
                    },
                    Err(f) => {
                        proof {
                            assert(positions_model_upto(ps@, i as int + 1) == Err::<
                                Seq<(int, int)>,
                                GeometryFault,
                            >(f));
                            lemma_positions_upto_err(ps@, i as int + 1, ps@.len() as int);
                        }
                        return Err(f);
                    },
                }
                i = i + 1;
            }
            let ghost cs = points@.map_values(|c: LonLat| c@);
            if has_three_distinct_pts(&points) {
                let rg = Ring { points };
                proof {
                    assert(rg@ == cs);
                    assert forall|m: int| 0 <= m < rg@.len() implies coord_in_range(
                        #[trigger] rg@[m],
                    ) by {
                        assert(rg@[m] == points@[m]@);
                    }
                }
                Ok(rg)
            } else {
                Err(GeometryFault::DegenerateRing)
            }
        },
        _ => Err(GeometryFault::NotAnArray),
    }
}

#[verifier::loop_isolation(false)]
pub(crate) fn parse_polygon(v: &JsonValue) -> (r: Result<Polygon, GeometryFault>)
    ensures
        match r {
            Ok(pg) => polygon_model(*v) == Ok::<PolyModel, GeometryFault>(pg@) && poly_in_range(
                pg@,
            ),
            Err(f) => polygon_model(*v) == Err::<PolyModel, GeometryFault>(f),
        },
{
    match v {
        JsonValue::Arr(rs) => {
            let n = rs.len();
            if n == 0 {
                return Err(GeometryFault::EmptyPolygon);
            }
            let mut rings: Vec<Ring> = Vec::new();
            proof {
                assert(rings@.map_values(|rg: Ring| rg@) =~= Seq::<Seq<(int, int)>>::empty());
            }
            let mut i: usize = 0;
            while i < n
                invariant
                    0 <= i <= n,
                    n == rs@.len(),
                    rings@.len() == i,
                    rings_model_upto(rs@, i as int) == Ok::<Seq<Seq<(int, int)>>, GeometryFault>(
                        rings@.map_values(|rg: Ring| rg@),
                    ),
                    forall|m: int| 0 <= m < i ==> ring_in_range(#[trigger] rings@[m]@),
                decreases n - i,
            {
                let ghost pre = rings@.map_values(|rg: Ring| rg@);
                match parse_ring(&rs[i]) {
                    Ok(rg) => {
                        rings.push(rg);
                        proof {
                            assert(rings@.map_values(|rg: Ring| rg@) =~= pre.push(
                                rings@[i as int]@,
                            ));
                        }
                    },
                    Err(f) => {
                        proof {
                            lemma_rings_upto_err(rs@, i as int + 1, rs@.len() as int);
                        }
                        return Err(f);
                    },
                }
                i = i + 1;
            }
            let ghost rr = rings@.map_values(|rg: Ring| rg@);
            let exterior = rings.remove(0);
            let pg = Polygon { exterior, holes: rings };
            proof {
                assert(pg@.exterior == rr[0]);
                assert(pg@.holes =~~= rr.drop_first());
                assert(pg@ =~~= PolyModel { exterior: rr[0], holes: rr.drop_first() });
                assert forall|m: int| 0 <= m < pg@.holes.len() implies ring_in_range(
                    #[trigger] pg@.holes[m],
                ) by {
                    assert(pg@.holes[m] == rr[m + 1]);
                }
            }
            Ok(pg)
        },
        _ => Err(GeometryFault::NotAnArray),
    }
}

fn is_other_kind_name(k: &String) -> (r: bool)
    ensures
        r == is_other_kind(k@),
{
    let point: String = "Point".to_owned();
    let multi_point: String = "MultiPoint".to_owned();
    let line: String = "LineString".to_owned();
    let multi_line: String = "MultiLineString".to_owned();
    let collection: String = "GeometryCollection".to_owned();
    k.eq(&point) || k.eq(&multi_point) || k.eq(&line) || k.eq(&multi_line) || k.eq(&collection)
}

#[verifier::loop_isolation(false)]
pub(crate) fn parse_geometry(g: &JsonValue) -> (r: Result<PolyType, BuildTzLookupError>)
    ensures
        match r {
            Ok(pt) => geometry_model(*g) == Ok::<GeomModel, ErrKind>(pt@) && geom_in_range(
                pt@,
            ),
            Err(e) => geometry_model(*g) == Err::<GeomModel, ErrKind>(e@),
        },
{
    let ge = match g {
        JsonValue::Obj(ge) => ge,
        _ => {
            return Err(BuildTzLookupError::InvalidGeometry(GeometryFault::NotAnObject));
        },
    };
    let type_key: String = "type".to_owned();
    let kv = match obj_find(ge, &type_key) {
        Option::Some(kv) => kv,
        Option::None => {
            return Err(BuildTzLookupError::InvalidGeometry(GeometryFault::KindMissing));
        },
    };
    let k = match kv {
        JsonValue::Text(k) => k,
        _ => {
            return Err(BuildTzLookupError::InvalidGeometry(GeometryFault::KindNotText));
        },
    };
    let poly_kind: String = "Polygon".to_owned();
    let multi_kind: String = "MultiPolygon".to_owned();
    let coords_key: String = "coordinates".to_owned();
    if k.eq(&poly_kind) {
        let c = match obj_find(ge, &coords_key) {
            Option::Some(c) => c,
            Option::None => {
                return Err(BuildTzLookupError::InvalidGeometry(GeometryFault::CoordinatesMissing));
            },
        };
        match parse_polygon(c) {
            Ok(pg) => Ok(PolyType::Polygon(pg)),
            Err(f) => Err(BuildTzLookupError::InvalidGeometry(f)),
        }
    } else if k.eq(&multi_kind) {
        let c = match obj_find(ge, &coords_key) {
            Option::Some(c) => c,
            Option::None => {
                return Err(BuildTzLookupError::InvalidGeometry(GeometryFault::CoordinatesMissing));
            },
        };
        let ps = match c {
            JsonValue::Arr(ps) => ps,
            _ => {
                return Err(BuildTzLookupError::InvalidGeometry(GeometryFault::NotAnArray));
            },
        };
        let n = ps.len();
        if n == 0 {
            return Err(BuildTzLookupError::InvalidGeometry(GeometryFault::EmptyMultiPolygon));
        }
        let mut polys: Vec<Polygon> = Vec::new();
        proof {
            assert(polys@.map_values(|p: Polygon| p@) =~= Seq::<PolyModel>::empty());
        }
        let mut i: usize = 0;
        while i < n
            invariant
                0 <= i <= n,
                polys@.len() == i,
                polys_model_upto(ps@, i as int) == Ok::<Seq<PolyModel>, GeometryFault>(
                    polys@.map_values(|p: Polygon| p@),
                ),
                forall|m: int| 0 <= m < i ==> poly_in_range(#[trigger] polys@[m]@),
            decreases n - i,
        {
            let ghost pre = polys@.map_values(|p: Polygon| p@);
            match parse_polygon(&ps[i]) {
                Ok(pg) => {
                    polys.push(pg);
                    proof {
                        assert(polys@.map_values(|p: Polygon| p@) =~= pre.push(polys@[i as int]@));
                    }
                },
                Err(f) => {
                    proof {
                        lemma_polys_upto_err(ps@, i as int + 1, ps@.len() as int);
                    }
                    return Err(BuildTzLookupError::InvalidGeometry(f));
                },
            }
            i = i + 1;
        }
        let pt = PolyType::MultiPoly(polys);
        proof {
            let models = pt->MultiPoly_0@.map_values(|p: Polygon| p@);
            assert forall|m: int| 0 <= m < models.len() implies poly_in_range(
                #[trigger] models[m],
            ) by {
                assert(models[m] == pt->MultiPoly_0@[m]@);
            }
            assert(polys_in_range(models));
        }
        Ok(pt)
    } else if is_other_kind_name(k) {
        Err(BuildTzLookupError::UnsupportedGeometryKind)
    } else {
        Err(BuildTzLookupError::InvalidGeometry(GeometryFault::UnknownKind))
    }
}

pub(crate) fn parse_feature(f: &JsonValue) -> (r: Result<(String, PolyType), BuildTzLookupError>)
    ensures
        match r {
            Ok(t) => feature_model(*f) == Ok::<(Seq<char>, GeomModel), ErrKind>((t.0@, t.1@))
                && geom_in_range(t.1@),
            Err(e) => feature_model(*f) == Err::<(Seq<char>, GeomModel), ErrKind>(e@),
        },
{
    let fe = match f {
        JsonValue::Obj(fe) => fe,
        _ => {
            return Err(BuildTzLookupError::InvalidDocument);
        },
    };
    let props_key: String = "properties".to_owned();
    let pv = match obj_find(fe, &props_key) {
        Option::Some(pv) => pv,
        Option::None => {
            return Err(BuildTzLookupError::FeatureHasNoProperties);
        },
    };
    let pe = match pv {
        JsonValue::Obj(pe) => pe,
        _ => {
            return Err(BuildTzLookupError::FeatureHasNoProperties);
        },
    };
    let tzid_key: String = "tzid".to_owned();
    let tv = match obj_find(pe, &tzid_key) {
        Option::Some(tv) => tv,
        Option::None => {
            return Err(BuildTzLookupError::FeaturePropertyMissing);
        },
    };
    let s = match tv {
        JsonValue::Text(s) => s,
        _ => {
            return Err(BuildTzLookupError::FeaturePropertyNotString);
        },
    };
    let geom_key: String = "geometry".to_owned();
    let gv = match obj_find(fe, &geom_key) {
        Option::Some(gv) => gv,
        Option::None => {
            return Err(BuildTzLookupError::InvalidDocument);
        },
    };
    match gv {
        JsonValue::Null => {
            return Err(BuildTzLookupError::InvalidDocument);
        },
        _ => {},
    }
    match parse_geometry(gv) {
        Ok(pt) => Ok((s.clone(), pt)),
        Err(e) => Err(e),
    }
}

} // verus!
