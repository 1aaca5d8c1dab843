//! The region catalog and the point query.
//!
//! A catalog is an ordered, immutable sequence of (identifier, boundary)
//! pairs, in document order; that order is the tie-break between
//! overlapping boundaries. Building is a pure function of the input bytes;
//! a query scans the catalog and returns the first region whose boundary
//! contains the point, and "no region found" is an ordinary result, not an
//! error.
use crate::builder::{
    build_model, features_model_upto, lemma_features_upto_err, parse_feature, BuildTzLookupError,
    ErrKind,
};
use crate::geometry::{geom_contains, geom_in_range, GeomModel, LonLat, PolyType};
use crate::json::{json_doc, obj_find, parse_json, JsonValue};
use vstd::prelude::*;

verus! {

/// The ordered region catalog.
#[derive(Debug, PartialEq)]
pub struct TzLookup {
    tzs: Vec<(String, PolyType)>,
}

/// What a sequence of (identifier, boundary) pairs denotes.
pub open spec fn regions_view(s: Seq<(String, PolyType)>) -> Seq<(Seq<char>, GeomModel)> {
    s.map_values(|t: (String, PolyType)| (t.0@, t.1@))
}

impl View for TzLookup {
    type V = Seq<(Seq<char>, GeomModel)>;

    closed spec fn view(&self) -> Seq<(Seq<char>, GeomModel)> {
        regions_view(self.tzs@)
    }
}

/// Everything `new` promises: the result is exactly what the document
/// model says the input bytes denote — the same bytes always give the
/// same catalog, or the same error kind.
pub open spec fn new_post(bytes: Seq<u8>, r: Result<TzLookup, BuildTzLookupError>) -> bool {
    match json_doc(bytes) {
        Option::None => r matches Err(e) && e@ is Parse,
        Option::Some(doc) => match build_model(doc) {
            Ok(regions) => r matches Ok(t) && t@ == regions,
            Err(k) => r matches Err(e) && e@ == k,
        },
    }
}

/// Everything `lookup` promises: `Some` names the first region in catalog
/// order whose boundary contains the point; `None` says no region does.
pub open spec fn lookup_post(
    regions: Seq<(Seq<char>, GeomModel)>,
    p: (int, int),
    r: Option<Seq<char>>,
) -> bool {
    match r {
        Option::Some(id) => exists|i: int|
            #![trigger regions[i]]
            0 <= i < regions.len() && geom_contains(regions[i].1, p) && id == regions[i].0 && (
            forall|j: int| 0 <= j < i ==> !geom_contains((#[trigger] regions[j]).1, p)),
        Option::None => forall|i: int|
            0 <= i < regions.len() ==> !geom_contains((#[trigger] regions[i]).1, p),
    }
}

impl TzLookup {
    #[verifier::type_invariant]
    spec fn wf(self) -> bool {
        forall|i: int| 0 <= i < self@.len() ==> geom_in_range((#[trigger] self@[i]).1)
    }

    /// Builds a catalog from the bytes of a GeoJSON feature collection
    /// document, in document order, or fails with the first structural
    /// error. No partial catalog survives an error.
    #[verifier::loop_isolation(false)]
    pub fn new(geo_json: &[u8]) -> (r: Result<TzLookup, BuildTzLookupError>)
        ensures
            new_post(geo_json@, r),
    {
        let doc = match parse_json(geo_json) {
            Ok(v) => v,
            Err(m) => {
                return Err(BuildTzLookupError::ParseError(m));
            },
        };
        let es = match &doc {
            JsonValue::Obj(es) => es,
            _ => {
                return Err(BuildTzLookupError::InvalidDocument);
            },
        };
        let type_key: String = "type".to_owned();
        let fc_tag: String = "FeatureCollection".to_owned();
        match obj_find(es, &type_key) {
            Option::Some(tv) => match tv {
                JsonValue::Text(t) => {
                    if !t.eq(&fc_tag) {
                        return Err(BuildTzLookupError::InvalidDocument);
                    }
                },
                _ => {
                    return Err(BuildTzLookupError::InvalidDocument);
                },
            },
            Option::None => {
                return Err(BuildTzLookupError::InvalidDocument);
            },
        }
        let features_key: String = "features".to_owned();
        let fs = match obj_find(es, &features_key) {
            Option::Some(fv) => match fv {
                JsonValue::Arr(fs) => fs,
                _ => {
                    return Err(BuildTzLookupError::InvalidDocument);
                },
            },
            Option::None => {
                return Err(BuildTzLookupError::InvalidDocument);
            },
        };
        let n = fs.len();
        let mut tzs: Vec<(String, PolyType)> = Vec::new();
        proof {
            assert(tzs@.map_values(|t: (String, PolyType)| (t.0@, t.1@)) =~= Seq::<
                (Seq<char>, GeomModel),
            >::empty());
        }
        let mut i: usize = 0;
        while i < n
            invariant
                0 <= i <= n,
                tzs@.len() == i,
                features_model_upto(fs@, i as int) == Ok::<Seq<(Seq<char>, GeomModel)>, ErrKind>(
                    tzs@.map_values(|t: (String, PolyType)| (t.0@, t.1@)),
                ),
                forall|m: int| 0 <= m < i ==> geom_in_range(#[trigger] tzs@[m].1@),
            decreases n - i,
        {
            let ghost pre = tzs@.map_values(|t: (String, PolyType)| (t.0@, t.1@));
            match parse_feature(&fs[i]) {
                Ok(t) => {
                    tzs.push(t);
                    proof {
                        assert(tzs@.map_values(|t: (String, PolyType)| (t.0@, t.1@)) =~= pre.push(
                            (tzs@[i as int].0@, tzs@[i as int].1@),
                        ));
                    }
                },
                Err(e) => {
                    proof {
                        lemma_features_upto_err(fs@, i as int + 1, fs@.len() as int);
                    }
                    return Err(e);
                },
            }
            i = i + 1;
        }
        let cat = TzLookup { tzs };
        proof {
            assert forall|m: int| 0 <= m < cat@.len() implies geom_in_range(
                (#[trigger] cat@[m]).1,
            ) by {
                assert(cat@[m] == (cat.tzs@[m].0@, cat.tzs@[m].1@));
            }
        }
        Ok(cat)
    }

    /// The cataloged regions, in catalog order.
    pub fn regions(&self) -> (r: &Vec<(String, PolyType)>)
        ensures
            regions_view(r@) == self@,
    {
        &self.tzs
    }

    /// Rebuilds a catalog from its regions, as decoding a precomputed
    /// snapshot does. Succeeds exactly when every boundary's coordinates
    /// lie in the accepted range — the invariant that building from a
    /// document establishes — and then reproduces the regions unchanged,
    /// in order.
    #[verifier::loop_isolation(false)]
    pub fn from_regions(tzs: Vec<(String, PolyType)>) -> (r: Result<TzLookup, BuildTzLookupError>)
        ensures
            r is Ok <==> (forall|i: int|
                0 <= i < tzs@.len() ==> geom_in_range(#[trigger] tzs@[i].1@)),
            r matches Ok(t) ==> t@ == regions_view(tzs@),
            r matches Err(e) ==> e == BuildTzLookupError::InvalidGeometry(
                crate::builder::GeometryFault::CoordinateOutOfRange,
            ),
    {
        let n = tzs.len();
        let mut i: usize = 0;
        while i < n
            invariant
                0 <= i <= n,
                forall|m: int| 0 <= m < i ==> geom_in_range(#[trigger] tzs@[m].1@),
            decreases n - i,
        {
            if !tzs[i].1.in_range() {
                return Err(
                    BuildTzLookupError::InvalidGeometry(
                        crate::builder::GeometryFault::CoordinateOutOfRange,
                    ),
                );
            }
            i = i + 1;
        }
        let cat = TzLookup { tzs };
        proof {
            assert forall|m: int| 0 <= m < cat@.len() implies geom_in_range(
                (#[trigger] cat@[m]).1,
            ) by {
                assert(cat@[m] == (cat.tzs@[m].0@, cat.tzs@[m].1@));
            }
        }
        Ok(cat)
    }

    /// Returns the identifier of the first cataloged region whose boundary
    /// contains the point, or `None` when no region does. Coordinates are
    /// in scaled units: ten-millionths of a degree, longitude then
    /// latitude.
    #[verifier::loop_isolation(false)]
    pub fn lookup(&self, lon: i64, lat: i64) -> (r: Option<&str>)
        ensures
            lookup_post(
                self@,
                (lon as int, lat as int),
                match r {
                    Option::Some(s) => Option::Some(s@),
                    Option::None => Option::None,
                },
            ),
    {
        proof {
            use_type_invariant(&*self);
        }
        let p = LonLat { lon, lat };
        let n = self.tzs.len();
        let mut i: usize = 0;
        while i < n
            invariant
                0 <= i <= n,
                n == self.tzs@.len(),
                forall|j: int|
                    0 <= j < i ==> !geom_contains((#[trigger] self@[j]).1, (lon as int, lat as int)),
            decreases n - i,
        {
            proof {
                assert(self@[i as int] == (self.tzs@[i as int].0@, self.tzs@[i as int].1@));
            }
            if self.tzs[i].1.contains_point(p) {
                return Some(self.tzs[i].0.as_str());
            }
            i = i + 1;
        }
        None
    }
}

} // verus!
