use tz_lookup_simple::{BuildTzLookupError, GeometryFault, TzLookup};

fn feature(props: &str, geometry: &str) -> String {
    format!(r#"{{"type":"Feature"{},"geometry":{}}}"#, props, geometry)
}

fn collection(features: &[String]) -> String {
    format!(
        r#"{{"type":"FeatureCollection","features":[{}]}}"#,
        features.join(",")
    )
}

fn unit_square_polygon() -> &'static str {
    r#"{"type":"Polygon","coordinates":[[[0.0,0.0],[0.0,1.0],[1.0,1.0],[1.0,0.0],[0.0,0.0]]]}"#
}

#[test]
fn malformed_json_is_parse_error() {
    let r = TzLookup::new(b"{\"type\":\"FeatureCollection\"");
    match r {
        Err(BuildTzLookupError::ParseError(_)) => {}
        other => panic!("expected ParseError, got {:?}", other),
    }
}

#[test]
fn non_collection_document_is_invalid() {
    assert_eq!(
        TzLookup::new(br#"{"a":1}"#).unwrap_err(),
        BuildTzLookupError::InvalidDocument
    );
    assert_eq!(
        TzLookup::new(br#"[1,2]"#).unwrap_err(),
        BuildTzLookupError::InvalidDocument
    );
    // a bare geometry is not a feature collection
    let bare = unit_square_polygon();
    assert_eq!(
        TzLookup::new(bare.as_bytes()).unwrap_err(),
        BuildTzLookupError::InvalidDocument
    );
}

#[test]
fn missing_properties_reported() {
    let doc = collection(&[feature("", unit_square_polygon())]);
    assert_eq!(
        TzLookup::new(doc.as_bytes()).unwrap_err(),
        BuildTzLookupError::FeatureHasNoProperties
    );
    // an explicit null property map counts as none
    let doc = collection(&[feature(r#","properties":null"#, unit_square_polygon())]);
    assert_eq!(
        TzLookup::new(doc.as_bytes()).unwrap_err(),
        BuildTzLookupError::FeatureHasNoProperties
    );
}

#[test]
fn missing_tzid_reported() {
    let doc = collection(&[feature(r#","properties":{"name":"x"}"#, unit_square_polygon())]);
    assert_eq!(
        TzLookup::new(doc.as_bytes()).unwrap_err(),
        BuildTzLookupError::FeaturePropertyMissing
    );
}

#[test]
fn non_string_tzid_reported() {
    let doc = collection(&[feature(r#","properties":{"tzid":7}"#, unit_square_polygon())]);
    assert_eq!(
        TzLookup::new(doc.as_bytes()).unwrap_err(),
        BuildTzLookupError::FeaturePropertyNotString
    );
}

#[test]
fn point_geometry_is_unsupported() {
    let geom = r#"{"type":"Point","coordinates":[1.0,2.0]}"#;
    let doc = collection(&[feature(r#","properties":{"tzid":"A"}"#, geom)]);
    assert_eq!(
        TzLookup::new(doc.as_bytes()).unwrap_err(),
        BuildTzLookupError::UnsupportedGeometryKind
    );
}

#[test]
fn missing_geometry_is_invalid_document() {
    let doc = r#"{"type":"FeatureCollection","features":[{"type":"Feature","properties":{"tzid":"A"}}]}"#;
    assert_eq!(
        TzLookup::new(doc.as_bytes()).unwrap_err(),
        BuildTzLookupError::InvalidDocument
    );
    let doc = collection(&[feature(r#","properties":{"tzid":"A"}"#, "null")]);
    assert_eq!(
        TzLookup::new(doc.as_bytes()).unwrap_err(),
        BuildTzLookupError::InvalidDocument
    );
}

#[test]
fn degenerate_ring_reported() {
    // only two distinct vertices
    let geom = r#"{"type":"Polygon","coordinates":[[[0.0,0.0],[1.0,1.0],[0.0,0.0],[1.0,1.0]]]}"#;
    let doc = collection(&[feature(r#","properties":{"tzid":"A"}"#, geom)]);
    assert_eq!(
        TzLookup::new(doc.as_bytes()).unwrap_err(),
        BuildTzLookupError::InvalidGeometry(GeometryFault::DegenerateRing)
    );
}

#[test]
fn out_of_range_coordinate_reported() {
    let geom = r#"{"type":"Polygon","coordinates":[[[500.0,0.0],[0.0,1.0],[1.0,1.0],[500.0,0.0]]]}"#;
    let doc = collection(&[feature(r#","properties":{"tzid":"A"}"#, geom)]);
    assert_eq!(
        TzLookup::new(doc.as_bytes()).unwrap_err(),
        BuildTzLookupError::InvalidGeometry(GeometryFault::CoordinateOutOfRange)
    );
}

#[test]
fn exponent_coordinate_rejected() {
    let geom = r#"{"type":"Polygon","coordinates":[[[1e300,0.0],[0.0,1.0],[1.0,1.0],[1e300,0.0]]]}"#;
    let doc = collection(&[feature(r#","properties":{"tzid":"A"}"#, geom)]);
    assert_eq!(
        TzLookup::new(doc.as_bytes()).unwrap_err(),
        BuildTzLookupError::InvalidGeometry(GeometryFault::BadNumber)
    );
}

#[test]
fn empty_multi_polygon_reported() {
    let geom = r#"{"type":"MultiPolygon","coordinates":[]}"#;
    let doc = collection(&[feature(r#","properties":{"tzid":"A"}"#, geom)]);
    assert_eq!(
        TzLookup::new(doc.as_bytes()).unwrap_err(),
        BuildTzLookupError::InvalidGeometry(GeometryFault::EmptyMultiPolygon)
    );
}

#[test]
fn unknown_geometry_kind_reported() {
    let geom = r#"{"type":"Blob","coordinates":[]}"#;
    let doc = collection(&[feature(r#","properties":{"tzid":"A"}"#, geom)]);
    assert_eq!(
        TzLookup::new(doc.as_bytes()).unwrap_err(),
        BuildTzLookupError::InvalidGeometry(GeometryFault::UnknownKind)
    );
}

#[test]
fn first_error_aborts_whole_build() {
    // a good feature followed by a bad one: no partial catalog survives
    let good = feature(r#","properties":{"tzid":"A"}"#, unit_square_polygon());
    let bad = feature("", unit_square_polygon());
    let doc = collection(&[good, bad]);
    assert_eq!(
        TzLookup::new(doc.as_bytes()).unwrap_err(),
        BuildTzLookupError::FeatureHasNoProperties
    );
}

#[test]
fn build_is_deterministic() {
    let good = feature(r#","properties":{"tzid":"A"}"#, unit_square_polygon());
    let doc = collection(&[good]);
    let t1 = TzLookup::new(doc.as_bytes()).unwrap();
    let t2 = TzLookup::new(doc.as_bytes()).unwrap();
    assert_eq!(t1, t2);
    assert_eq!(t1.regions(), t2.regions());
}

#[test]
fn snapshot_round_trip_reproduces_catalog() {
    let good = feature(r#","properties":{"tzid":"A"}"#, unit_square_polygon());
    let doc = collection(&[good]);
    let t1 = TzLookup::new(doc.as_bytes()).unwrap();
    let t2 = TzLookup::from_regions(t1.regions().clone()).unwrap();
    assert_eq!(t1, t2);
    assert_eq!(t2.lookup(5_000_000, 5_000_000), Some("A"));
}

#[test]
fn geometry_shape_faults_reported() {
    let cases: Vec<(&str, GeometryFault)> = vec![
        // geometry is not an object
        (r#"7"#, GeometryFault::NotAnObject),
        // no type member
        (r#"{"coordinates":[]}"#, GeometryFault::KindMissing),
        // type member is not text
        (r#"{"type":9,"coordinates":[]}"#, GeometryFault::KindNotText),
        // no coordinates member
        (r#"{"type":"Polygon"}"#, GeometryFault::CoordinatesMissing),
        // coordinates of a polygon must be an array
        (r#"{"type":"Polygon","coordinates":9}"#, GeometryFault::NotAnArray),
        // a ring must be an array
        (r#"{"type":"Polygon","coordinates":[9]}"#, GeometryFault::NotAnArray),
        // a position must be an array of at least two numbers
        (
            r#"{"type":"Polygon","coordinates":[[[0.0],[0.0,1.0],[1.0,1.0]]]}"#,
            GeometryFault::BadPosition,
        ),
        (
            r#"{"type":"Polygon","coordinates":[[["a",0.0],[0.0,1.0],[1.0,1.0]]]}"#,
            GeometryFault::BadPosition,
        ),
        // a polygon needs at least one ring
        (r#"{"type":"Polygon","coordinates":[]}"#, GeometryFault::EmptyPolygon),
    ];
    for (geom, fault) in cases {
        let doc = collection(&[feature(r#","properties":{"tzid":"A"}"#, geom)]);
        assert_eq!(
            TzLookup::new(doc.as_bytes()).unwrap_err(),
            BuildTzLookupError::InvalidGeometry(fault),
            "geometry {} should fail with {:?}",
            geom,
            fault
        );
    }
}
