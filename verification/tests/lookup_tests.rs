use tz_lookup_simple::TzLookup;

fn region(tzid: &str, geometry: &str) -> String {
    format!(
        r#"{{"type":"Feature","properties":{{"tzid":"{}"}},"geometry":{}}}"#,
        tzid, geometry
    )
}

fn collection(features: &[String]) -> String {
    format!(
        r#"{{"type":"FeatureCollection","features":[{}]}}"#,
        features.join(",")
    )
}

/// An axis-aligned box as polygon coordinates, corners given in degrees.
fn square(x0: f64, y0: f64, x1: f64, y1: f64) -> String {
    format!(
        r#"{{"type":"Polygon","coordinates":[[[{x0},{y0}],[{x0},{y1}],[{x1},{y1}],[{x1},{y0}],[{x0},{y0}]]]}}"#
    )
}

#[test]
fn end_to_end_unit_square() {
    let doc = collection(&[region("Test/Zone", &square(0.0, 0.0, 1.0, 1.0))]);
    let tz = TzLookup::new(doc.as_bytes()).unwrap();
    // (0.5, 0.5) in scaled units of 1e-7 degrees
    assert_eq!(tz.lookup(5_000_000, 5_000_000), Some("Test/Zone"));
    // (5, 5) lies outside
    assert_eq!(tz.lookup(50_000_000, 50_000_000), None);
}

#[test]
fn first_match_wins_on_overlap() {
    let a = region("Zone/A", &square(0.0, 0.0, 2.0, 2.0));
    let b = region("Zone/B", &square(1.0, 1.0, 3.0, 3.0));
    // (1.5, 1.5) lies in both boxes
    let doc = collection(&[a.clone(), b.clone()]);
    let tz = TzLookup::new(doc.as_bytes()).unwrap();
    assert_eq!(tz.lookup(15_000_000, 15_000_000), Some("Zone/A"));
    // with the document order swapped the other region wins
    let doc = collection(&[b, a]);
    let tz = TzLookup::new(doc.as_bytes()).unwrap();
    assert_eq!(tz.lookup(15_000_000, 15_000_000), Some("Zone/B"));
}

#[test]
fn hole_excludes_point() {
    // exterior 0..3, hole 1..2
    let geom = r#"{"type":"Polygon","coordinates":[
        [[0.0,0.0],[0.0,3.0],[3.0,3.0],[3.0,0.0],[0.0,0.0]],
        [[1.0,1.0],[1.0,2.0],[2.0,2.0],[2.0,1.0],[1.0,1.0]]
    ]}"#;
    let doc = collection(&[region("Holed/Zone", geom)]);
    let tz = TzLookup::new(doc.as_bytes()).unwrap();
    // inside the hole: not contained, although inside the exterior ring
    assert_eq!(tz.lookup(15_000_000, 15_000_000), None);
    // between exterior and hole: contained
    assert_eq!(tz.lookup(5_000_000, 5_000_000), Some("Holed/Zone"));
}

#[test]
fn multi_polygon_contains_by_any_part() {
    let geom = r#"{"type":"MultiPolygon","coordinates":[
        [[[0.0,0.0],[0.0,1.0],[1.0,1.0],[1.0,0.0],[0.0,0.0]]],
        [[[10.0,10.0],[10.0,11.0],[11.0,11.0],[11.0,10.0],[10.0,10.0]]]
    ]}"#;
    let doc = collection(&[region("Split/Zone", geom)]);
    let tz = TzLookup::new(doc.as_bytes()).unwrap();
    // in the first constituent
    assert_eq!(tz.lookup(5_000_000, 5_000_000), Some("Split/Zone"));
    // in the second constituent
    assert_eq!(tz.lookup(105_000_000, 105_000_000), Some("Split/Zone"));
    // in neither
    assert_eq!(tz.lookup(50_000_000, 50_000_000), None);
}

#[test]
fn far_away_point_is_absent() {
    let doc = collection(&[
        region("Zone/A", &square(0.0, 0.0, 1.0, 1.0)),
        region("Zone/B", &square(2.0, 2.0, 3.0, 3.0)),
    ]);
    let tz = TzLookup::new(doc.as_bytes()).unwrap();
    // a mid-ocean coordinate, far from every cataloged boundary
    assert_eq!(tz.lookup(-1_402_000_000, -421_000_000), None);
}

#[test]
fn known_city_fixture_pins_coordinate_order() {
    // a box around Los Angeles: longitudes -125..-114, latitudes 32..42
    let doc = collection(&[region(
        "America/Los_Angeles",
        &square(-125.0, 32.0, -114.0, 42.0),
    )]);
    let tz = TzLookup::new(doc.as_bytes()).unwrap();
    // lookup takes longitude first: (-118.522885, 34.075822)
    assert_eq!(
        tz.lookup(-1_185_228_850, 340_758_220),
        Some("America/Los_Angeles")
    );
    // the swapped argument order must miss this asymmetric region
    assert_eq!(tz.lookup(340_758_220, -1_185_228_850), None);
}

#[test]
fn duplicate_identifiers_resolved_by_order() {
    let doc = collection(&[
        region("Twin/Zone", &square(0.0, 0.0, 1.0, 1.0)),
        region("Twin/Zone", &square(5.0, 5.0, 6.0, 6.0)),
    ]);
    let tz = TzLookup::new(doc.as_bytes()).unwrap();
    assert_eq!(tz.lookup(5_500_000, 5_500_000), Some("Twin/Zone"));
    assert_eq!(tz.lookup(55_000_000, 55_000_000), Some("Twin/Zone"));
}

#[test]
fn empty_collection_finds_nothing() {
    let doc = collection(&[]);
    let tz = TzLookup::new(doc.as_bytes()).unwrap();
    assert_eq!(tz.lookup(0, 0), None);
}
