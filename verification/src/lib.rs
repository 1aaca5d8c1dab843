//! Timezone-region lookup: build an ordered catalog of named boundary
//! geometries from a GeoJSON feature collection, then answer point queries
//! with the first cataloged region that contains the point.
pub mod builder;
pub mod catalog;
pub mod geometry;
pub mod json;
pub mod laws;
pub mod num;

pub use builder::{BuildTzLookupError, GeometryFault};
pub use catalog::TzLookup;
pub use geometry::{GeomModel, LonLat, PolyModel, PolyType, Polygon, Ring};
pub use num::{CoordOutcome, COORD_LIMIT, SCALE};
