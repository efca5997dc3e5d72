//! Shape signatures for catalogs of simple polygon regions: each region's
//! silhouette becomes a 360-bucket radial descriptor, aligned to its own
//! dominant axis, so that regions can be ranked by rotation-tolerant shape
//! similarity and located by their nearest centroid.
//!
//! All quantities are fixed-point integers: coordinates in micro-degrees,
//! bearings in milli-degrees, normalized lengths and scores in millionths.

pub mod annotated;
pub mod builder;
pub mod errors;
pub mod filters;
pub mod geom;
pub mod region_group;
pub mod routing;
pub mod signature;
pub mod testcard;
