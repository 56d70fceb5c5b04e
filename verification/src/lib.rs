//! Scanline rasterization primitives: exact 2D line segments, slope
//! classification, and per-scanline intersection probes.
//!
//! Coordinates are exact: segment endpoints are integer points and probe
//! coordinates and probe results are rational numbers, so classification and
//! sampling are free of rounding at geometric degeneracies (vertical,
//! horizontal and boundary probes).

pub mod rat;
pub mod geom;
pub mod line_segment;

pub use rat::{Rat, PROBE_DEN_LIMIT, PROBE_NUM_LIMIT};
pub use geom::{V2, RatV2, Bounds, Intersection, COORD_LIMIT};
pub use line_segment::{
    Slope, LineSegment, RasterableLineSegment, HorizontalNotRasterable,
};
