//! Free-space diagrams between parametric planar curves.
//!
//! A curve exposes a closed parameter domain and can be evaluated at any
//! parameter inside it; a cubic Bezier segment and an arc-length
//! parametrized polyline are provided.  The rasterizer drives two curves
//! against a pixel grid and colors every pixel by comparing the distance
//! between the corresponding curve points with a threshold.
//!
//! All geometry is exact: coordinates, parameters and thresholds are
//! fixed-point integers in whatever unit the caller chooses, so every
//! result is fully determined by the inputs and proved against the
//! specification functions in this crate.

pub mod bezier;
pub mod curves;
pub mod polyline;
pub mod free_diagram;
pub mod geometry;

pub use bezier::CubicBezier;
pub use curves::ClosedInterval;
pub use curves::Curve;
pub use curves::CurveError;
pub use polyline::PolyLine;
pub use free_diagram::create_free_diagram;
pub use free_diagram::Pixel;
pub use free_diagram::PixelGrid;
pub use geometry::Point2D;
