//! Terminal plotting library for CLI applications.
//!
//! Renders numeric data — sampled continuous functions or discrete point
//! series — as text-mode charts on a Braille dot-matrix canvas.  All chart
//! values are fixed-point numbers: an `i64` holds a real value scaled by
//! 1000 (milli-units), so the whole rendering pipeline is exact integer
//! arithmetic.  A thin front end can convert floating-point data to
//! milli-units at the boundary.

pub mod canvas;
pub mod chart;
pub mod label;
pub mod raster;
pub mod scale;
pub mod shape;
pub mod utils;

pub use chart::Chart;
pub use chart::LabelFormat;
pub use chart::LineStyle;
pub use chart::TickDisplay;
pub use raster::DrawOp;
pub use scale::Scale;
pub use shape::Rgb;
pub use shape::Sample;
pub use shape::Shape;
pub use utils::histogram;
