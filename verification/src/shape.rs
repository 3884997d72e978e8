//! The data sources a chart can draw.
//!
//! A shape is either a continuous function, represented by one sample per
//! pixel column, or a finite ordered sequence of `(x, y)` pairs in
//! milli-units, interpreted as scatter points, connected lines, step
//! segments or bars.

use crate::scale::in_coord_range;
use vstd::prelude::*;

verus! {

/// A color, as an RGB triple of 8-bit channels.
#[derive(Clone, Copy, PartialEq, Eq, Structural, Debug)]
pub struct Rgb {
    pub r: u8,
    pub g: u8,
    pub b: u8,
}

/// One pixel-column sample of a continuous function.
///
/// The front end that evaluates the function classifies each sample the
/// way the rendering pipeline needs it: values that are not finite normal
/// numbers are rejected everywhere, an exact zero is drawn but ignored by
/// auto-ranging, and a finite normal value takes part in both.
#[derive(Clone, Copy, PartialEq, Eq, Structural, Debug)]
pub enum Sample {
    /// Not a finite normal number (NaN, an infinity or a subnormal).
    Invalid,
    /// Exactly zero.
    Zero,
    /// A finite normal value, in milli-units.
    Normal(i64),
}

impl Sample {
    /// The value this sample contributes to the drawing pass, if any.
    pub open spec fn draw_value(self) -> Option<int> {
        match self {
            Sample::Invalid => None,
            Sample::Zero => Some(0),
            Sample::Normal(v) => Some(v as int),
        }
    }

    /// The value this sample contributes to auto-ranging, if any.
    pub open spec fn range_value(self) -> Option<int> {
        match self {
            Sample::Invalid => None,
            Sample::Zero => None,
            Sample::Normal(v) => Some(v as int),
        }
    }

    /// A sample value small enough for the scale arithmetic.
    pub open spec fn wf(self) -> bool {
        match self {
            Sample::Normal(v) => in_coord_range(v as int),
            _ => true,
        }
    }
}

/// Specifies different kinds of plotted data.
pub enum Shape {
    /// A real-valued function, one sample per pixel column.
    Continuous(Vec<Sample>),
    /// Points of a scatter plot.
    Points(Vec<(i64, i64)>),
    /// Points connected with lines.
    Lines(Vec<(i64, i64)>),
    /// Points connected in step fashion.
    ///
    /// Note: the final point is not drawn as a vertex of its own; it only
    /// closes the last step.
    Steps(Vec<(i64, i64)>),
    /// Points represented with bars.
    ///
    /// Note: the final point is not drawn as a vertex of its own; it only
    /// closes the last bar.
    Bars(Vec<(i64, i64)>),
}

/// Every coordinate of every data point is within the scale bound.
pub open spec fn data_wf(d: Seq<(i64, i64)>) -> bool {
    forall|k: int|
        0 <= k < d.len() ==> in_coord_range(#[trigger] d[k].0 as int) && in_coord_range(
            d[k].1 as int,
        )
}

impl Shape {
    /// A continuous shape carries at most one sample per pixel column
    /// of a viewport `w` columns wide, so ranging and drawing see the
    /// same samples; discrete shapes are unconstrained.
    pub open spec fn fits_width(self, w: u32) -> bool {
        match self {
            Shape::Continuous(s) => s@.len() <= w,
            _ => true,
        }
    }

    /// The shape is a continuous function whose column samples are `s`.
    pub open spec fn is_continuous_with(self, s: Seq<Sample>) -> bool {
        match self {
            Shape::Continuous(v) => v@ == s,
            _ => false,
        }
    }

    /// All values carried by the shape are within the scale bound.
    pub open spec fn wf(self) -> bool {
        match self {
            Shape::Continuous(s) => forall|k: int|
                0 <= k < s@.len() ==> (#[trigger] s@[k]).wf(),
            Shape::Points(d) => data_wf(d@),
            Shape::Lines(d) => data_wf(d@),
            Shape::Steps(d) => data_wf(d@),
            Shape::Bars(d) => data_wf(d@),
        }
    }
}

} // verus!
