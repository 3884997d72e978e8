//! Trusted bindings to the Braille dot-matrix canvas of the `drawille`
//! crate.
//!
//! Verus sees the canvas as an opaque value; the set of dots that are lit
//! on it is given the name `canvas_dots`, and every wrapper below states
//! how the call it makes changes that set, as the crate's source shows.
//! Coordinates are capped at `PIXEL_MAX`: beyond it the canvas cell
//! arithmetic would wrap and the line interpolation would overflow.

use crate::shape::Rgb;
use vstd::prelude::*;

verus! {

#[verifier::external_type_specification]
#[verifier::external_body]
pub struct ExCanvas(drawille::Canvas);

/// The set of dot coordinates that are lit on the canvas.
pub uninterp spec fn canvas_dots(c: drawille::Canvas) -> Set<(u32, u32)>;

/// The dots that the canvas line primitive lights between two pixels.
pub uninterp spec fn line_dots(x1: u32, y1: u32, x2: u32, y2: u32) -> Set<(u32, u32)>;

/// The largest pixel coordinate the canvas wrappers accept.
pub const PIXEL_MAX: u32 = 0xFFFF;

/// The smaller of two pixel coordinates.
pub open spec fn lo(a: u32, b: u32) -> u32 {
    if a <= b {
        a
    } else {
        b
    }
}

/// The larger of two pixel coordinates.
pub open spec fn hi(a: u32, b: u32) -> u32 {
    if a <= b {
        b
    } else {
        a
    }
}

/// Relies on `drawille::Canvas::new`: a fresh canvas has no dot lit.
#[verifier::external_body]
pub(crate) fn canvas_new(width: u32, height: u32) -> (c: drawille::Canvas)
    ensures
        canvas_dots(c) == Set::<(u32, u32)>::empty(),
{
    drawille::Canvas::new(width, height)
}

/// Relies on `drawille::Canvas::set`: lights the dot `(x, y)` and keeps
/// every other dot.
#[verifier::external_body]
pub(crate) fn canvas_set(c: &mut drawille::Canvas, x: u32, y: u32)
    requires
        x <= PIXEL_MAX,
        y <= PIXEL_MAX,
    ensures
        canvas_dots(*final(c)) == canvas_dots(*old(c)).insert((x, y)),
{
    c.set(x, y)
}

/// Relies on `drawille::Canvas::set_colored`: lights the dot `(x, y)`
/// with a color and keeps every other dot.
#[verifier::external_body]
pub(crate) fn canvas_set_colored(c: &mut drawille::Canvas, x: u32, y: u32, color: Rgb)
    requires
        x <= PIXEL_MAX,
        y <= PIXEL_MAX,
    ensures
        canvas_dots(*final(c)) == canvas_dots(*old(c)).insert((x, y)),
{
    c.set_colored(
        x,
        y,
        drawille::PixelColor::TrueColor { r: color.r, g: color.g, b: color.b },
    )
}

/// Relies on `drawille::Canvas::line`: lights the interpolated dots
/// between the two endpoints and keeps every other dot.  The source
/// interpolates from `(x1, y1)` for `0..=r` steps, so both endpoints are
/// lit and every new dot stays in their bounding box.
#[verifier::external_body]
pub(crate) fn canvas_line(c: &mut drawille::Canvas, x1: u32, y1: u32, x2: u32, y2: u32)
    requires
        x1 <= PIXEL_MAX,
        y1 <= PIXEL_MAX,
        x2 <= PIXEL_MAX,
        y2 <= PIXEL_MAX,
    ensures
        canvas_dots(*final(c)) == canvas_dots(*old(c)).union(line_dots(x1, y1, x2, y2)),
        canvas_dots(*final(c)).contains((x1, y1)),
        canvas_dots(*final(c)).contains((x2, y2)),
        forall|p: (u32, u32)|
            canvas_dots(*final(c)).contains(p) ==> canvas_dots(*old(c)).contains(p) || (lo(x1, x2)
                <= p.0 <= hi(x1, x2) && lo(y1, y2) <= p.1 <= hi(y1, y2)),
{
    c.line(x1, y1, x2, y2)
}

/// Relies on `drawille::Canvas::line_colored`: lights the same dots as
/// the line primitive — the source runs the identical interpolation loop
/// — with a color, and keeps every other dot.
#[verifier::external_body]
pub(crate) fn canvas_line_colored(c: &mut drawille::Canvas, x1: u32, y1: u32, x2: u32, y2: u32, color: Rgb)
    requires
        x1 <= PIXEL_MAX,
        y1 <= PIXEL_MAX,
        x2 <= PIXEL_MAX,
        y2 <= PIXEL_MAX,
    ensures
        canvas_dots(*final(c)) == canvas_dots(*old(c)).union(line_dots(x1, y1, x2, y2)),
        canvas_dots(*final(c)).contains((x1, y1)),
        canvas_dots(*final(c)).contains((x2, y2)),
        forall|p: (u32, u32)|
            canvas_dots(*final(c)).contains(p) ==> canvas_dots(*old(c)).contains(p) || (lo(x1, x2)
                <= p.0 <= hi(x1, x2) && lo(y1, y2) <= p.1 <= hi(y1, y2)),
{
    c.line_colored(
        x1,
        y1,
        x2,
        y2,
        drawille::PixelColor::TrueColor { r: color.r, g: color.g, b: color.b },
    )
}

/// Relies on `drawille::Canvas::frame`: serializes the canvas to a text
/// block, one line per row of Braille characters.  Nothing about the
/// text is assumed here; callers treat it as an arbitrary string.
#[verifier::external_body]
pub(crate) fn canvas_frame(c: &drawille::Canvas) -> String {
    c.frame()
}

} // verus!
