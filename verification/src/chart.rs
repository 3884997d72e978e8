//! The chart: orchestrates registered shapes over a fixed-size pixel
//! viewport, owns the x-range (caller-supplied) and the y-range
//! (auto-computed from registered shapes, or caller-fixed), and draws
//! axes, borders and shapes onto the dot-matrix canvas.

use crate::label::{
    annotate_spec, annotate_with_labels, blank_frame, blanked, chars_to_string, fixed_label,
    format_fixed, label_views, str_chars,
};
use crate::canvas::{
    canvas_dots, canvas_frame, canvas_line, canvas_line_colored, canvas_new, canvas_set,
    canvas_set_colored, PIXEL_MAX,
};
use crate::raster::{
    lemma_covers_concat, lemma_ops_dots_concat, op_covers, op_in_viewport, ops_dots,
    ops_in_viewport, shape_ops, shape_ops_spec, some_op_covers, DrawOp,
};
use crate::scale::{in_coord_range, linear_map, Scale, COORD_LIMIT};
use crate::shape::{Rgb, Sample, Shape};
use vstd::prelude::*;

verus! {

/// The smallest accepted viewport width.
pub const MIN_WIDTH: u32 = 32;

/// The smallest accepted viewport height.
pub const MIN_HEIGHT: u32 = 3;

/// The largest accepted viewport width.
pub const MAX_WIDTH: u32 = 32000;

/// The largest accepted viewport height (a multiple of 16, so that
/// tick-density rounding never grows past it).
pub const MAX_HEIGHT: u32 = 32000;

/// Specifies line style.
/// Default value is `LineStyle::Dotted`.
#[derive(Clone, Copy, PartialEq, Eq, Structural, Debug)]
pub enum LineStyle {
    /// Line is not displayed.
    Hidden,
    /// Line is solid.
    Solid,
    /// Line is dotted.
    Dotted,
    /// Line is dashed.
    Dashed,
}

/// Specifies label format.
/// Default value is `LabelFormat::Value`.
///
/// A caller-supplied formatting function is a front-end concern: a front
/// end renders its own label strings and hands them to
/// [`crate::label::annotate_with_labels`].
#[derive(Clone, Copy, PartialEq, Eq, Structural, Debug)]
pub enum LabelFormat {
    /// Label is not displayed.
    Hidden,
    /// Label is shown as a value with one decimal digit.
    Value,
}

/// Specifies density of tick labels on the y axis between `ymin` and
/// `ymax`.  Default value is `TickDisplay::Hidden`.
#[derive(Clone, Copy, PartialEq, Eq, Structural, Debug)]
pub enum TickDisplay {
    /// Tick labels are not displayed.
    Hidden,
    /// Tick labels are sparsely shown (every 4th row).
    Sparse,
    /// Tick labels are densely shown (every 2nd row).
    Dense,
}

impl TickDisplay {
    /// The number of text rows between two tick labels.
    pub open spec fn spec_row_spacing(self) -> u32 {
        match self {
            TickDisplay::Hidden => u32::MAX,
            TickDisplay::Sparse => 4,
            TickDisplay::Dense => 2,
        }
    }

    /// Returns the number of text rows between two tick labels; the
    /// value for `TickDisplay::Hidden` is never used.
    pub fn get_row_spacing(&self) -> (r: u32)
        ensures
            r == self.spec_row_spacing(),
    {
        match self {
            TickDisplay::Hidden => u32::MAX,
            TickDisplay::Sparse => 4,
            TickDisplay::Dense => 2,
        }
    }
}

/// How the chart does the ranging of the y axis.
#[derive(Clone, Copy, PartialEq, Eq, Structural)]
enum ChartRangeMethod {
    /// Ranges automatically based on the registered shapes.
    AutoRange,
    /// Keeps the fixed range given at construction.
    FixedRange,
}

/// The smaller of two milli-unit values.
pub open spec fn imin(a: int, b: int) -> int {
    if a <= b {
        a
    } else {
        b
    }
}

/// The larger of two milli-unit values.
pub open spec fn imax(a: int, b: int) -> int {
    if a <= b {
        b
    } else {
        a
    }
}

/// The y-values a discrete shape contributes to auto-ranging: the
/// y-coordinate of every sample whose x lies within `[xmin, xmax]`.
pub open spec fn data_range_ys(d: Seq<(i64, i64)>, xmin: int, xmax: int) -> Seq<int>
    decreases d.len(),
{
    if d.len() == 0 {
        Seq::empty()
    } else {
        data_range_ys(d.drop_last(), xmin, xmax) + (if xmin <= d.last().0 <= xmax {
            seq![d.last().1 as int]
        } else {
            Seq::empty()
        })
    }
}

/// The y-values a continuous shape contributes to auto-ranging: every
/// finite normal sample value (an exact zero does not take part).
pub open spec fn cont_range_ys(s: Seq<Sample>) -> Seq<int>
    decreases s.len(),
{
    if s.len() == 0 {
        Seq::empty()
    } else {
        cont_range_ys(s.drop_last()) + (match s.last().range_value() {
            Option::Some(v) => seq![v],
            Option::None => Seq::empty(),
        })
    }
}

/// The y-values one shape contributes to auto-ranging.
pub open spec fn shape_range_ys(shape: Shape, xmin: int, xmax: int) -> Seq<int> {
    match shape {
        Shape::Continuous(s) => cont_range_ys(s@),
        Shape::Points(d) => data_range_ys(d@, xmin, xmax),
        Shape::Lines(d) => data_range_ys(d@, xmin, xmax),
        Shape::Steps(d) => data_range_ys(d@, xmin, xmax),
        Shape::Bars(d) => data_range_ys(d@, xmin, xmax),
    }
}

/// The smallest value of a nonempty sequence.
pub open spec fn seq_min(s: Seq<int>) -> int
    recommends
        s.len() > 0,
    decreases s.len(),
{
    if s.len() <= 1 {
        s[0]
    } else {
        imin(seq_min(s.drop_last()), s.last())
    }
}

/// The largest value of a nonempty sequence.
pub open spec fn seq_max(s: Seq<int>) -> int
    recommends
        s.len() > 0,
    decreases s.len(),
{
    if s.len() <= 1 {
        s[0]
    } else {
        imax(seq_max(s.drop_last()), s.last())
    }
}

/// The lower end a shape's y-values contribute: their minimum, or 0
/// when the shape contributes nothing.
pub open spec fn range_lo(ys: Seq<int>) -> int {
    if ys.len() == 0 {
        0
    } else {
        seq_min(ys)
    }
}

/// The upper end a shape's y-values contribute: their maximum, or 0
/// when the shape contributes nothing.
pub open spec fn range_hi(ys: Seq<int>) -> int {
    if ys.len() == 0 {
        0
    } else {
        seq_max(ys)
    }
}

/// The chart's y-range after one shape is registered in auto-ranging
/// mode: the running range widened to include the shape's contribution.
pub open spec fn range_after(lo0: int, hi0: int, shape: Shape, xmin: int, xmax: int) -> (int, int) {
    (
        imin(lo0, range_lo(shape_range_ys(shape, xmin, xmax))),
        imax(hi0, range_hi(shape_range_ys(shape, xmin, xmax))),
    )
}

/// Auto-ranging only ever widens the y-range: after a registration
/// the lower end is no higher and the upper end no lower than before.
pub proof fn lemma_autorange_monotone(lo0: int, hi0: int, shape: Shape, xmin: int, xmax: int)
    ensures
        range_after(lo0, hi0, shape, xmin, xmax).0 <= lo0,
        range_after(lo0, hi0, shape, xmin, xmax).1 >= hi0,
{
}

/// Auto-ranging is order-independent: registering shape `a` and then
/// shape `b` widens a running y-range to the same final interval as
/// registering `b` and then `a`.
pub proof fn lemma_autorange_order_independent(
    lo0: int,
    hi0: int,
    a: Shape,
    b: Shape,
    xmin: int,
    xmax: int,
)
    ensures
        ({
            let (l1, h1) = range_after(lo0, hi0, a, xmin, xmax);
            range_after(l1, h1, b, xmin, xmax)
        }) == ({
            let (l2, h2) = range_after(lo0, hi0, b, xmin, xmax);
            range_after(l2, h2, a, xmin, xmax)
        }),
{
}

/// Controls the drawing.
pub struct Chart {
    /// Canvas width in points.
    width: u32,
    /// Canvas height in points.
    height: u32,
    /// X-axis start value (milli-units).
    xmin: i64,
    /// X-axis end value (milli-units).
    xmax: i64,
    /// Y-axis start value (potentially computed automatically).
    ymin: i64,
    /// Y-axis end value (potentially computed automatically).
    ymax: i64,
    /// The type of y-axis ranging used.
    y_ranging: ChartRangeMethod,
    /// The registered shapes, with an optional color each.
    shapes: Vec<(Shape, Option<Rgb>)>,
    /// The underlying dot-matrix canvas.
    canvas: drawille::Canvas,
    /// X-axis style.
    x_style: LineStyle,
    /// Y-axis style.
    y_style: LineStyle,
    /// X-axis label format.
    x_label_format: LabelFormat,
    /// Y-axis label format.
    y_label_format: LabelFormat,
    /// Y-axis tick label density.
    y_tick_display: TickDisplay,
}

impl Chart {
    /// Viewport width in pixels.
    pub closed spec fn spec_width(self) -> u32 {
        self.width
    }

    /// Viewport height in pixels.
    pub closed spec fn spec_height(self) -> u32 {
        self.height
    }

    /// Left end of the x-range, in milli-units.
    pub closed spec fn spec_xmin(self) -> int {
        self.xmin as int
    }

    /// Right end of the x-range, in milli-units.
    pub closed spec fn spec_xmax(self) -> int {
        self.xmax as int
    }

    /// Lower end of the y-range, in milli-units.
    pub closed spec fn spec_ymin(self) -> int {
        self.ymin as int
    }

    /// Upper end of the y-range, in milli-units.
    pub closed spec fn spec_ymax(self) -> int {
        self.ymax as int
    }

    /// Whether the chart widens its y-range on each registration.
    pub closed spec fn spec_auto_range(self) -> bool {
        self.y_ranging == ChartRangeMethod::AutoRange
    }

    /// The registered shapes with their colors, in registration order.
    pub closed spec fn spec_shapes(self) -> Seq<(Shape, Option<Rgb>)> {
        self.shapes@
    }

    /// The set of dots currently lit on the chart's canvas.
    pub closed spec fn spec_dots(self) -> Set<(u32, u32)> {
        canvas_dots(self.canvas)
    }

    /// X-axis style.
    pub closed spec fn spec_x_style(self) -> LineStyle {
        self.x_style
    }

    /// Y-axis style.
    pub closed spec fn spec_y_style(self) -> LineStyle {
        self.y_style
    }

    /// X-axis label format.
    pub closed spec fn spec_x_label_format(self) -> LabelFormat {
        self.x_label_format
    }

    /// Y-axis label format.
    pub closed spec fn spec_y_label_format(self) -> LabelFormat {
        self.y_label_format
    }

    /// Y-axis tick label density.
    pub closed spec fn spec_y_tick_display(self) -> TickDisplay {
        self.y_tick_display
    }

    /// The y-range has been set, either at construction (fixed mode) or
    /// by at least one registration (auto mode).  Before that the range
    /// carries the empty-interval sentinels.
    pub open spec fn spec_yrange_set(self) -> bool {
        !(self.spec_ymin() == i64::MAX && self.spec_ymax() == i64::MIN)
    }

    /// The chart's invariant: viewport within bounds, ascending x-range,
    /// a y-range that is either the empty sentinel interval or ascending
    /// and within bounds, and well-formed shapes.
    pub open spec fn wf(self) -> bool {
        &&& MIN_WIDTH <= self.spec_width() <= MAX_WIDTH
        &&& MIN_HEIGHT <= self.spec_height() <= MAX_HEIGHT
        &&& in_coord_range(self.spec_xmin())
        &&& in_coord_range(self.spec_xmax())
        &&& self.spec_xmin() < self.spec_xmax()
        &&& (self.spec_yrange_set() ==> in_coord_range(self.spec_ymin()) && in_coord_range(
            self.spec_ymax(),
        ) && self.spec_ymin() <= self.spec_ymax())
        &&& (self.spec_shapes().len() > 0 ==> self.spec_yrange_set())
        &&& (!self.spec_auto_range() ==> self.spec_yrange_set())
        &&& (forall|k: int|
            0 <= k < self.spec_shapes().len() ==> (#[trigger] self.spec_shapes()[k]).0.wf())
    }

    /// The two charts agree on everything but the presentation
    /// settings: viewport, ranges, ranging mode, shapes and canvas dots.
    pub open spec fn same_shape_state(a: Chart, b: Chart) -> bool {
        &&& a.spec_width() == b.spec_width()
        &&& a.spec_height() == b.spec_height()
        &&& a.spec_xmin() == b.spec_xmin()
        &&& a.spec_xmax() == b.spec_xmax()
        &&& a.spec_ymin() == b.spec_ymin()
        &&& a.spec_ymax() == b.spec_ymax()
        &&& a.spec_auto_range() == b.spec_auto_range()
        &&& a.spec_shapes() == b.spec_shapes()
        &&& a.spec_dots() == b.spec_dots()
    }

    /// The two charts agree on all presentation settings: axis styles,
    /// label formats and tick density.
    pub open spec fn same_styling(a: Chart, b: Chart) -> bool {
        &&& a.spec_x_style() == b.spec_x_style()
        &&& a.spec_y_style() == b.spec_y_style()
        &&& a.spec_x_label_format() == b.spec_x_label_format()
        &&& a.spec_y_label_format() == b.spec_y_label_format()
        &&& a.spec_y_tick_display() == b.spec_y_tick_display()
    }

    /// The configuration values a chart can be built from.
    pub open spec fn config_ok(width: u32, height: u32, xmin: i64, xmax: i64) -> bool {
        &&& MIN_WIDTH <= width <= MAX_WIDTH
        &&& MIN_HEIGHT <= height <= MAX_HEIGHT
        &&& in_coord_range(xmin as int)
        &&& in_coord_range(xmax as int)
        &&& xmin < xmax
    }

    /// Creates a new `Chart` in auto-ranging mode: the y-range starts as
    /// the empty sentinel interval and widens with each registration.
    ///
    /// Callers must hold the viewport above the configured minimums; the
    /// checked constructor reports a violation instead.
    pub fn new(width: u32, height: u32, xmin: i64, xmax: i64) -> (c: Chart)
        requires
            Self::config_ok(width, height, xmin, xmax),
        ensures
            c.wf(),
            c.spec_width() == width,
            c.spec_height() == height,
            c.spec_xmin() == xmin,
            c.spec_xmax() == xmax,
            c.spec_ymin() == i64::MAX,
            c.spec_ymax() == i64::MIN,
            c.spec_auto_range(),
            c.spec_shapes() =~= Seq::<(Shape, Option<Rgb>)>::empty(),
            c.spec_dots() =~= Set::<(u32, u32)>::empty(),
            c.spec_x_style() == LineStyle::Dotted,
            c.spec_y_style() == LineStyle::Dotted,
            c.spec_x_label_format() == LabelFormat::Value,
            c.spec_y_label_format() == LabelFormat::Value,
            c.spec_y_tick_display() == TickDisplay::Hidden,
    {
        Chart {
            xmin,
            xmax,
            ymin: i64::MAX,
            ymax: i64::MIN,
            y_ranging: ChartRangeMethod::AutoRange,
            width,
            height,
            shapes: Vec::new(),
            canvas: canvas_new(width, height),
            x_style: LineStyle::Dotted,
            y_style: LineStyle::Dotted,
            x_label_format: LabelFormat::Value,
            y_label_format: LabelFormat::Value,
            y_tick_display: TickDisplay::Hidden,
        }
    }

    /// Creates a new `Chart` with a fixed y-range: registrations never
    /// change it.
    pub fn new_with_y_range(width: u32, height: u32, xmin: i64, xmax: i64, ymin: i64, ymax: i64) -> (c:
        Chart)
        requires
            Self::config_ok(width, height, xmin, xmax),
            in_coord_range(ymin as int),
            in_coord_range(ymax as int),
            ymin <= ymax,
        ensures
            c.wf(),
            c.spec_width() == width,
            c.spec_height() == height,
            c.spec_xmin() == xmin,
            c.spec_xmax() == xmax,
            c.spec_ymin() == ymin,
            c.spec_ymax() == ymax,
            !c.spec_auto_range(),
            c.spec_shapes() =~= Seq::<(Shape, Option<Rgb>)>::empty(),
            c.spec_dots() =~= Set::<(u32, u32)>::empty(),
            c.spec_x_style() == LineStyle::Dotted,
            c.spec_y_style() == LineStyle::Dotted,
            c.spec_x_label_format() == LabelFormat::Value,
            c.spec_y_label_format() == LabelFormat::Value,
            c.spec_y_tick_display() == TickDisplay::Hidden,
    {
        Chart {
            xmin,
            xmax,
            ymin,
            ymax,
            y_ranging: ChartRangeMethod::FixedRange,
            width,
            height,
            shapes: Vec::new(),
            canvas: canvas_new(width, height),
            x_style: LineStyle::Dotted,
            y_style: LineStyle::Dotted,
            x_label_format: LabelFormat::Value,
            y_label_format: LabelFormat::Value,
            y_tick_display: TickDisplay::Hidden,
        }
    }

    /// Builds a chart after checking the configuration: a viewport below
    /// the minimums or above the maximums, or a non-ascending x-range,
    /// is a fatal configuration error, reported as `None` before any
    /// chart exists.
    pub fn checked_new(width: u32, height: u32, xmin: i64, xmax: i64) -> (r: Option<Chart>)
        ensures
            r is Some <==> Self::config_ok(width, height, xmin, xmax),
            match r {
                Option::Some(c) => c.wf() && c.spec_width() == width && c.spec_height() == height
                    && c.spec_xmin() == xmin && c.spec_xmax() == xmax && c.spec_auto_range()
                    && c.spec_shapes().len() == 0,
                Option::None => true,
            },
    {
        if width < MIN_WIDTH || width > MAX_WIDTH {
            return Option::None;
        }
        if height < MIN_HEIGHT || height > MAX_HEIGHT {
            return Option::None;
        }
        if xmin < -COORD_LIMIT || xmin > COORD_LIMIT || xmax < -COORD_LIMIT || xmax > COORD_LIMIT {
            return Option::None;
        }
        if !(xmin < xmax) {
            return Option::None;
        }
        Option::Some(Self::new(width, height, xmin, xmax))
    }

    /// Specifies the style of the x-axis.
    pub fn x_axis_style(&mut self, style: LineStyle)
        requires
            old(self).wf(),
        ensures
            final(self).wf(),
            Self::same_shape_state(*old(self), *final(self)),
            final(self).spec_x_style() == style,
            final(self).spec_y_style() == old(self).spec_y_style(),
            final(self).spec_x_label_format() == old(self).spec_x_label_format(),
            final(self).spec_y_label_format() == old(self).spec_y_label_format(),
            final(self).spec_y_tick_display() == old(self).spec_y_tick_display(),
    {
        self.x_style = style;
        proof {
            assert(self.spec_shapes() =~= old(self).spec_shapes());
            assert forall|k: int|
                0 <= k < self.spec_shapes().len() implies (#[trigger] self.spec_shapes()[k]).0.wf() by {
                assert(old(self).spec_shapes()[k].0.wf());
            }
        }
    }

    /// Specifies the style of the y-axis.
    pub fn y_axis_style(&mut self, style: LineStyle)
        requires
            old(self).wf(),
        ensures
            final(self).wf(),
            Self::same_shape_state(*old(self), *final(self)),
            final(self).spec_y_style() == style,
            final(self).spec_x_style() == old(self).spec_x_style(),
            final(self).spec_x_label_format() == old(self).spec_x_label_format(),
            final(self).spec_y_label_format() == old(self).spec_y_label_format(),
            final(self).spec_y_tick_display() == old(self).spec_y_tick_display(),
    {
        self.y_style = style;
        proof {
            assert(self.spec_shapes() =~= old(self).spec_shapes());
            assert forall|k: int|
                0 <= k < self.spec_shapes().len() implies (#[trigger] self.spec_shapes()[k]).0.wf() by {
                assert(old(self).spec_shapes()[k].0.wf());
            }
        }
    }

    /// Specifies the label format of the x-axis.
    pub fn x_label_format(&mut self, format: LabelFormat)
        requires
            old(self).wf(),
        ensures
            final(self).wf(),
            Self::same_shape_state(*old(self), *final(self)),
            final(self).spec_x_label_format() == format,
            final(self).spec_x_style() == old(self).spec_x_style(),
            final(self).spec_y_style() == old(self).spec_y_style(),
            final(self).spec_y_label_format() == old(self).spec_y_label_format(),
            final(self).spec_y_tick_display() == old(self).spec_y_tick_display(),
    {
        self.x_label_format = format;
        proof {
            assert(self.spec_shapes() =~= old(self).spec_shapes());
            assert forall|k: int|
                0 <= k < self.spec_shapes().len() implies (#[trigger] self.spec_shapes()[k]).0.wf() by {
                assert(old(self).spec_shapes()[k].0.wf());
            }
        }
    }

    /// Specifies the label format of the y-axis.
    pub fn y_label_format(&mut self, format: LabelFormat)
        requires
            old(self).wf(),
        ensures
            final(self).wf(),
            Self::same_shape_state(*old(self), *final(self)),
            final(self).spec_y_label_format() == format,
            final(self).spec_x_style() == old(self).spec_x_style(),
            final(self).spec_y_style() == old(self).spec_y_style(),
            final(self).spec_x_label_format() == old(self).spec_x_label_format(),
            final(self).spec_y_tick_display() == old(self).spec_y_tick_display(),
    {
        self.y_label_format = format;
        proof {
            assert(self.spec_shapes() =~= old(self).spec_shapes());
            assert forall|k: int|
                0 <= k < self.spec_shapes().len() implies (#[trigger] self.spec_shapes()[k]).0.wf() by {
                assert(old(self).spec_shapes()[k].0.wf());
            }
        }
    }

    /// The viewport height after rounding for a tick density: dense
    /// ticks need a multiple of 8 pixel rows, sparse ticks a multiple of
    /// 16, so that tick rows land on whole text rows; the height is
    /// rounded up to the next such multiple, never down.
    pub open spec fn spec_rounded_height(h: u32, density: TickDisplay) -> int {
        match density {
            TickDisplay::Hidden => h as int,
            TickDisplay::Sparse => ((h + 15) / 16) * 16,
            TickDisplay::Dense => ((h + 7) / 8) * 8,
        }
    }

    /// Specifies the tick label density of the y-axis, silently rounding
    /// the viewport height up to the multiple the density needs.
    pub fn y_tick_display(&mut self, density: TickDisplay)
        requires
            old(self).wf(),
        ensures
            final(self).wf(),
            final(self).spec_height() == Self::spec_rounded_height(
                old(self).spec_height(),
                density,
            ),
            final(self).spec_height() >= old(self).spec_height(),
            final(self).spec_y_tick_display() == density,
            final(self).spec_width() == old(self).spec_width(),
            final(self).spec_xmin() == old(self).spec_xmin(),
            final(self).spec_xmax() == old(self).spec_xmax(),
            final(self).spec_ymin() == old(self).spec_ymin(),
            final(self).spec_ymax() == old(self).spec_ymax(),
            final(self).spec_auto_range() == old(self).spec_auto_range(),
            final(self).spec_shapes() == old(self).spec_shapes(),
            final(self).spec_dots() == old(self).spec_dots(),
            final(self).spec_x_style() == old(self).spec_x_style(),
            final(self).spec_y_style() == old(self).spec_y_style(),
            final(self).spec_x_label_format() == old(self).spec_x_label_format(),
            final(self).spec_y_label_format() == old(self).spec_y_label_format(),
    {
        match density {
            TickDisplay::Hidden => {},
            TickDisplay::Sparse => {
                self.height = ((self.height + 15) / 16) * 16;
            },
            TickDisplay::Dense => {
                self.height = ((self.height + 7) / 8) * 8;
            },
        }
        self.y_tick_display = density;
        proof {
            lemma_rounding_bounds(old(self).spec_height() as int);
        }
    }

    /// Registers a shape to be drawn without a color; in auto-ranging
    /// mode the y-range widens to include the shape's y-values.  A
    /// continuous shape carries at most one sample per pixel column.
    pub fn lineplot(&mut self, shape: Shape)
        requires
            old(self).wf(),
            shape.wf(),
            shape.fits_width(old(self).spec_width()),
        ensures
            final(self).wf(),
            final(self).spec_shapes() == old(self).spec_shapes().push(
                (shape, Option::<Rgb>::None),
            ),
            final(self).spec_auto_range() ==> (final(self).spec_ymin(), final(self).spec_ymax())
                == range_after(
                old(self).spec_ymin(),
                old(self).spec_ymax(),
                shape,
                old(self).spec_xmin(),
                old(self).spec_xmax(),
            ),
            !final(self).spec_auto_range() ==> final(self).spec_ymin() == old(self).spec_ymin()
                && final(self).spec_ymax() == old(self).spec_ymax(),
            Self::same_styling(*old(self), *final(self)),
            final(self).spec_width() == old(self).spec_width(),
            final(self).spec_height() == old(self).spec_height(),
            final(self).spec_xmin() == old(self).spec_xmin(),
            final(self).spec_xmax() == old(self).spec_xmax(),
            final(self).spec_auto_range() == old(self).spec_auto_range(),
            final(self).spec_dots() == old(self).spec_dots(),
    {
        let auto = match self.y_ranging {
            ChartRangeMethod::AutoRange => true,
            ChartRangeMethod::FixedRange => false,
        };
        if auto {
            self.rescale(&shape);
        }
        self.shapes.push((shape, Option::None));
        proof {
            assert forall|k: int|
                0 <= k < self.spec_shapes().len() implies (#[trigger] self.spec_shapes()[k]).0.wf() by {
                if k < old(self).spec_shapes().len() {
                    assert(old(self).spec_shapes()[k].0.wf());
                }
            }
        }
    }

    /// Registers a shape to be drawn with the given color; in
    /// auto-ranging mode the y-range widens to include the shape's
    /// y-values.  A continuous shape carries at most one sample per
    /// pixel column.
    pub fn linecolorplot(&mut self, shape: Shape, color: Rgb)
        requires
            old(self).wf(),
            shape.wf(),
            shape.fits_width(old(self).spec_width()),
        ensures
            final(self).wf(),
            final(self).spec_shapes() == old(self).spec_shapes().push(
                (shape, Option::Some(color)),
            ),
            final(self).spec_auto_range() ==> (final(self).spec_ymin(), final(self).spec_ymax())
                == range_after(
                old(self).spec_ymin(),
                old(self).spec_ymax(),
                shape,
                old(self).spec_xmin(),
                old(self).spec_xmax(),
            ),
            !final(self).spec_auto_range() ==> final(self).spec_ymin() == old(self).spec_ymin()
                && final(self).spec_ymax() == old(self).spec_ymax(),
            Self::same_styling(*old(self), *final(self)),
            final(self).spec_width() == old(self).spec_width(),
            final(self).spec_height() == old(self).spec_height(),
            final(self).spec_xmin() == old(self).spec_xmin(),
            final(self).spec_xmax() == old(self).spec_xmax(),
            final(self).spec_auto_range() == old(self).spec_auto_range(),
            final(self).spec_dots() == old(self).spec_dots(),
    {
        let auto = match self.y_ranging {
            ChartRangeMethod::AutoRange => true,
            ChartRangeMethod::FixedRange => false,
        };
        if auto {
            self.rescale(&shape);
        }
        self.shapes.push((shape, Option::Some(color)));
        proof {
            assert forall|k: int|
                0 <= k < self.spec_shapes().len() implies (#[trigger] self.spec_shapes()[k]).0.wf() by {
                if k < old(self).spec_shapes().len() {
                    assert(old(self).spec_shapes()[k].0.wf());
                }
            }
        }
    }

    /// Widens the y-range to include the shape's in-domain y-values;
    /// an empty contribution pulls the range towards zero, as the
    /// running fold starts at zero for such a shape.
    fn rescale(&mut self, shape: &Shape)
        requires
            old(self).wf(),
            shape.wf(),
        ensures
            (final(self).spec_ymin(), final(self).spec_ymax()) == range_after(
                old(self).spec_ymin(),
                old(self).spec_ymax(),
                *shape,
                old(self).spec_xmin(),
                old(self).spec_xmax(),
            ),
            Self::same_styling(*old(self), *final(self)),
            final(self).spec_width() == old(self).spec_width(),
            final(self).spec_height() == old(self).spec_height(),
            final(self).spec_xmin() == old(self).spec_xmin(),
            final(self).spec_xmax() == old(self).spec_xmax(),
            final(self).spec_auto_range() == old(self).spec_auto_range(),
            final(self).spec_shapes() == old(self).spec_shapes(),
            final(self).spec_dots() == old(self).spec_dots(),
            in_coord_range(final(self).spec_ymin()),
            in_coord_range(final(self).spec_ymax()),
            final(self).spec_ymin() <= final(self).spec_ymax(),
    {
        let bounds: (i64, i64) = match shape {
            Shape::Continuous(s) => cont_bounds(s),
            Shape::Points(d) => data_bounds(d, self.xmin, self.xmax),
            Shape::Lines(d) => data_bounds(d, self.xmin, self.xmax),
            Shape::Steps(d) => data_bounds(d, self.xmin, self.xmax),
            Shape::Bars(d) => data_bounds(d, self.xmin, self.xmax),
        };
        let (lo_c, hi_c) = bounds;
        if lo_c < self.ymin {
            self.ymin = lo_c;
        }
        if hi_c > self.ymax {
            self.ymax = hi_c;
        }
    }
}

/// Executes a list of drawing operations on the canvas, in order, with
/// one optional color for all of them.
fn draw_ops(c: &mut drawille::Canvas, ops: &Vec<DrawOp>, color: Option<Rgb>, width: u32, height: u32)
    requires
        ops_in_viewport(ops@, width, height),
        width <= PIXEL_MAX,
        height <= PIXEL_MAX,
    ensures
        canvas_dots(*final(c)) == canvas_dots(*old(c)).union(ops_dots(ops@)),
        forall|p: (u32, u32)|
            canvas_dots(*final(c)).contains(p) ==> canvas_dots(*old(c)).contains(p)
                || some_op_covers(ops@, p),
{
    let mut k: usize = 0;
    while k < ops.len()
        invariant
            k <= ops@.len(),
            ops_in_viewport(ops@, width, height),
            width <= PIXEL_MAX,
            height <= PIXEL_MAX,
            canvas_dots(*c) == canvas_dots(*old(c)).union(ops_dots(ops@.take(k as int))),
            forall|p: (u32, u32)|
                canvas_dots(*c).contains(p) ==> canvas_dots(*old(c)).contains(p)
                    || some_op_covers(ops@.take(k as int), p),
        decreases ops@.len() - k,
    {
        let ghost pre = canvas_dots(*c);
        let op = ops[k];
        proof {
            assert(op_in_viewport(ops@[k as int], width, height));
        }
        match op {
            DrawOp::Dot(x, y) => {
                match color {
                    Option::Some(col) => canvas_set_colored(c, x, y, col),
                    Option::None => canvas_set(c, x, y),
                }
            },
            DrawOp::Segment(x1, y1, x2, y2) => {
                match color {
                    Option::Some(col) => canvas_line_colored(c, x1, y1, x2, y2, col),
                    Option::None => canvas_line(c, x1, y1, x2, y2),
                }
            },
        }
        proof {
            assert(ops@.take(k as int + 1).drop_last() =~= ops@.take(k as int));
            assert(ops@.take(k as int + 1).last() == ops@[k as int]);
            assert(canvas_dots(*c) =~= canvas_dots(*old(c)).union(
                ops_dots(ops@.take(k as int + 1)),
            ));
            assert forall|p: (u32, u32)|
                canvas_dots(*c).contains(p) implies canvas_dots(*old(c)).contains(p)
                || some_op_covers(ops@.take(k as int + 1), p) by {
                if pre.contains(p) {
                    if some_op_covers(ops@.take(k as int), p) {
                        let i = choose|i: int|
                            0 <= i < ops@.take(k as int).len() && op_covers(
                                #[trigger] ops@.take(k as int)[i],
                                p,
                            );
                        assert(op_covers(ops@.take(k as int + 1)[i], p));
                    }
                } else {
                    assert(op_covers(ops@.take(k as int + 1)[k as int], p));
                }
            }
        }
        k = k + 1;
    }
    proof {
        assert(ops@.take(ops@.len() as int) =~= ops@);
    }
}

/// Rounding a height within the accepted bounds up to the next
/// multiple of 8 or 16 never lowers it and keeps it within them.
proof fn lemma_rounding_bounds(h: int)
    requires
        MIN_HEIGHT <= h <= MAX_HEIGHT,
    ensures
        h <= ((h + 15) / 16) * 16 <= MAX_HEIGHT,
        16 <= ((h + 15) / 16) * 16,
        h <= ((h + 7) / 8) * 8 <= MAX_HEIGHT,
        8 <= ((h + 7) / 8) * 8,
{
    vstd::arithmetic::div_mod::lemma_fundamental_div_mod_converse(32015, 16, 2000, 15);
    vstd::arithmetic::div_mod::lemma_fundamental_div_mod_converse(32007, 8, 4000, 7);
    vstd::arithmetic::div_mod::lemma_div_is_ordered(16, h + 15, 16);
    vstd::arithmetic::div_mod::lemma_div_is_ordered(h + 15, 32015, 16);
    vstd::arithmetic::div_mod::lemma_div_is_ordered(8, h + 7, 8);
    vstd::arithmetic::div_mod::lemma_div_is_ordered(h + 7, 32007, 8);
    vstd::arithmetic::div_mod::lemma_div_by_self(16);
    vstd::arithmetic::div_mod::lemma_div_by_self(8);
    vstd::arithmetic::div_mod::lemma_fundamental_div_mod(h + 15, 16);
    vstd::arithmetic::div_mod::lemma_fundamental_div_mod(h + 7, 8);
    let q16 = (h + 15) / 16;
    assert(h <= q16 * 16 && 16 <= q16 * 16 <= 32000) by (nonlinear_arith)
        requires
            1 <= q16 <= 2000,
            h + 15 == 16 * q16 + (h + 15) % 16,
            0 <= (h + 15) % 16 < 16,
    ;
    let q8 = (h + 7) / 8;
    assert(h <= q8 * 8 && 8 <= q8 * 8 <= 32000) by (nonlinear_arith)
        requires
            1 <= q8 <= 4000,
            h + 7 == 8 * q8 + (h + 7) % 8,
            0 <= (h + 7) % 8 < 8,
    ;
}

/// The running minimum and maximum of a sequence of values, or `None`
/// for an empty sequence.
pub open spec fn running_bounds(ys: Seq<int>) -> Option<(int, int)>
    decreases ys.len(),
{
    if ys.len() == 0 {
        Option::None
    } else {
        match running_bounds(ys.drop_last()) {
            Option::None => Option::Some((ys.last(), ys.last())),
            Option::Some((l, h)) => Option::Some((imin(l, ys.last()), imax(h, ys.last()))),
        }
    }
}

/// The running bounds of a nonempty sequence are its minimum and
/// maximum.
proof fn lemma_running_bounds(ys: Seq<int>)
    requires
        ys.len() > 0,
    ensures
        running_bounds(ys) == Option::Some((seq_min(ys), seq_max(ys))),
    decreases ys.len(),
{
    if ys.len() == 1 {
        assert(running_bounds(ys.drop_last()) is None);
        assert(seq_min(ys) == ys[0]);
        assert(seq_max(ys) == ys[0]);
    } else {
        lemma_running_bounds(ys.drop_last());
        assert(seq_min(ys) == imin(seq_min(ys.drop_last()), ys.last()));
        assert(seq_max(ys) == imax(seq_max(ys.drop_last()), ys.last()));
    }
}

/// Computes the auto-ranging contribution of a discrete shape: the
/// minimum and maximum in-domain y-value, or `(0, 0)` when none is in
/// the domain.
fn data_bounds(d: &Vec<(i64, i64)>, xmin: i64, xmax: i64) -> (r: (i64, i64))
    requires
        crate::shape::data_wf(d@),
    ensures
        r.0 as int == range_lo(data_range_ys(d@, xmin as int, xmax as int)),
        r.1 as int == range_hi(data_range_ys(d@, xmin as int, xmax as int)),
        in_coord_range(r.0 as int),
        in_coord_range(r.1 as int),
        r.0 <= r.1,
{
    let mut state: Option<(i64, i64)> = Option::None;
    let mut k: usize = 0;
    while k < d.len()
        invariant
            k <= d@.len(),
            crate::shape::data_wf(d@),
            match state {
                Option::None => (running_bounds(
                    data_range_ys(d@.take(k as int), xmin as int, xmax as int),
                ) is None),
                Option::Some((l, h)) => running_bounds(
                    data_range_ys(d@.take(k as int), xmin as int, xmax as int),
                ) == Option::Some((l as int, h as int)) && in_coord_range(l as int)
                    && in_coord_range(h as int) && l <= h,
            },
        decreases d@.len() - k,
    {
        proof {
            assert(d@.take(k as int + 1).drop_last() =~= d@.take(k as int));
            let ys0 = data_range_ys(d@.take(k as int), xmin as int, xmax as int);
            let ys1 = data_range_ys(d@.take(k as int + 1), xmin as int, xmax as int);
            if xmin as int <= d@[k as int].0 as int <= xmax as int {
                assert(ys1 == ys0 + seq![d@[k as int].1 as int]);
                assert(ys1.drop_last() =~= ys0);
                assert(ys1.last() == d@[k as int].1 as int);
            } else {
                assert(ys1 =~= ys0);
            }
        }
        let (x, y) = d[k];
        if x >= xmin && x <= xmax {
            state = match state {
                Option::None => Option::Some((y, y)),
                Option::Some((l, h)) => Option::Some(
                    (
                        if y < l {
                            y
                        } else {
                            l
                        },
                        if y > h {
                            y
                        } else {
                            h
                        },
                    ),
                ),
            };
        }
        k = k + 1;
    }
    proof {
        assert(d@.take(d@.len() as int) =~= d@);
        let ys = data_range_ys(d@, xmin as int, xmax as int);
        if ys.len() > 0 {
            lemma_running_bounds(ys);
        }
    }
    match state {
        Option::None => (0, 0),
        Option::Some((l, h)) => (l, h),
    }
}

/// Computes the auto-ranging contribution of a continuous shape: the
/// minimum and maximum finite normal sample value, or `(0, 0)` when
/// there is none.
fn cont_bounds(s: &Vec<Sample>) -> (r: (i64, i64))
    requires
        forall|k: int| 0 <= k < s@.len() ==> (#[trigger] s@[k]).wf(),
    ensures
        r.0 as int == range_lo(cont_range_ys(s@)),
        r.1 as int == range_hi(cont_range_ys(s@)),
        in_coord_range(r.0 as int),
        in_coord_range(r.1 as int),
        r.0 <= r.1,
{
    let mut state: Option<(i64, i64)> = Option::None;
    let mut k: usize = 0;
    while k < s.len()
        invariant
            k <= s@.len(),
            forall|t: int| 0 <= t < s@.len() ==> (#[trigger] s@[t]).wf(),
            match state {
                Option::None => (running_bounds(cont_range_ys(s@.take(k as int))) is None),
                Option::Some((l, h)) => running_bounds(cont_range_ys(s@.take(k as int)))
                    == Option::Some((l as int, h as int)) && in_coord_range(l as int)
                    && in_coord_range(h as int) && l <= h,
            },
        decreases s@.len() - k,
    {
        proof {
            assert(s@.take(k as int + 1).drop_last() =~= s@.take(k as int));
            let ys0 = cont_range_ys(s@.take(k as int));
            let ys1 = cont_range_ys(s@.take(k as int + 1));
            match s@[k as int].range_value() {
                Option::Some(v) => {
                    assert(ys1 == ys0 + seq![v]);
                    assert(ys1.drop_last() =~= ys0);
                    assert(ys1.last() == v);
                },
                Option::None => {
                    assert(ys1 =~= ys0);
                },
            }
        }
        match s[k] {
            Sample::Normal(y) => {
                state = match state {
                    Option::None => Option::Some((y, y)),
                    Option::Some((l, h)) => Option::Some(
                        (
                            if y < l {
                                y
                            } else {
                                l
                            },
                            if y > h {
                                y
                            } else {
                                h
                            },
                        ),
                    ),
                };
            },
            _ => {},
        }
        k = k + 1;
    }
    proof {
        assert(s@.take(s@.len() as int) =~= s@);
        let ys = cont_range_ys(s@);
        if ys.len() > 0 {
            lemma_running_bounds(ys);
        }
    }
    match state {
        Option::None => (0, 0),
        Option::Some((l, h)) => (l, h),
    }
}


/// The dots of a vertical line at column `i` over a viewport of height
/// `h`, in the given style.
pub open spec fn vline_dots(i: u32, h: u32, style: LineStyle) -> Set<(u32, u32)> {
    match style {
        LineStyle::Hidden => Set::empty(),
        LineStyle::Solid => Set::new(|p: (u32, u32)| p.0 == i && p.1 <= h),
        LineStyle::Dotted => Set::new(|p: (u32, u32)| p.0 == i && p.1 <= h && p.1 % 3 == 0),
        LineStyle::Dashed => Set::new(
            |p: (u32, u32)|
                p.0 == i && ((p.1 <= h && p.1 % 4 == 0) || (1 <= p.1 <= h + 1 && (p.1 - 1) % 4
                    == 0)),
        ),
    }
}

/// The dots of a horizontal line `j` pixels above the viewport floor,
/// over a viewport of width `w` and height `h`, in the given style.
/// The line lands on pixel row `h - j`, because rows grow downward.
pub open spec fn hline_dots(j: u32, w: u32, h: u32, style: LineStyle) -> Set<(u32, u32)> {
    match style {
        LineStyle::Hidden => Set::empty(),
        LineStyle::Solid => Set::new(|p: (u32, u32)| p.1 == h - j && p.0 <= w),
        LineStyle::Dotted => Set::new(|p: (u32, u32)| p.1 == h - j && p.0 <= w && p.0 % 3 == 0),
        LineStyle::Dashed => Set::new(
            |p: (u32, u32)|
                p.1 == h - j && ((p.0 <= w && p.0 % 4 == 0) || (1 <= p.0 <= w + 1 && (p.0 - 1) % 4
                    == 0)),
        ),
    }
}

impl Chart {
    /// The two charts agree on everything but the canvas dots.
    pub open spec fn same_but_dots(a: Chart, b: Chart) -> bool {
        &&& a.spec_width() == b.spec_width()
        &&& a.spec_height() == b.spec_height()
        &&& a.spec_xmin() == b.spec_xmin()
        &&& a.spec_xmax() == b.spec_xmax()
        &&& a.spec_ymin() == b.spec_ymin()
        &&& a.spec_ymax() == b.spec_ymax()
        &&& a.spec_auto_range() == b.spec_auto_range()
        &&& a.spec_shapes() == b.spec_shapes()
        &&& Self::same_styling(a, b)
    }

    /// Draws a vertical line of the specified style at column `i`;
    /// a column beyond the viewport draws nothing.
    fn vline(&mut self, i: u32, mode: LineStyle)
        requires
            old(self).wf(),
        ensures
            final(self).wf(),
            Self::same_but_dots(*old(self), *final(self)),
            final(self).spec_dots() == old(self).spec_dots().union(
                if i <= old(self).spec_width() {
                    vline_dots(i, old(self).spec_height(), mode)
                } else {
                    Set::empty()
                },
            ),
    {
        let h = self.height;
        match mode {
            LineStyle::Hidden => {
                proof {
                    assert(self.spec_dots() =~= old(self).spec_dots().union(
                        if i <= old(self).spec_width() {
                            vline_dots(i, old(self).spec_height(), mode)
                        } else {
                            Set::empty()
                        },
                    ));
                }
            },
            LineStyle::Solid => {
                if i <= self.width {
                    let mut j: u32 = 0;
                    while j <= h
                        invariant
                            old(self).wf(),
                            h == old(self).spec_height(),
                            i <= old(self).spec_width(),
                            j <= h + 1,
                            Self::same_but_dots(*old(self), *self),
                            self.wf(),
                            self.spec_dots() == old(self).spec_dots().union(
                                Set::new(|p: (u32, u32)| p.0 == i && p.1 < j),
                            ),
                        decreases h + 1 - j,
                    {
                        canvas_set(&mut self.canvas, i, j);
                        proof {
                            assert(self.spec_dots() =~= old(self).spec_dots().union(
                                Set::new(|p: (u32, u32)| p.0 == i && p.1 < j + 1),
                            ));
                        }
                        j = j + 1;
                    }
                    proof {
                        assert(self.spec_dots() =~= old(self).spec_dots().union(
                            vline_dots(i, old(self).spec_height(), mode),
                        ));
                    }
                } else {
                    proof {
                        assert(self.spec_dots() =~= old(self).spec_dots().union(Set::empty()));
                    }
                }
            },
            LineStyle::Dotted => {
                if i <= self.width {
                    let mut j: u32 = 0;
                    while j <= h
                        invariant
                            old(self).wf(),
                            h == old(self).spec_height(),
                            i <= old(self).spec_width(),
                            j <= h + 1,
                            Self::same_but_dots(*old(self), *self),
                            self.wf(),
                            self.spec_dots() == old(self).spec_dots().union(
                                Set::new(|p: (u32, u32)| p.0 == i && p.1 < j && p.1 % 3 == 0),
                            ),
                        decreases h + 1 - j,
                    {
                        if j % 3 == 0 {
                            canvas_set(&mut self.canvas, i, j);
                        }
                        proof {
                            assert(self.spec_dots() =~= old(self).spec_dots().union(
                                Set::new(|p: (u32, u32)| p.0 == i && p.1 < j + 1 && p.1 % 3 == 0),
                            ));
                        }
                        j = j + 1;
                    }
                    proof {
                        assert(self.spec_dots() =~= old(self).spec_dots().union(
                            vline_dots(i, old(self).spec_height(), mode),
                        ));
                    }
                } else {
                    proof {
                        assert(self.spec_dots() =~= old(self).spec_dots().union(Set::empty()));
                    }
                }
            },
            LineStyle::Dashed => {
                if i <= self.width {
                    let mut j: u32 = 0;
                    while j <= h
                        invariant
                            old(self).wf(),
                            h == old(self).spec_height(),
                            i <= old(self).spec_width(),
                            j <= h + 1,
                            Self::same_but_dots(*old(self), *self),
                            self.wf(),
                            self.spec_dots() == old(self).spec_dots().union(
                                Set::new(
                                    |p: (u32, u32)|
                                        p.0 == i && ((p.1 < j && p.1 % 4 == 0) || (1 <= p.1 < j + 1
                                            && (p.1 - 1) % 4 == 0)),
                                ),
                            ),
                        decreases h + 1 - j,
                    {
                        if j % 4 == 0 {
                            canvas_set(&mut self.canvas, i, j);
                            canvas_set(&mut self.canvas, i, j + 1);
                        }
                        proof {
                            assert(self.spec_dots() =~= old(self).spec_dots().union(
                                Set::new(
                                    |p: (u32, u32)|
                                        p.0 == i && ((p.1 < j + 1 && p.1 % 4 == 0) || (1 <= p.1 < j
                                            + 2 && (p.1 - 1) % 4 == 0)),
                                ),
                            ));
                        }
                        j = j + 1;
                    }
                    proof {
                        assert(self.spec_dots() =~= old(self).spec_dots().union(
                            vline_dots(i, old(self).spec_height(), mode),
                        ));
                    }
                } else {
                    proof {
                        assert(self.spec_dots() =~= old(self).spec_dots().union(Set::empty()));
                    }
                }
            },
        }
    }

    /// Draws a horizontal line of the specified style `j` pixels above
    /// the viewport floor; a row beyond the viewport draws nothing.
    fn hline(&mut self, j: u32, mode: LineStyle)
        requires
            old(self).wf(),
        ensures
            final(self).wf(),
            Self::same_but_dots(*old(self), *final(self)),
            final(self).spec_dots() == old(self).spec_dots().union(
                if j <= old(self).spec_height() {
                    hline_dots(j, old(self).spec_width(), old(self).spec_height(), mode)
                } else {
                    Set::empty()
                },
            ),
    {
        let w = self.width;
        let row = if j <= self.height {
            self.height - j
        } else {
            0
        };
        match mode {
            LineStyle::Hidden => {
                proof {
                    assert(self.spec_dots() =~= old(self).spec_dots().union(
                        if j <= old(self).spec_height() {
                            hline_dots(j, old(self).spec_width(), old(self).spec_height(), mode)
                        } else {
                            Set::empty()
                        },
                    ));
                }
            },
            LineStyle::Solid => {
                if j <= self.height {
                    let mut x: u32 = 0;
                    while x <= w
                        invariant
                            old(self).wf(),
                            w == old(self).spec_width(),
                            j <= old(self).spec_height(),
                            row == old(self).spec_height() - j,
                            x <= w + 1,
                            Self::same_but_dots(*old(self), *self),
                            self.wf(),
                            self.spec_dots() == old(self).spec_dots().union(
                                Set::new(|p: (u32, u32)| p.1 == row && p.0 < x),
                            ),
                        decreases w + 1 - x,
                    {
                        canvas_set(&mut self.canvas, x, row);
                        proof {
                            assert(self.spec_dots() =~= old(self).spec_dots().union(
                                Set::new(|p: (u32, u32)| p.1 == row && p.0 < x + 1),
                            ));
                        }
                        x = x + 1;
                    }
                    proof {
                        assert(self.spec_dots() =~= old(self).spec_dots().union(
                            hline_dots(j, old(self).spec_width(), old(self).spec_height(), mode),
                        ));
                    }
                } else {
                    proof {
                        assert(self.spec_dots() =~= old(self).spec_dots().union(Set::empty()));
                    }
                }
            },
            LineStyle::Dotted => {
                if j <= self.height {
                    let mut x: u32 = 0;
                    while x <= w
                        invariant
                            old(self).wf(),
                            w == old(self).spec_width(),
                            j <= old(self).spec_height(),
                            row == old(self).spec_height() - j,
                            x <= w + 1,
                            Self::same_but_dots(*old(self), *self),
                            self.wf(),
                            self.spec_dots() == old(self).spec_dots().union(
                                Set::new(|p: (u32, u32)| p.1 == row && p.0 < x && p.0 % 3 == 0),
                            ),
                        decreases w + 1 - x,
                    {
                        if x % 3 == 0 {
                            canvas_set(&mut self.canvas, x, row);
                        }
                        proof {
                            assert(self.spec_dots() =~= old(self).spec_dots().union(
                                Set::new(
                                    |p: (u32, u32)| p.1 == row && p.0 < x + 1 && p.0 % 3 == 0,
                                ),
                            ));
                        }
                        x = x + 1;
                    }
                    proof {
                        assert(self.spec_dots() =~= old(self).spec_dots().union(
                            hline_dots(j, old(self).spec_width(), old(self).spec_height(), mode),
                        ));
                    }
                } else {
                    proof {
                        assert(self.spec_dots() =~= old(self).spec_dots().union(Set::empty()));
                    }
                }
            },
            LineStyle::Dashed => {
                if j <= self.height {
                    let mut x: u32 = 0;
                    while x <= w
                        invariant
                            old(self).wf(),
                            w == old(self).spec_width(),
                            j <= old(self).spec_height(),
                            row == old(self).spec_height() - j,
                            x <= w + 1,
                            Self::same_but_dots(*old(self), *self),
                            self.wf(),
                            self.spec_dots() == old(self).spec_dots().union(
                                Set::new(
                                    |p: (u32, u32)|
                                        p.1 == row && ((p.0 < x && p.0 % 4 == 0) || (1 <= p.0 < x
                                            + 1 && (p.0 - 1) % 4 == 0)),
                                ),
                            ),
                        decreases w + 1 - x,
                    {
                        if x % 4 == 0 {
                            canvas_set(&mut self.canvas, x, row);
                            canvas_set(&mut self.canvas, x + 1, row);
                        }
                        proof {
                            assert(self.spec_dots() =~= old(self).spec_dots().union(
                                Set::new(
                                    |p: (u32, u32)|
                                        p.1 == row && ((p.0 < x + 1 && p.0 % 4 == 0) || (1 <= p.0
                                            < x + 2 && (p.0 - 1) % 4 == 0)),
                                ),
                            ));
                        }
                        x = x + 1;
                    }
                    proof {
                        assert(self.spec_dots() =~= old(self).spec_dots().union(
                            hline_dots(j, old(self).spec_width(), old(self).spec_height(), mode),
                        ));
                    }
                } else {
                    proof {
                        assert(self.spec_dots() =~= old(self).spec_dots().union(Set::empty()));
                    }
                }
            },
        }
    }

    /// Draws the bounding rectangle of the viewport, dotted.
    pub fn borders(&mut self)
        requires
            old(self).wf(),
        ensures
            final(self).wf(),
            Self::same_but_dots(*old(self), *final(self)),
            final(self).spec_dots() == old(self).spec_dots().union(
                vline_dots(0, old(self).spec_height(), LineStyle::Dotted),
            ).union(
                vline_dots(old(self).spec_width(), old(self).spec_height(), LineStyle::Dotted),
            ).union(
                hline_dots(0, old(self).spec_width(), old(self).spec_height(), LineStyle::Dotted),
            ).union(
                hline_dots(
                    old(self).spec_height(),
                    old(self).spec_width(),
                    old(self).spec_height(),
                    LineStyle::Dotted,
                ),
            ),
    {
        let w = self.width;
        let h = self.height;
        self.vline(0, LineStyle::Dotted);
        self.vline(w, LineStyle::Dotted);
        self.hline(0, LineStyle::Dotted);
        self.hline(h, LineStyle::Dotted);
    }
}


/// All drawing operations of a list of registered shapes, in
/// registration order (later shapes draw on top).
pub open spec fn chart_ops(
    shapes: Seq<(Shape, Option<Rgb>)>,
    xs: Scale,
    ys: Scale,
    w: u32,
    h: u32,
) -> Seq<DrawOp>
    decreases shapes.len(),
{
    if shapes.len() == 0 {
        Seq::empty()
    } else {
        chart_ops(shapes.drop_last(), xs, ys, w, h) + shape_ops_spec(
            shapes.last().0,
            xs,
            ys,
            w,
            h,
        )
    }
}

impl Chart {
    /// The horizontal scale the chart draws with: x-range onto pixel
    /// columns, in milli-units.
    pub open spec fn spec_x_scale(self) -> Scale {
        Scale::spec_new(self.spec_xmin(), self.spec_xmax(), 0, 1000 * (self.spec_width() as int))
    }

    /// The vertical scale the chart draws with: y-range onto pixel
    /// rows, in milli-units.
    pub open spec fn spec_y_scale(self) -> Scale {
        Scale::spec_new(self.spec_ymin(), self.spec_ymax(), 0, 1000 * (self.spec_height() as int))
    }

    /// The pixel row, measured up from the viewport floor, where the
    /// y = 0 axis line lands.
    pub open spec fn spec_zero_row(self) -> int {
        linear_map(self.spec_ymin(), self.spec_ymax(), 0, 1000 * (self.spec_height() as int), 0)
            / 1000
    }

    /// The pixel column where the x = 0 axis line lands.
    pub open spec fn spec_zero_col(self) -> int {
        linear_map(self.spec_xmin(), self.spec_xmax(), 0, 1000 * (self.spec_width() as int), 0)
            / 1000
    }

    /// The dots the x-axis line adds: a horizontal line at y = 0 when 0
    /// lies within the y-range, nothing otherwise.
    pub open spec fn spec_x_axis_dots(self) -> Set<(u32, u32)> {
        if self.spec_ymin() <= 0 <= self.spec_ymax() {
            hline_dots(
                self.spec_zero_row() as u32,
                self.spec_width(),
                self.spec_height(),
                self.spec_x_style(),
            )
        } else {
            Set::empty()
        }
    }

    /// The dots the y-axis line adds: a vertical line at x = 0 when 0
    /// lies within the x-range, nothing otherwise.
    pub open spec fn spec_y_axis_dots(self) -> Set<(u32, u32)> {
        if self.spec_xmin() <= 0 <= self.spec_xmax() {
            vline_dots(self.spec_zero_col() as u32, self.spec_height(), self.spec_y_style())
        } else {
            Set::empty()
        }
    }

    /// Shows the x-axis: a horizontal line at the row of y = 0, in the
    /// configured style, if 0 lies within the y-range.
    pub fn x_axis(&mut self)
        requires
            old(self).wf(),
        ensures
            final(self).wf(),
            Self::same_but_dots(*old(self), *final(self)),
            final(self).spec_dots() == old(self).spec_dots().union(old(self).spec_x_axis_dots()),
    {
        if self.ymin <= 0 && self.ymax >= 0 {
            let y_scale = Scale::new((self.ymin, self.ymax), (0, (self.height as i64) * 1000));
            let m = y_scale.linear(0);
            let j = ((m as u64) / 1000) as u32;
            proof {
                lemma_div_le_height(m as int, old(self).spec_height() as int);
            }
            self.hline(j, self.x_style);
        } else {
            proof {
                assert(self.spec_dots() =~= old(self).spec_dots().union(
                    old(self).spec_x_axis_dots(),
                ));
            }
        }
    }

    /// Shows the y-axis: a vertical line at the column of x = 0, in the
    /// configured style, if 0 lies within the x-range.
    pub fn y_axis(&mut self)
        requires
            old(self).wf(),
        ensures
            final(self).wf(),
            Self::same_but_dots(*old(self), *final(self)),
            final(self).spec_dots() == old(self).spec_dots().union(old(self).spec_y_axis_dots()),
    {
        if self.xmin <= 0 && self.xmax >= 0 {
            let x_scale = Scale::new((self.xmin, self.xmax), (0, (self.width as i64) * 1000));
            let m = x_scale.linear(0);
            let i = ((m as u64) / 1000) as u32;
            proof {
                lemma_div_le_height(m as int, old(self).spec_width() as int);
            }
            self.vline(i, self.y_style);
        } else {
            proof {
                assert(self.spec_dots() =~= old(self).spec_dots().union(
                    old(self).spec_y_axis_dots(),
                ));
            }
        }
    }

    /// Shows both axes.
    pub fn axis(&mut self)
        requires
            old(self).wf(),
        ensures
            final(self).wf(),
            Self::same_but_dots(*old(self), *final(self)),
            final(self).spec_dots() == old(self).spec_dots().union(
                old(self).spec_x_axis_dots(),
            ).union(old(self).spec_y_axis_dots()),
    {
        self.x_axis();
        self.y_axis();
    }

    /// Rasterizes every registered shape onto the canvas, in
    /// registration order: the canvas gains exactly the dots of the
    /// shapes' drawing operations, and every new dot lies within the
    /// footprint of one of those operations.
    pub fn figures(&mut self)
        requires
            old(self).wf(),
        ensures
            final(self).wf(),
            Self::same_but_dots(*old(self), *final(self)),
            final(self).spec_dots() == old(self).spec_dots().union(
                ops_dots(
                    chart_ops(
                        old(self).spec_shapes(),
                        old(self).spec_x_scale(),
                        old(self).spec_y_scale(),
                        old(self).spec_width(),
                        old(self).spec_height(),
                    ),
                ),
            ),
            forall|p: (u32, u32)|
                final(self).spec_dots().contains(p) ==> old(self).spec_dots().contains(p)
                    || some_op_covers(
                    chart_ops(
                        old(self).spec_shapes(),
                        old(self).spec_x_scale(),
                        old(self).spec_y_scale(),
                        old(self).spec_width(),
                        old(self).spec_height(),
                    ),
                    p,
                ),
    {
        let ghost gxs = old(self).spec_x_scale();
        let ghost gys = old(self).spec_y_scale();
        let n = self.shapes.len();
        let mut idx: usize = 0;
        while idx < n
            invariant
                old(self).wf(),
                self.wf(),
                Self::same_but_dots(*old(self), *self),
                n == self.shapes@.len(),
                idx <= n,
                gxs == old(self).spec_x_scale(),
                gys == old(self).spec_y_scale(),
                self.spec_dots() == old(self).spec_dots().union(
                    ops_dots(
                        chart_ops(
                            old(self).spec_shapes().take(idx as int),
                            gxs,
                            gys,
                            old(self).spec_width(),
                            old(self).spec_height(),
                        ),
                    ),
                ),
                forall|p: (u32, u32)|
                    self.spec_dots().contains(p) ==> old(self).spec_dots().contains(p)
                        || some_op_covers(
                        chart_ops(
                            old(self).spec_shapes().take(idx as int),
                            gxs,
                            gys,
                            old(self).spec_width(),
                            old(self).spec_height(),
                        ),
                        p,
                    ),
            decreases n - idx,
        {
            let ghost pre = self.spec_dots();
            let x_scale = Scale::new((self.xmin, self.xmax), (0, (self.width as i64) * 1000));
            let y_scale = Scale::new((self.ymin, self.ymax), (0, (self.height as i64) * 1000));
            proof {
                assert(x_scale == gxs);
                assert(y_scale == gys);
                assert(self.spec_shapes()[idx as int].0.wf());
            }
            let pair = &self.shapes[idx];
            let ops = shape_ops(&pair.0, &x_scale, &y_scale, self.width, self.height);
            let color = pair.1;
            draw_ops(&mut self.canvas, &ops, color, self.width, self.height);
            proof {
                let shapes = old(self).spec_shapes();
                assert(shapes.take(idx as int + 1).drop_last() =~= shapes.take(idx as int));
                assert(shapes.take(idx as int + 1).last() == shapes[idx as int]);
                let a = chart_ops(
                    shapes.take(idx as int),
                    gxs,
                    gys,
                    old(self).spec_width(),
                    old(self).spec_height(),
                );
                let b = shape_ops_spec(
                    shapes[idx as int].0,
                    gxs,
                    gys,
                    old(self).spec_width(),
                    old(self).spec_height(),
                );
                assert(chart_ops(
                    shapes.take(idx as int + 1),
                    gxs,
                    gys,
                    old(self).spec_width(),
                    old(self).spec_height(),
                ) == a + b);
                lemma_ops_dots_concat(a, b);
                assert(self.spec_dots() =~= old(self).spec_dots().union(ops_dots(a + b)));
                assert forall|p: (u32, u32)|
                    self.spec_dots().contains(p) implies old(self).spec_dots().contains(p)
                    || some_op_covers(a + b, p) by {
                    lemma_covers_concat(a, b, p);
                    if pre.contains(p) {
                    } else {
                        assert(some_op_covers(b, p));
                    }
                }
            }
            idx = idx + 1;
        }
        proof {
            assert(old(self).spec_shapes().take(n as int) =~= old(self).spec_shapes());
        }
    }

    /// Returns the canvas text frame as the canvas adapter serializes
    /// it; nothing is promised about its content.
    pub fn frame(&self) -> String {
        canvas_frame(&self.canvas)
    }

    /// The current y-range, in milli-units.
    pub fn y_range(&self) -> (r: (i64, i64))
        ensures
            r.0 == self.spec_ymin() && r.1 == self.spec_ymax(),
    {
        (self.ymin, self.ymax)
    }

    /// The viewport size in pixels.
    pub fn size(&self) -> (r: (u32, u32))
        ensures
            r.0 == self.spec_width() && r.1 == self.spec_height(),
    {
        (self.width, self.height)
    }
}

/// A clamped nonnegative milli-unit value at most `1000 * h` lands on a
/// pixel at most `h` when divided by 1000.
proof fn lemma_div_le_height(m: int, h: int)
    requires
        0 <= m <= 1000 * h,
        0 <= h,
    ensures
        0 <= m / 1000 <= h,
{
    vstd::arithmetic::div_mod::lemma_div_is_ordered(m, 1000 * h, 1000);
    vstd::arithmetic::div_mod::lemma_div_multiples_vanish(h, 1000);
    vstd::arithmetic::div_mod::lemma_div_pos_is_pos(m, 1000);
}


impl Chart {
    /// The text of one axis label: empty when labels are hidden, the
    /// one-decimal value otherwise.
    pub open spec fn label_text(fmt: LabelFormat, v: int) -> Seq<char> {
        match fmt {
            LabelFormat::Hidden => Seq::empty(),
            LabelFormat::Value => fixed_label(v),
        }
    }

    /// The number of y-axis tick steps: the viewport's text rows,
    /// divided by the configured rows per tick.
    pub open spec fn spec_num_steps(self) -> int {
        ((self.spec_height() / 4) / self.spec_y_tick_display().spec_row_spacing()) as int
    }

    /// The value of the `i`-th tick below the top of the y-range.
    pub open spec fn tick_value(ymin: int, ymax: int, ns: int, i: int) -> int {
        ymax - ((ymax - ymin) / ns) * i
    }

    /// The tick label texts, top to bottom.
    pub open spec fn spec_tick_labels(self) -> Seq<Seq<char>> {
        let ns = self.spec_num_steps();
        if self.spec_ymin() <= self.spec_ymax() && ns >= 1 {
            Seq::new(
                (ns - 1) as nat,
                |i: int|
                    Self::label_text(
                        self.spec_y_label_format(),
                        Self::tick_value(self.spec_ymin(), self.spec_ymax(), ns, i + 1),
                    ),
            )
        } else {
            Seq::empty()
        }
    }

    /// Renders one axis label under a format.
    fn label_of(fmt: LabelFormat, v: i64) -> (s: String)
        ensures
            s@ == Self::label_text(fmt, v as int),
    {
        match fmt {
            LabelFormat::Hidden => String::new(),
            LabelFormat::Value => format_fixed(v),
        }
    }

    /// Renders the tick label strings, top to bottom.
    fn tick_labels(&self) -> (ticks: Vec<String>)
        requires
            self.wf(),
        ensures
            label_views(ticks@) == self.spec_tick_labels(),
    {
        let mut ticks: Vec<String> = Vec::new();
        let spacing = self.y_tick_display.get_row_spacing();
        let ns = (self.height / 4) / spacing;
        if self.ymin <= self.ymax && ns >= 1 {
            let diff: i128 = (self.ymax as i128) - (self.ymin as i128);
            let step: i128 = ((diff as u128) / (ns as u128)) as i128;
            proof {
                lemma_step_bounds(diff as int, ns as int);
            }
            let mut i: u32 = 1;
            while i <= ns - 1
                invariant
                    self.wf(),
                    1 <= i <= ns,
                    ns == self.spec_num_steps(),
                    self.spec_ymin() <= self.spec_ymax(),
                    diff == self.spec_ymax() - self.spec_ymin(),
                    step as int == (diff as int) / (ns as int),
                    0 <= step <= diff,
                    label_views(ticks@) == self.spec_tick_labels().take(i as int - 1),
                decreases ns - i,
            {
                proof {
                    lemma_tick_in_range(diff as int, ns as int, i as int);
                    assert(self.spec_tick_labels().len() == ns as int - 1);
                }
                let v128: i128 = (self.ymax as i128) - step * (i as i128);
                let v: i64 = v128 as i64;
                let lab = Self::label_of(self.y_label_format, v);
                let ghost prev = ticks@;
                ticks.push(lab);
                proof {
                    assert(ticks@ == prev.push(lab));
                    assert(label_views(prev).len() == prev.len());
                    assert(label_views(prev) == self.spec_tick_labels().take(i as int - 1));
                    assert(0 <= i as int - 1 <= self.spec_tick_labels().len());
                    assert(self.spec_tick_labels().take(i as int - 1).len() == i as int - 1);
                    assert(ticks@.len() == i as int);
                    assert(v as int == Self::tick_value(
                        self.spec_ymin(),
                        self.spec_ymax(),
                        ns as int,
                        i as int,
                    ));
                    assert forall|k: int|
                        0 <= k < i as int implies #[trigger] label_views(ticks@)[k]
                        == self.spec_tick_labels()[k] by {
                        if k < i as int - 1 {
                            assert(label_views(prev)[k] == self.spec_tick_labels().take(
                                i as int - 1,
                            )[k]);
                            assert(ticks@[k] == prev[k]);
                        } else {
                            assert(ticks@[k]@ == Self::label_text(
                                self.spec_y_label_format(),
                                v as int,
                            ));
                        }
                    }
                    assert(label_views(ticks@) =~~= self.spec_tick_labels().take(i as int));
                }
                i = i + 1;
            }
            proof {
                assert(self.spec_tick_labels().take(ns as int - 1) =~~= self.spec_tick_labels());
            }
        } else {
            proof {
                assert(label_views(ticks@) =~~= self.spec_tick_labels());
            }
        }
        ticks
    }

    /// Serializes the canvas and annotates it with the chart's labels:
    /// whatever text block the canvas produced, the result is exactly
    /// that text with every plain space replaced by the Braille blank
    /// and the configured range and tick labels attached.
    pub fn render(&self) -> (out: String)
        requires
            self.wf(),
        ensures
            exists|ft: Seq<char>|
                out@ == annotate_spec(
                    blanked(ft),
                    self.spec_width(),
                    Self::label_text(self.spec_x_label_format(), self.spec_xmin()),
                    Self::label_text(self.spec_x_label_format(), self.spec_xmax()),
                    Self::label_text(self.spec_y_label_format(), self.spec_ymin()),
                    Self::label_text(self.spec_y_label_format(), self.spec_ymax()),
                    self.spec_tick_labels(),
                    self.spec_y_tick_display().spec_row_spacing() as int,
                ),
    {
        let f = canvas_frame(&self.canvas);
        let cs = str_chars(f.as_str());
        let bl = blank_frame(&cs);
        let fstr = chars_to_string(&bl);
        let xminl = Self::label_of(self.x_label_format, self.xmin);
        let xmaxl = Self::label_of(self.x_label_format, self.xmax);
        let yminl = Self::label_of(self.y_label_format, self.ymin);
        let ymaxl = Self::label_of(self.y_label_format, self.ymax);
        let spacing = self.y_tick_display.get_row_spacing();
        let ticks = self.tick_labels();
        let out = annotate_with_labels(
            fstr.as_str(),
            self.width,
            xminl.as_str(),
            xmaxl.as_str(),
            yminl.as_str(),
            ymaxl.as_str(),
            &ticks,
            spacing,
        );
        proof {
            let ft = f@;
            assert(out@ == annotate_spec(
                blanked(ft),
                self.spec_width(),
                Self::label_text(self.spec_x_label_format(), self.spec_xmin()),
                Self::label_text(self.spec_x_label_format(), self.spec_xmax()),
                Self::label_text(self.spec_y_label_format(), self.spec_ymin()),
                Self::label_text(self.spec_y_label_format(), self.spec_ymax()),
                self.spec_tick_labels(),
                self.spec_y_tick_display().spec_row_spacing() as int,
            ));
        }
        out
    }
}

/// The tick step of a nonnegative range over `ns` steps lies within
/// the range.
proof fn lemma_step_bounds(diff: int, ns: int)
    requires
        0 <= diff,
        1 <= ns,
    ensures
        0 <= diff / ns <= diff,
{
    vstd::arithmetic::div_mod::lemma_div_pos_is_pos(diff, ns);
    vstd::arithmetic::div_mod::lemma_div_nonincreasing(diff, ns);
}

/// The `i`-th tick stays within the y-range: `i` tick steps do not
/// exceed the whole range.
proof fn lemma_tick_in_range(diff: int, ns: int, i: int)
    requires
        0 <= diff,
        1 <= ns,
        0 <= i <= ns,
    ensures
        0 <= (diff / ns) * i <= diff,
{
    let step = diff / ns;
    vstd::arithmetic::div_mod::lemma_div_pos_is_pos(diff, ns);
    vstd::arithmetic::mul::lemma_mul_inequality(i, ns, step);
    vstd::arithmetic::div_mod::lemma_fundamental_div_mod(diff, ns);
    assert(ns * step <= diff);
    assert(step * i <= step * ns) by (nonlinear_arith)
        requires
            i <= ns,
            0 <= step,
    ;
    assert(step * ns == ns * step) by (nonlinear_arith);
    assert((diff / ns) * i >= 0) by (nonlinear_arith)
        requires
            0 <= diff / ns,
            0 <= i,
    ;
}


impl Default for Chart {
    /// The default chart: a 120 x 60 point viewport with x ranging
    /// from -10 to 10 (milli-units), auto-ranged in y, with everything
    /// else as a fresh chart starts it.
    fn default() -> (c: Chart)
        ensures
            c.wf(),
            c.spec_width() == 120,
            c.spec_height() == 60,
            c.spec_xmin() == -10000,
            c.spec_xmax() == 10000,
            c.spec_ymin() == i64::MAX,
            c.spec_ymax() == i64::MIN,
            c.spec_auto_range(),
            c.spec_shapes() =~= Seq::<(Shape, Option<Rgb>)>::empty(),
            c.spec_dots() =~= Set::<(u32, u32)>::empty(),
            c.spec_x_style() == LineStyle::Dotted,
            c.spec_y_style() == LineStyle::Dotted,
            c.spec_x_label_format() == LabelFormat::Value,
            c.spec_y_label_format() == LabelFormat::Value,
            c.spec_y_tick_display() == TickDisplay::Hidden,
    {
        Chart::new(120, 60, -10000, 10000)
    }
}


/// A chart whose only shape is a continuous function with a rejected
/// sample lights no dot in that sample's pixel column: together with
/// the coverage clause of [`Chart::figures`], every dot the shape adds
/// lies within the footprint of one of its drawing operations, and no
/// operation of a broken polyline touches the rejected column.
pub proof fn lemma_chart_gap_column_untouched(
    shapes: Seq<(Shape, Option<Rgb>)>,
    xs: Scale,
    ys: Scale,
    w: u32,
    h: u32,
    samples: Seq<Sample>,
    col: int,
    p: (u32, u32),
)
    requires
        shapes.len() == 1,
        shapes[0].0.is_continuous_with(samples),
        0 <= col < samples.len(),
        samples[col] is Invalid,
        some_op_covers(chart_ops(shapes, xs, ys, w, h), p),
    ensures
        p.0 != col,
{
    assert(shapes.drop_last() =~= Seq::<(Shape, Option<Rgb>)>::empty());
    let ops = crate::raster::shape_ops_spec(shapes[0].0, xs, ys, w, h);
    assert(shapes.last() == shapes[0]);
    assert(chart_ops(shapes.drop_last(), xs, ys, w, h) =~= Seq::<DrawOp>::empty());
    assert(chart_ops(shapes, xs, ys, w, h) =~= ops);
    crate::raster::lemma_rejected_column_untouched(samples, ys, w, h, col, p);
}

} // verus!
