use textplots::{Chart, LineStyle, Rgb, Shape, TickDisplay};

#[test]
fn construction_below_minimum_size_is_a_fatal_config_error() {
    assert!(Chart::checked_new(10, 60, -10_000, 10_000).is_none());
    assert!(Chart::checked_new(31, 60, -10_000, 10_000).is_none());
    assert!(Chart::checked_new(32, 2, -10_000, 10_000).is_none());
    assert!(Chart::checked_new(32, 3, -10_000, 10_000).is_some());
}

#[test]
fn construction_rejects_a_backwards_x_range() {
    assert!(Chart::checked_new(32, 8, 10_000, -10_000).is_none());
    assert!(Chart::checked_new(32, 8, 0, 0).is_none());
}

#[test]
fn auto_ranging_is_order_independent() {
    let a = || Shape::Points(vec![(1_000, 7_000), (2_000, -3_000)]);
    let b = || Shape::Lines(vec![(0, 1_000), (3_000, 12_000)]);
    let mut c1 = Chart::new(32, 8, 0, 10_000);
    c1.lineplot(a());
    c1.lineplot(b());
    c1.axis();
    c1.figures();
    let r1 = c1.render();
    let mut c2 = Chart::new(32, 8, 0, 10_000);
    c2.lineplot(b());
    c2.lineplot(a());
    c2.axis();
    c2.figures();
    let r2 = c2.render();
    assert_eq!(r1, r2);
}

#[test]
fn render_shows_range_labels() {
    let mut c = Chart::new_with_y_range(32, 8, 0, 10_000, 0, 5_000);
    c.figures();
    let out = c.render();
    assert!(out.ends_with('\n'));
    let lines: Vec<&str> = out.lines().collect();
    assert_eq!(lines.len(), 4);
    assert!(lines[0].ends_with(" 5.0"));
    assert!(lines[2].ends_with(" 0.0"));
    let pad = " ".repeat(16 - 3 - 4);
    assert_eq!(lines[3], format!("0.0{}10.0", pad));
}

#[test]
fn ticks_appear_at_configured_rows() {
    let mut c = Chart::new_with_y_range(64, 16, 0, 10_000, 0, 8_000);
    c.y_tick_display(TickDisplay::Dense);
    let out = c.render();
    let lines: Vec<&str> = out.lines().collect();
    // height 16, dense ticks: two steps of 4.0 each, one tick halfway
    assert!(lines[0].ends_with(" 8.0"));
    assert!(lines[2].ends_with(" 4.0"));
    assert!(lines[4].ends_with(" 0.0"));
}

#[test]
fn borders_draw_the_bounding_rectangle() {
    let mut c = Chart::new_with_y_range(32, 8, 0, 10_000, 0, 5_000);
    c.borders();
    let got = c.frame();
    let mut cv = drawille::Canvas::new(32, 8);
    for j in (0..=8).step_by(3) {
        cv.set(0, j);
        cv.set(32, j);
    }
    for i in (0..=32).step_by(3) {
        cv.set(i, 8);
        cv.set(i, 0);
    }
    assert_eq!(got, cv.frame());
}

#[test]
fn figures_draw_points_on_the_canvas() {
    let mut c = Chart::new_with_y_range(32, 8, 0, 10_000, 0, 8_000);
    c.lineplot(Shape::Points(vec![(5_000, 4_000)]));
    c.figures();
    let mut cv = drawille::Canvas::new(32, 8);
    cv.set(16, 4);
    assert_eq!(c.frame(), cv.frame());
}

#[test]
fn figures_draw_line_segments_on_the_canvas() {
    let mut c = Chart::new_with_y_range(32, 8, 0, 10_000, 0, 8_000);
    c.lineplot(Shape::Lines(vec![(0, 0), (10_000, 8_000)]));
    c.figures();
    let mut cv = drawille::Canvas::new(32, 8);
    cv.line(0, 8, 32, 0);
    assert_eq!(c.frame(), cv.frame());
}

#[test]
fn colored_shapes_light_the_same_dots_in_color() {
    let mut c = Chart::new_with_y_range(32, 8, 0, 10_000, 0, 8_000);
    c.linecolorplot(Shape::Points(vec![(5_000, 4_000)]), Rgb { r: 255, g: 0, b: 0 });
    c.figures();
    let mut cv = drawille::Canvas::new(32, 8);
    cv.set_colored(16, 4, drawille::PixelColor::TrueColor { r: 255, g: 0, b: 0 });
    assert_eq!(c.frame(), cv.frame());
}

#[test]
fn axis_lines_follow_the_configured_style() {
    let mut c = Chart::new_with_y_range(32, 8, 1_000, 10_000, -1_000, 1_000);
    c.x_axis_style(LineStyle::Solid);
    c.y_axis_style(LineStyle::Hidden);
    c.axis();
    // y = 0 sits halfway up: linear(0) = 4000 milli-pixels, row 8 - 4
    let mut cv = drawille::Canvas::new(32, 8);
    for i in 0..=32 {
        cv.set(i, 4);
    }
    assert_eq!(c.frame(), cv.frame());
}

#[test]
fn hidden_axes_draw_nothing() {
    let mut c = Chart::new_with_y_range(32, 8, 0, 10_000, -1_000, 1_000);
    c.x_axis_style(LineStyle::Hidden);
    c.y_axis_style(LineStyle::Hidden);
    c.axis();
    let cv = drawille::Canvas::new(32, 8);
    assert_eq!(c.frame(), cv.frame());
}

#[test]
fn auto_range_follows_registered_shapes() {
    // only in-domain samples count: y = 9000 sits at x outside the chart
    let mut c = Chart::new(32, 8, 0, 4_000);
    c.lineplot(Shape::Points(vec![(1_000, 2_000), (9_000, 9_000)]));
    c.figures();
    let out = c.render();
    let lines: Vec<&str> = out.lines().collect();
    assert!(lines[0].ends_with(" 2.0"));
    assert!(lines[2].ends_with(" 2.0"));
}

#[test]
fn a_shape_without_in_domain_samples_pulls_the_range_to_zero() {
    let mut c = Chart::new(32, 8, 0, 4_000);
    c.lineplot(Shape::Points(vec![(9_000, 9_000)]));
    let out = c.render();
    let lines: Vec<&str> = out.lines().collect();
    assert!(lines[0].ends_with(" 0.0"));
    assert!(lines[2].ends_with(" 0.0"));
}

#[test]
fn default_viewport_is_120_by_60_over_minus_ten_to_ten() {
    let c = Chart::default();
    let out = c.render();
    let last = out.lines().last().unwrap();
    assert!(last.starts_with("-10.0"));
    assert!(last.ends_with("10.0"));
    assert_eq!(last.len(), 60);
}

#[test]
fn tick_density_rounds_the_height_up() {
    // height 17 is no multiple of 16: sparse ticks round it up to 32,
    // and the borders then reach the grown viewport
    let mut c = Chart::new_with_y_range(32, 17, 0, 10_000, 0, 8_000);
    c.y_tick_display(TickDisplay::Sparse);
    c.borders();
    let out = c.render();
    let lines: Vec<&str> = out.lines().collect();
    // 32 pixel rows make 9 text rows, plus the bottom label row
    assert_eq!(lines.len(), 10);
    // one tick halfway between the two range labels
    assert!(lines[4].ends_with(" 4.0"));
}

#[test]
fn tick_density_row_spacing() {
    assert_eq!(TickDisplay::Sparse.get_row_spacing(), 4);
    assert_eq!(TickDisplay::Dense.get_row_spacing(), 2);
    assert_eq!(TickDisplay::Hidden.get_row_spacing(), u32::MAX);
}

#[test]
fn colored_lines_light_the_same_dots_in_color() {
    let mut c = Chart::new_with_y_range(32, 8, 0, 10_000, 0, 8_000);
    c.linecolorplot(Shape::Lines(vec![(0, 0), (10_000, 8_000)]), Rgb { r: 0, g: 255, b: 0 });
    c.figures();
    let mut cv = drawille::Canvas::new(32, 8);
    cv.line_colored(0, 8, 32, 0, drawille::PixelColor::TrueColor { r: 0, g: 255, b: 0 });
    assert_eq!(c.frame(), cv.frame());
}
