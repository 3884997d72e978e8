use textplots::raster::shape_ops;
use textplots::{DrawOp, Sample, Scale, Shape};

fn test_scales() -> (Scale, Scale) {
    // both scales map milli-values directly onto milli-pixels
    let xs = Scale::new((0, 40_000), (0, 40_000));
    let ys = Scale::new((0, 10_000), (0, 10_000));
    (xs, ys)
}

#[test]
fn steps_draw_one_unit_per_pair() {
    let (xs, ys) = test_scales();
    let pts = vec![(2_000, 2_000), (5_000, 4_000), (9_000, 1_000), (12_000, 3_000)];
    let n = pts.len();
    let ops = shape_ops(&Shape::Steps(pts), &xs, &ys, 40, 10);
    // vertices: (2,8), (5,6), (9,9), (12,7); one horizontal and one
    // vertical segment per consecutive pair: exactly n - 1 step units
    assert_eq!(ops.len(), 2 * (n - 1));
    assert_eq!(
        ops,
        vec![
            DrawOp::Segment(2, 8, 5, 8),
            DrawOp::Segment(2, 8, 2, 6),
            DrawOp::Segment(5, 6, 9, 6),
            DrawOp::Segment(5, 6, 5, 9),
            DrawOp::Segment(9, 9, 12, 9),
            DrawOp::Segment(9, 9, 9, 7),
        ]
    );
    // the final point (12, 7) is never an endpoint of any segment
    for op in &ops {
        match *op {
            DrawOp::Segment(x1, y1, x2, y2) => {
                assert!((x1, y1) != (12, 7) && (x2, y2) != (12, 7));
            }
            DrawOp::Dot(..) => panic!("steps draw no standalone dots"),
        }
    }
}

#[test]
fn bars_add_two_drops_per_pair() {
    let (xs, ys) = test_scales();
    let pts = vec![(2_000, 2_000), (5_000, 4_000), (9_000, 1_000)];
    let n = pts.len();
    let ops = shape_ops(&Shape::Bars(pts), &xs, &ys, 40, 10);
    assert_eq!(ops.len(), 4 * (n - 1));
    assert_eq!(
        ops,
        vec![
            DrawOp::Segment(2, 8, 5, 8),
            DrawOp::Segment(2, 8, 2, 6),
            DrawOp::Segment(2, 8, 2, 10),
            DrawOp::Segment(5, 6, 5, 10),
            DrawOp::Segment(5, 6, 9, 6),
            DrawOp::Segment(5, 6, 5, 9),
            DrawOp::Segment(5, 6, 5, 10),
            DrawOp::Segment(9, 9, 9, 10),
        ]
    );
}

#[test]
fn lines_connect_adjacent_accepted_points() {
    let (xs, ys) = test_scales();
    let pts = vec![(2_000, 2_000), (5_000, 4_000), (9_000, 1_000)];
    let ops = shape_ops(&Shape::Lines(pts), &xs, &ys, 40, 10);
    assert_eq!(ops, vec![DrawOp::Segment(2, 8, 5, 6), DrawOp::Segment(5, 6, 9, 9)]);
}

#[test]
fn dropped_sample_breaks_the_polyline() {
    let (xs, ys) = test_scales();
    // the middle point maps above the viewport and is dropped, not
    // clamped; no segment crosses it
    let pts = vec![(2_000, 2_000), (5_000, 20_000), (9_000, 1_000)];
    let ops = shape_ops(&Shape::Lines(pts.clone()), &xs, &ys, 40, 10);
    assert!(ops.is_empty());
    let dots = shape_ops(&Shape::Points(pts), &xs, &ys, 40, 10);
    assert_eq!(dots, vec![DrawOp::Dot(2, 8), DrawOp::Dot(9, 9)]);
}

#[test]
fn rejected_sample_leaves_its_column_empty() {
    let (xs, ys) = test_scales();
    let samples = vec![
        Sample::Normal(2_000),
        Sample::Normal(3_000),
        Sample::Invalid,
        Sample::Normal(5_000),
        Sample::Normal(6_000),
    ];
    let ops = shape_ops(&Shape::Continuous(samples), &xs, &ys, 40, 10);
    assert_eq!(ops, vec![DrawOp::Segment(0, 8, 1, 7), DrawOp::Segment(3, 5, 4, 4)]);
    for op in &ops {
        match *op {
            DrawOp::Segment(x1, _, x2, _) => {
                assert_ne!(x1, 2);
                assert_ne!(x2, 2);
                assert_eq!(x2, x1 + 1);
            }
            DrawOp::Dot(..) => panic!("a continuous plot draws no standalone dots"),
        }
    }
}

#[test]
fn zero_samples_are_drawn_on_the_floor() {
    let (xs, ys) = test_scales();
    let samples = vec![Sample::Zero, Sample::Zero];
    let ops = shape_ops(&Shape::Continuous(samples), &xs, &ys, 40, 10);
    assert_eq!(ops, vec![DrawOp::Segment(0, 10, 1, 10)]);
}

#[test]
fn singular_column_stays_empty() {
    // f(x) = sin(x) / x over [-2, 2]: the sample at x = 0 is NaN,
    // rejected, and its pixel column receives no segment at all
    let w = 32u32;
    let xs = Scale::new((-2_000, 2_000), (0, 32_000));
    let mut samples = Vec::new();
    for i in 0..w {
        let xm = xs.inv_linear((i * 1_000) as i64);
        let x = xm as f64 / 1000.0;
        let y = x.sin() / x;
        samples.push(if y.is_normal() {
            Sample::Normal((y * 1000.0).round() as i64)
        } else if y == 0.0 {
            Sample::Zero
        } else {
            Sample::Invalid
        });
    }
    assert!(matches!(samples[16], Sample::Invalid));
    let ys = Scale::new((-300, 1_000), (0, 8_000));
    let ops = shape_ops(&Shape::Continuous(samples), &xs, &ys, w, 8);
    assert!(!ops.is_empty());
    for op in &ops {
        match *op {
            DrawOp::Segment(x1, _, x2, _) => {
                assert_ne!(x1, 16);
                assert_ne!(x2, 16);
                assert_eq!(x2, x1 + 1);
            }
            DrawOp::Dot(..) => panic!("a continuous plot draws no standalone dots"),
        }
    }
}

#[test]
fn steps_connect_across_dropped_samples() {
    // unlike a polyline, the step chain keeps going over a dropped
    // sample: the accepted vertices stay paired up in order
    let (xs, ys) = test_scales();
    let pts = vec![(2_000, 2_000), (5_000, 20_000), (9_000, 1_000)];
    let ops = shape_ops(&Shape::Steps(pts), &xs, &ys, 40, 10);
    assert_eq!(ops, vec![DrawOp::Segment(2, 8, 9, 8), DrawOp::Segment(2, 8, 2, 9)]);
}
