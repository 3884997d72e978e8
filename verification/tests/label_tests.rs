use textplots::label::{annotate_with_labels, format_fixed};

#[test]
fn fixed_labels_round_to_one_decimal() {
    assert_eq!(format_fixed(0), "0.0");
    assert_eq!(format_fixed(12_345), "12.3");
    assert_eq!(format_fixed(-12_345), "-12.3");
    assert_eq!(format_fixed(999), "1.0");
    assert_eq!(format_fixed(-50), "-0.1");
    assert_eq!(format_fixed(-40), "-0.0");
    assert_eq!(format_fixed(10_000), "10.0");
    assert_eq!(format_fixed(1_250), "1.3");
}

#[test]
fn annotation_attaches_labels_to_first_and_last_line() {
    let out = annotate_with_labels("ab\ncd", 8, "0.0", "2.0", "1.0", "9.0", &vec![], 4);
    assert_eq!(out, "ab 9.0\ncd 1.0\n0.02.0\n");
}

#[test]
fn annotation_without_line_break_is_unchanged() {
    let out = annotate_with_labels("abc", 8, "0.0", "2.0", "1.0", "9.0", &vec![], 4);
    assert_eq!(out, "abc");
}

#[test]
fn annotation_places_tick_labels() {
    let ticks = vec![String::from("5.0")];
    let out = annotate_with_labels("a\nb\nc\nd", 20, "0.0", "9.9", "lo", "hi", &ticks, 2);
    assert_eq!(out, "a hi\nb\nc 5.0\nd lo\n0.0    9.9\n");
}

#[test]
fn annotation_pads_the_bottom_row_to_half_the_width() {
    let out = annotate_with_labels("x\ny", 32, "-1.0", "1.0", "a", "b", &vec![], 4);
    let last_line = "-1.0".to_string() + &" ".repeat(16 - 4 - 3) + "1.0";
    assert_eq!(out, format!("x b\ny a\n{}\n", last_line));
}
