use textplots::Scale;

#[test]
fn linear_matches_doc_example() {
    // the mapping [0, 10] -> [-1, 1], in milli-units, sends 1.0 to -0.8
    let s = Scale::new((0, 10_000), (-1_000, 1_000));
    assert_eq!(s.linear(1_000), -800);
}

#[test]
fn inv_linear_matches_doc_example() {
    let s = Scale::new((0, 10_000), (-1_000, 1_000));
    assert_eq!(s.inv_linear(100), 5_500);
}

#[test]
fn linear_clamps_out_of_domain_inputs() {
    let s = Scale::new((0, 10_000), (-1_000, 1_000));
    assert_eq!(s.linear(20_000), 1_000);
    assert_eq!(s.linear(-20_000), -1_000);
    for x in [-5_000i64, 0, 2_500, 7_777, 10_000, 15_000] {
        let r = s.linear(x);
        assert!(-1_000 <= r && r <= 1_000);
    }
}

#[test]
fn inv_linear_clamps_out_of_range_inputs() {
    let s = Scale::new((0, 10_000), (-1_000, 1_000));
    assert_eq!(s.inv_linear(2_000), 10_000);
    assert_eq!(s.inv_linear(-2_000), 0);
}

#[test]
fn round_trip_stays_within_one_domain_step() {
    let s = Scale::new((0, 10_000), (0, 120_000));
    // tolerance: (d1 - d0) / (r1 - r0) + 1 milli-units
    let tol = 10_000 / 120_000 + 1;
    for x in [0i64, 1, 777, 3_333, 9_999, 10_000] {
        let z = s.inv_linear(s.linear(x));
        assert!(z <= x && x - z <= tol);
    }
    // a coarse range: one pixel step covers many domain units
    let c = Scale::new((0, 10_000), (0, 10));
    let tol_c = 10_000 / 10 + 1;
    for x in [0i64, 123, 4_999, 5_000, 9_999, 10_000] {
        let z = c.inv_linear(c.linear(x));
        assert!(z <= x && x - z <= tol_c);
    }
}

#[test]
fn degenerate_domain_maps_to_range_start() {
    let s = Scale::new((5_000, 5_000), (0, 8_000));
    assert_eq!(s.linear(5_000), 0);
    assert_eq!(s.linear(9_000), 0);
}
