use map_drawer::number::truncate;

fn agrees(v: f64) {
    assert_eq!(truncate(v.to_bits()), v as u32, "for {:?}", v);
}

#[test]
fn truncate_cuts_off_the_digits_behind_the_point() {
    assert_eq!(truncate(100.7f64.to_bits()), 100);
    assert_eq!(truncate(1.0f64.to_bits()), 1);
    assert_eq!(truncate(1.999999f64.to_bits()), 1);
    assert_eq!(truncate(0.999999f64.to_bits()), 0);
    assert_eq!(truncate(4294967295.5f64.to_bits()), 4294967295);
    assert_eq!(truncate(2147483648.0f64.to_bits()), 2147483648);
}

#[test]
fn truncate_holds_the_result_in_range() {
    assert_eq!(truncate(4294967296.0f64.to_bits()), u32::MAX);
    assert_eq!(truncate(1e300f64.to_bits()), u32::MAX);
    assert_eq!(truncate(f64::INFINITY.to_bits()), u32::MAX);
    assert_eq!(truncate(f64::NEG_INFINITY.to_bits()), 0);
    assert_eq!(truncate((-3.5f64).to_bits()), 0);
    assert_eq!(truncate((-0.0f64).to_bits()), 0);
    assert_eq!(truncate(f64::NAN.to_bits()), 0);
    assert_eq!(truncate(0), 0);
    assert_eq!(truncate(1), 0);
}

#[test]
fn truncate_agrees_with_the_cast() {
    let mut v = 0.001f64;
    while v < 1e11 {
        agrees(v);
        agrees(-v);
        agrees(v.floor());
        agrees(v.floor() + 0.5);
        v *= 1.37;
    }
    agrees(f64::MIN_POSITIVE);
    agrees(f64::MAX);
    agrees(f64::EPSILON);
    agrees(4294967295.0);
    agrees(4294967295.999);
    agrees(4294967296.0);
}
