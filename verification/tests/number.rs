use stargaze::Number;

fn n(v: f64) -> Number {
    Number { bits: v.to_bits() }
}

#[test]
fn numbers_compare_as_floats_do() {
    let values = [
        f64::NAN, f64::NEG_INFINITY, -1.5, -0.0, 0.0, f64::MIN_POSITIVE / 4.0, 1.0, 90.0,
        f64::INFINITY,
    ];
    for a in values {
        assert_eq!(n(a).is_finite(), a.is_finite());
        for b in values {
            assert_eq!(n(a).less(n(b)), a < b);
            assert_eq!(n(a).at_most(n(b)), a <= b);
            assert_eq!(n(a).equals(n(b)), a == b);
            assert_eq!(n(a).total_key() < n(b).total_key(), a.total_cmp(&b).is_lt());
        }
    }
}
