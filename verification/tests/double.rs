use kraken_execution::Double;

fn d(x: f64) -> Double {
    Double::from_bits(x.to_bits())
}

#[test]
fn arithmetic_agrees_with_the_machine() {
    let xs: Vec<f64> = vec![
        0.0, -0.0, 1.0, -1.0, 0.1, 0.2, 0.3, 1.0 / 3.0, 1e308, -1e308, 1e-308, 5e-324, 2.5e-320, 123456.789,
        f64::INFINITY, f64::NEG_INFINITY, f64::NAN, 4503599627370496.5, 9007199254740993.0, 0.5, -0.5, 1.5, -2.5,
        f64::MAX, f64::MIN_POSITIVE,
    ];
    for &x in &xs {
        let fl = x.floor();
        let mine = d(x).floor();
        assert!(mine.to_bits() == fl.to_bits() || x.is_nan(), "floor {}", x);
        for &y in &xs {
            for (mine, want, op) in [
                (d(x).plus(d(y)), x + y, "+"),
                (d(x).minus(d(y)), x - y, "-"),
                (d(x).times(d(y)), x * y, "*"),
                (d(x).over(d(y)), x / y, "/"),
            ] {
                if want.is_nan() {
                    assert!(f64::from_bits(mine.to_bits()).is_nan(), "{} {} {}", x, op, y);
                } else {
                    assert_eq!(mine.to_bits(), want.to_bits(), "{} {} {}", x, op, y);
                }
            }
            assert_eq!(d(x).lt(d(y)), x < y, "{} < {}", x, y);
            assert_eq!(d(x).le(d(y)), x <= y, "{} <= {}", x, y);
        }
    }
}

#[test]
fn powers_of_ten_agree_with_the_machine() {
    for n in 0..40u32 {
        assert_eq!(Double::power_of_ten(n).to_bits(), 10f64.powi(n as i32).to_bits());
        assert_eq!(
            Double::power_of_ten(0u32.wrapping_sub(n)).to_bits(),
            10f64.powi(-(n as i32)).to_bits()
        );
    }
}
