use kraken_execution::{parse_double, Double};

fn d(x: f64) -> Double {
    Double::from_bits(x.to_bits())
}

#[test]
fn fixed_notation_agrees_with_format() {
    let xs = [
        0.0, -0.0, 0.5, 1.5, 2.5, -0.001, 0.125, 0.375, 1e-9, 0.00001234, 123456.789, 30000.1, 1e22, 1.7976931348623157e308,
        5e-324, 0.1, 0.3, 99999.999995, 0.000015, f64::INFINITY, f64::NEG_INFINITY, f64::NAN, 1e15, 0.045,
    ];
    for x in xs {
        for places in [0u32, 1, 2, 5, 8, 10, 20] {
            let mine = d(x).to_fixed(places);
            let want = format!("{:.*}", places as usize, x);
            assert_eq!(mine, want, "{} with {}", x, places);
        }
    }
}

#[test]
fn reading_agrees_with_parse() {
    let texts = [
        "0", "1", "-1", "+1", "0.0001", "30000.10000", "1e5", "1E5", "1e+5", "1e-5", ".5", "5.", ".", "", "-", "+", "e5", "1e",
        "1e+", "inf", "-inf", "Infinity", "iNf", "+INFINITY", "infinit", "1.7976931348623157e308", "1.7976931348623159e308",
        "1e309", "1e-400", "1e99999999999999999999999999999999999999", "1e-99999999999999999999999999999999999999", "5e-324",
        "2.4703282292062327e-324", "2.4703282292062328e-324", "0.1", "0.2", "0.3", "123456789012345678901234567890",
        "9007199254740993", "0e999999", " 1", "1 ", "1_0", "--1", "0x10", "1.2.3", "0.00000000000000000000000000000001e40",
        "100000000000000000000000000000000000000000000000000e-60", "\u{661}", "1e5x", "00012.500",
    ];
    for t in texts {
        let mine = parse_double(t).map(|x| x.to_bits());
        let want = t.parse::<f64>().ok().map(|x| x.to_bits());
        assert_eq!(mine, want, "{:?}", t);
    }
    for t in ["nan", "NaN", "-nan"] {
        assert!(f64::from_bits(parse_double(t).unwrap().to_bits()).is_nan());
        assert!(t.parse::<f64>().unwrap().is_nan());
    }
}
