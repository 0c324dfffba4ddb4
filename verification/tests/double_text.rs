use firm_ql::value::FieldValue;

fn shown(x: f64) -> String {
    FieldValue::Float(x.to_bits()).to_text()
}

#[test]
fn doubles_are_written_as_rust_writes_them() {
    let samples = [
        0.1, 0.2, 0.3, 1.0, -1.0, 2.5, -2.5, 42.5, 100.0, 1e21, 1e22, 1e-7, 1.5e-10, 123456.789,
        0.30000000000000004, 1.0 / 3.0, 2.0 / 3.0, 1e100, 1e-100, 5e-324, f64::MAX, f64::MIN_POSITIVE,
        9007199254740993.0, 4503599627370496.0, 1024.0, 0.125, 3.14159, 2.718281828459045,
        -0.000123, 7e15, 7.5e15, 12345678901234567890.0,
    ];
    for x in samples {
        assert_eq!(shown(x), format!("{}", x), "bits {:x}", x.to_bits());
    }
}

#[test]
fn special_doubles_are_named() {
    assert_eq!(shown(f64::NAN), "NaN");
    assert_eq!(shown(f64::INFINITY), "inf");
    assert_eq!(shown(f64::NEG_INFINITY), "-inf");
    assert_eq!(shown(0.0), "0");
    assert_eq!(shown(-0.0), "-0");
}

#[test]
fn doubles_in_powers_of_two_read_back() {
    let mut x = 1.0f64;
    for _ in 0..60 {
        x *= 2.0;
        assert_eq!(shown(x), format!("{}", x));
        assert_eq!(shown(1.0 / x), format!("{}", 1.0 / x));
    }
}
