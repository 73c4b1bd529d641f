use onto16::Scalar;

#[test]
fn numbers_are_numerals() {
    for text in [
        "0", "-0", "7", "10", "1203", "-45", "0.0", "-0.0", "0.9", "1.0", "3.14159", "134217810.0",
        "1e16", "1E16", "1e+16", "1e-45", "1.5e-7", "-2.5E+10", "3.4028235e38", "0e0", "0.000",
        "12345678901234567890123456789012345678901234567890",
    ] {
        let scalar = Scalar::from_text(text);
        assert!(scalar.is_some(), "{:?}", text);
        assert_eq!(scalar.unwrap().as_str(), text);
    }
}

#[test]
fn null_is_a_numeral() {
    assert_eq!(Scalar::from_text("null").unwrap().as_str(), "null");
}

#[test]
fn other_texts_are_not_numerals() {
    for text in [
        "", "-", "+", "+1", "--1", "01", "00", "-01", "1.", ".5", "-.5", "1..2", "1.2.3", "1e", "1E",
        "1e+", "1e-", "1e+-1", "1e1.5", "e5", "1.e5", "1.5e", "0x10", "1,0", "1 ", " 1", "1\n", "NaN",
        "nan", "inf", "-inf", "Infinity", "nul", "nulll", "Null", "NULL", "-null", "true", "\"1\"",
        "1}", "1]", "١", "１", "1_000", "1f", "0.9,\"links\":[]",
    ] {
        assert!(Scalar::from_text(text).is_none(), "{:?}", text);
    }
}

#[test]
fn every_float_has_a_numeral() {
    let samples: [f32; 24] = [
        0.0,
        -0.0,
        1.0,
        -1.0,
        0.9,
        0.85,
        0.85 * 1.1,
        0.1,
        1.0 / 3.0,
        16777216.0,
        134217810.0,
        1e16,
        1e-5,
        1.5e-7,
        123456.79,
        f32::MAX,
        f32::MIN,
        f32::MIN_POSITIVE,
        f32::EPSILON,
        1e-45,
        f32::NAN,
        f32::INFINITY,
        f32::NEG_INFINITY,
        0.62,
    ];
    for value in samples {
        let text = serde_json::to_string(&value).unwrap();
        let scalar = Scalar::from_text(&text);
        assert!(scalar.is_some(), "{:?}", text);
        assert_eq!(scalar.unwrap().as_str(), text);
    }
    assert_eq!(serde_json::to_string(&f32::NAN).unwrap(), "null");
    assert_eq!(serde_json::to_string(&0.9f32).unwrap(), "0.9");
    assert_eq!(serde_json::to_string(&1.0f32).unwrap(), "1.0");
}

#[test]
fn a_copy_of_a_scalar_holds_the_same_numeral() {
    let scalar = Scalar::from_text("-1.25e3").unwrap();
    let copy = scalar.clone();
    assert_eq!(copy.as_str(), "-1.25e3");
    assert_eq!(scalar.as_str(), "-1.25e3");
}
