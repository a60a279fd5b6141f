use tree_edit::{NumberType, Value};

fn number(kind: NumberType, text: &str) -> Value {
    Value::of_number(kind, text.chars().collect())
}

#[test]
fn check_u8_range() {
    assert!(number(NumberType::U8, "7").check());
    assert!(number(NumberType::U8, "255").check());
    assert!(number(NumberType::U8, "+255").check());
    assert!(!number(NumberType::U8, "256").check());
    assert!(!number(NumberType::U8, "-1").check());
    assert!(!number(NumberType::U8, "").check());
    assert!(!number(NumberType::U8, "+").check());
    assert!(!number(NumberType::U8, "1x").check());
    assert!(!number(NumberType::U8, "x").check());
}

#[test]
fn check_i32_range() {
    assert!(number(NumberType::I32, "2147483647").check());
    assert!(!number(NumberType::I32, "2147483648").check());
    assert!(number(NumberType::I32, "-2147483648").check());
    assert!(!number(NumberType::I32, "-2147483649").check());
    assert!(!number(NumberType::I32, "3.14").check());
    assert!(!number(NumberType::I32, "-").check());
}

#[test]
fn check_u64_and_i64_range() {
    assert!(number(NumberType::U64, "18446744073709551615").check());
    assert!(!number(NumberType::U64, "18446744073709551616").check());
    assert!(number(NumberType::I64, "9223372036854775807").check());
    assert!(!number(NumberType::I64, "9223372036854775808").check());
    assert!(number(NumberType::I64, "-9223372036854775808").check());
    assert!(!number(NumberType::I64, "-9223372036854775809").check());
}

#[test]
fn check_floats_follow_parse_syntax() {
    assert!(number(NumberType::F64, "3.14").check());
    assert!(number(NumberType::F32, "3.14").check());
    assert!(number(NumberType::F64, "-0.5").check());
    assert!(number(NumberType::F64, ".5").check());
    assert!(number(NumberType::F64, "1.").check());
    assert!(number(NumberType::F64, "1e5").check());
    assert!(number(NumberType::F64, "1.e5").check());
    assert!(number(NumberType::F64, "2.5E-3").check());
    assert!(number(NumberType::F64, "inf").check());
    assert!(number(NumberType::F64, "-iNf").check());
    assert!(number(NumberType::F64, "Infinity").check());
    assert!(number(NumberType::F64, "NaN").check());
    // syntactically valid even when huge: overflow parses as infinity
    assert!(number(NumberType::F64, "1e999").check());
    assert!(!number(NumberType::F64, ".").check());
    assert!(!number(NumberType::F64, "e5").check());
    assert!(!number(NumberType::F64, "1e").check());
    assert!(!number(NumberType::F64, "1e+").check());
    assert!(!number(NumberType::F64, "1.2.3").check());
    assert!(!number(NumberType::F64, "in").check());
    assert!(!number(NumberType::F64, "").check());
}

#[test]
fn check_reference_against_std_parse() {
    // the library's validity test agrees with the standard parse on a
    // sweep of inputs, integer and float alike
    let samples = [
        "", "0", "7", "42", "+42", "-42", "007", "255", "256", "-0", "+0", "1x", "x", "+", "-",
        "3.14", "-3.14", ".5", "1.", "1.e5", "1e5", "1e", "1e+", "inf", "INFINITY", "nan", ".",
        "127", "128", "-128", "-129", "65535", "65536", "18446744073709551615",
        "18446744073709551616", "1e999", " 1", "1 ",
    ];
    for s in samples {
        assert_eq!(
            number(NumberType::U8, s).check(),
            s.parse::<u8>().is_ok(),
            "u8 {:?}",
            s
        );
        assert_eq!(
            number(NumberType::I8, s).check(),
            s.parse::<i8>().is_ok(),
            "i8 {:?}",
            s
        );
        assert_eq!(
            number(NumberType::U16, s).check(),
            s.parse::<u16>().is_ok(),
            "u16 {:?}",
            s
        );
        assert_eq!(
            number(NumberType::I16, s).check(),
            s.parse::<i16>().is_ok(),
            "i16 {:?}",
            s
        );
        assert_eq!(
            number(NumberType::U32, s).check(),
            s.parse::<u32>().is_ok(),
            "u32 {:?}",
            s
        );
        assert_eq!(
            number(NumberType::I32, s).check(),
            s.parse::<i32>().is_ok(),
            "i32 {:?}",
            s
        );
        assert_eq!(
            number(NumberType::U64, s).check(),
            s.parse::<u64>().is_ok(),
            "u64 {:?}",
            s
        );
        assert_eq!(
            number(NumberType::I64, s).check(),
            s.parse::<i64>().is_ok(),
            "i64 {:?}",
            s
        );
        assert_eq!(
            number(NumberType::Usize, s).check(),
            s.parse::<usize>().is_ok(),
            "usize {:?}",
            s
        );
        assert_eq!(
            number(NumberType::Isize, s).check(),
            s.parse::<isize>().is_ok(),
            "isize {:?}",
            s
        );
        assert_eq!(
            number(NumberType::F32, s).check(),
            s.parse::<f32>().is_ok(),
            "f32 {:?}",
            s
        );
        assert_eq!(
            number(NumberType::F64, s).check(),
            s.parse::<f64>().is_ok(),
            "f64 {:?}",
            s
        );
    }
}

#[test]
fn check_strings_and_bools_always_valid() {
    assert!(Value::of_str("anything at all").check());
    assert!(Value::of_char('q').check());
    assert!(Value::of_bool(false).check());
    assert!(Value::of_bool(true).check());
}

#[test]
fn numeric_constructors_render_decimal() {
    let cases: Vec<(Value, &str)> = vec![
        (Value::of_u8(0), "0"),
        (Value::of_u8(255), "255"),
        (Value::of_i8(-128), "-128"),
        (Value::of_i32(-42), "-42"),
        (Value::of_u64(18446744073709551615), "18446744073709551615"),
        (Value::of_i64(i64::MIN), "-9223372036854775808"),
        (Value::of_usize(10), "10"),
        (Value::of_isize(-7), "-7"),
    ];
    for (v, want) in cases {
        let text: String = v.as_text().unwrap().text_chars().into_iter().collect();
        assert_eq!(text, want);
        assert!(v.check());
    }
}
