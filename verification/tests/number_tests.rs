use hel::convert::parse_decimal;
use hel::number::from_u64;
use hel::Value;

fn bits_of(literal: &str) -> u64 {
    let (mantissa, exponent) = match literal.find(|c| c == 'e' || c == 'E') {
        Some(i) => (&literal[..i], &literal[i + 1..]),
        None => (literal, ""),
    };
    let (int_part, frac_part) = match mantissa.find('.') {
        Some(i) => (&mantissa[..i], &mantissa[i + 1..]),
        None => (mantissa, ""),
    };
    let negative = exponent.starts_with('-');
    let exp_digits = exponent.trim_start_matches(|c| c == '+' || c == '-');
    parse_decimal(
        &int_part.chars().collect(),
        &frac_part.chars().collect(),
        negative,
        &exp_digits.chars().collect(),
    )
}

#[test]
fn decimal_literals_round_as_the_platform_does() {
    let literals = [
        "0.0", "0.1", "0.5", "0.7", "0.85", "0.9", "0.92", "1.0", "2.0", "7.0", "7.5", "7.8",
        "8.0", "8.2", "100.0", "1024000.0", "3.141592653589793", "2.718281828459045",
        "9007199254740993.0", "9007199254740992.5", "9007199254740994.5",
        "0.1000000000000000055511151231257827", "123456789012345678901234567890.0",
        "1.7976931348623157e308", "1.7976931348623158e308", "1.7976931348623159e308",
        "1.8e308", "2.0e308", "1.0e309", "1.0e400", "2.2250738585072014e-308",
        "2.2250738585072011e-308", "4.9e-324", "5.0e-324", "2.4703282292062327e-324",
        "2.4703282292062328e-324", "2.5e-324", "1.0e-400", "1.0e-323", "1.0e23", "8.5e22",
        "6.0221409e+23", "1.0E-7", "0.000001", "0.3", "1.5e3", "00012.5000", "0.0e999",
        "4.35", "0.000000000000000000000000000000000000000000001", "1.0e22", "1.0e21",
        "179769313486231580793728971405303415079934132710037826936173778980444968292764750946649017977587207096330286416692887910946555547851940402630657488671505820681908902000708383676273854845817711531764475730270069855571366959622842914819860834936475292719074168444365510704342711559699508093042880177904174497791.9999999999999999999999999999999999999999999999999999999999999999999999",
        "179769313486231580793728971405303415079934132710037826936173778980444968292764750946649017977587207096330286416692887910946555547851940402630657488671505820681908902000708383676273854845817711531764475730270069855571366959622842914819860834936475292719074168444365510704342711559699508093042880177904174497792.0",
    ];
    for literal in literals {
        let expected: f64 = literal.parse().unwrap();
        assert_eq!(bits_of(literal), expected.to_bits(), "literal {}", literal);
    }
}

#[test]
fn integers_widen_as_the_platform_does() {
    let values: [u64; 14] = [
        0, 1, 2, 3, 1024, 9007199254740991, 9007199254740992, 9007199254740993,
        9007199254740994, 9007199254740995, 18014398509481985, u64::MAX - 1024, u64::MAX - 1023,
        u64::MAX,
    ];
    for value in values {
        assert_eq!(from_u64(value), (value as f64).to_bits(), "value {}", value);
    }
}

fn text_of(x: f64) -> String {
    hel::render::value_to_string(&hel::Value::Number(x.to_bits()))
}

#[test]
fn numbers_are_written_as_the_platform_writes_them() {
    let values = [
        0.0, -0.0, 1.0, -1.0, 8.0, 8.2, 0.1, 0.2, 0.3, 0.5, 0.7, 0.85, 0.92, 7.5, 7.8, 100.0,
        1024000.0, 3.141592653589793, 2.718281828459045, 1e21, 1e22, 1e23, 1e-7, 1e-5, 1e-6,
        123456789.125, 9007199254740992.0, 9007199254740994.0, 1.7976931348623157e308,
        2.2250738585072014e-308, 5e-324, 1e-323, 1.5, 4.35, 0.1 + 0.2, 1.0 / 3.0, 2.0 / 3.0,
        1e15, 1e16, 1e17, 123456789012345680.0, 0.000001234, 6.02214076e23, 1.6e-19,
        f64::INFINITY, f64::NEG_INFINITY, f64::NAN, f64::MAX, f64::MIN_POSITIVE, f64::EPSILON,
        4.0e-320, 3.0e-310,
    ];
    for value in values {
        assert_eq!(text_of(value), format!("{}", value), "value {:e}", value);
    }
}

#[test]
fn many_numbers_are_written_as_the_platform_writes_them() {
    let mut state: u64 = 0x2545_f491_4f6c_dd1d;
    let mut checked = 0;
    while checked < 400 {
        state ^= state << 13;
        state ^= state >> 7;
        state ^= state << 17;
        let value = f64::from_bits(state);
        if value.is_nan() {
            continue;
        }
        assert_eq!(text_of(value), format!("{}", value), "bits {:#x}", state);
        assert_eq!(bits_of_text(&format!("{:e}", value.abs())), value.abs().to_bits());
        checked += 1;
    }
}

fn bits_of_text(text: &str) -> u64 {
    let with_point = if text.contains('.') {
        text.to_string()
    } else {
        match text.find('e') {
            Some(i) => format!("{}.0{}", &text[..i], &text[i..]),
            None => format!("{}.0", text),
        }
    };
    bits_of(&with_point)
}

#[test]
fn values_are_made_from_plain_values() {
    assert_eq!(Value::from(true), Value::Bool(true));
    assert_eq!(Value::from_bool(false), Value::Bool(false));
    assert_eq!(Value::from("abc"), Value::String("abc".to_string()));
    assert_eq!(Value::from_str("abc"), Value::String("abc".to_string()));
    assert_eq!(Value::from("abc".to_string()), Value::String("abc".to_string()));
    assert_eq!(Value::from_string("abc".to_string()), Value::String("abc".to_string()));
    assert_eq!(Value::from(7u64), Value::Number(7.0f64.to_bits()));
    assert_eq!(Value::from_u64(u64::MAX), Value::Number((u64::MAX as f64).to_bits()));
    assert_eq!(Value::from(-7i32), Value::Number((-7.0f64).to_bits()));
    assert_eq!(Value::from(0i32), Value::Number(0.0f64.to_bits()));
    assert_eq!(Value::from_i32(i32::MIN), Value::Number((i32::MIN as f64).to_bits()));
    assert_eq!(Value::from_i32(i32::MAX), Value::Number((i32::MAX as f64).to_bits()));
    assert_eq!(Value::from_bits(1.5f64.to_bits()), Value::Number(1.5f64.to_bits()));
}

fn check_powers_of_two(from: u64, to: u64) {
    // The normal powers of two, by their exponent field.
    for field in from..to {
        let below = f64::from_bits((field << 52) - 1);
        let value = f64::from_bits(field << 52);
        let above = f64::from_bits((field << 52) + 1);
        for x in [below, value, above, -value] {
            assert_eq!(text_of(x), format!("{}", x), "bits {:#x}", x.to_bits());
        }
    }
}

#[test]
fn powers_of_two_are_written_as_the_platform_writes_them_1() {
    check_powers_of_two(1, 150);
}

#[test]
fn powers_of_two_are_written_as_the_platform_writes_them_2() {
    check_powers_of_two(150, 300);
}

#[test]
fn powers_of_two_are_written_as_the_platform_writes_them_3() {
    check_powers_of_two(300, 450);
}

#[test]
fn powers_of_two_are_written_as_the_platform_writes_them_4() {
    check_powers_of_two(450, 600);
}

#[test]
fn powers_of_two_are_written_as_the_platform_writes_them_5() {
    check_powers_of_two(600, 750);
}

#[test]
fn powers_of_two_are_written_as_the_platform_writes_them_6() {
    check_powers_of_two(750, 900);
}

#[test]
fn powers_of_two_are_written_as_the_platform_writes_them_7() {
    check_powers_of_two(900, 1100);
}

#[test]
fn powers_of_two_are_written_as_the_platform_writes_them_8() {
    check_powers_of_two(1100, 1300);
}

#[test]
fn powers_of_two_are_written_as_the_platform_writes_them_9() {
    check_powers_of_two(1300, 1500);
}

#[test]
fn powers_of_two_are_written_as_the_platform_writes_them_10() {
    check_powers_of_two(1500, 1700);
}

fn check_great_powers_of_two(from: u64, to: u64) {
    for field in from..to {
        let value = f64::from_bits(field << 52);
        assert_eq!(text_of(value), format!("{}", value), "bits {:#x}", value.to_bits());
    }
}

#[test]
fn powers_of_two_are_written_as_the_platform_writes_them_11() {
    check_great_powers_of_two(1700, 1790);
}

#[test]
fn powers_of_two_are_written_as_the_platform_writes_them_12() {
    check_great_powers_of_two(1790, 1880);
}

#[test]
fn powers_of_two_are_written_as_the_platform_writes_them_13() {
    check_great_powers_of_two(1880, 1970);
}

#[test]
fn powers_of_two_are_written_as_the_platform_writes_them_14() {
    check_great_powers_of_two(1970, 2047);
}

#[test]
fn small_powers_of_two_are_written_as_the_platform_writes_them() {
    for i in 0..52 {
        let value = f64::from_bits(1u64 << i);
        assert_eq!(text_of(value), format!("{}", value), "bits {:#x}", value.to_bits());
    }
    // Two to the power -1017, whose shortest decimal is not its exact value rounded.
    let value = f64::from_bits(0x0060_0000_0000_0000);
    assert!(text_of(value).ends_with("7120236347223045"));
    assert_eq!(text_of(value), format!("{}", value));
}

#[derive(Debug)]
struct Number(f64);

fn debug_of(x: f64) -> String {
    hel::render::value_to_debug(&hel::Value::Number(x.to_bits()))
}

#[test]
fn numbers_have_the_debug_form_of_the_platform() {
    let values = [
        0.0, -0.0, 1.0, -1.0, 8.2, 0.1, 0.5, 100.0, 1024000.0, 3.141592653589793, 1e15, 9.9e15,
        9999999999999998.0, 1e16, 1.5e16, 1e17, 1e21, 1e22, 1e23, 1e-3, 1e-4, 0.00011, 9.9e-5,
        0.0001, 0.00009999999999999999, 1e-5, 1e-7, 1.5e-7, 123456789.125, 1e100, 1.2e-100,
        1.7976931348623157e308, 2.2250738585072014e-308, 5e-324, 1e-323, 6.02214076e23, 1.6e-19,
        f64::INFINITY, f64::NEG_INFINITY, f64::NAN, f64::MAX, f64::MIN_POSITIVE, f64::EPSILON,
        4.0e-320, 3.0e-310, 1e300, 2e300, 1.5e300, -2.5e-9, 1234567.0, 10.0, 1e1, 1e2,
    ];
    for value in values {
        assert_eq!(debug_of(value), format!("{:?}", Number(value)), "value {:e}", value);
    }
    let mut state: u64 = 0x9e37_79b9_7f4a_7c15;
    let mut checked = 0;
    while checked < 200 {
        state ^= state << 13;
        state ^= state >> 7;
        state ^= state << 17;
        let value = f64::from_bits(state);
        if value.is_nan() {
            continue;
        }
        assert_eq!(debug_of(value), format!("{:?}", Number(value)), "bits {:#x}", state);
        checked += 1;
    }
}

#[test]
fn values_have_their_debug_form() {
    let value = Value::List(vec![
        Value::Null,
        Value::Bool(false),
        Value::String("a\"b\n".to_string()),
        Value::Number(2.5f64.to_bits()),
        Value::List(vec![]),
        Value::Mapping(vec![
            ("k".to_string(), Value::Number(1e21f64.to_bits())),
            ("l".to_string(), Value::Mapping(vec![])),
        ]),
    ]);
    assert_eq!(
        hel::render::value_to_debug(&value),
        "List([Null, Bool(false), String(\"a\\\"b\\n\"), Number(2.5), List([]), Map({\"k\": Number(1e21), \"l\": Map({})})])"
    );
}
