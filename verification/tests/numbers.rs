use aklog_server::number::{EXPONENT_LIMIT, EXPONENT_MAX};
use aklog_server::{Kind, Number};

fn float(n: &Number) -> f64 {
    match n.kind() {
        Kind::NotANumber => f64::NAN,
        Kind::Infinite => {
            if n.is_negative() {
                f64::NEG_INFINITY
            } else {
                f64::INFINITY
            }
        }
        Kind::Finite => {
            let digits: String = n.digits().iter().map(|d| char::from(b'0' + d)).collect();
            let sign = if n.is_negative() { "-" } else { "" };
            format!("{}{}e{}", sign, digits, n.exponent()).parse().unwrap()
        }
    }
}

fn read(text: &str) -> Number {
    Number::parse(text).unwrap()
}

#[test]
fn reads_a_whole_number() {
    let n = read("100");
    assert_eq!(n.kind(), Kind::Finite);
    assert!(!n.is_negative());
    assert_eq!(n.digits(), &vec![1u8, 0, 0]);
    assert_eq!(n.exponent(), 0);
    assert_eq!(float(&n), 100.0);
}

#[test]
fn reads_a_fraction() {
    let n = read("0.5");
    assert_eq!(n.digits(), &vec![0u8, 5]);
    assert_eq!(n.exponent(), -1);
    assert_eq!(float(&n), 0.5);
}

#[test]
fn reads_signs() {
    assert_eq!(float(&read("+7")), 7.0);
    assert_eq!(float(&read("-3.25")), -3.25);
    assert!(read("-3.25").is_negative());
    assert!(!read("+7").is_negative());
    assert!(read("-0").is_negative());
}

#[test]
fn reads_a_point_at_either_end() {
    assert_eq!(float(&read(".5")), 0.5);
    assert_eq!(float(&read("5.")), 5.0);
    assert_eq!(read("5.").exponent(), 0);
    assert_eq!(read(".5").exponent(), -1);
}

#[test]
fn reads_exponents() {
    assert_eq!(float(&read("1.5e3")), 1500.0);
    assert_eq!(read("1.5e3").exponent(), 2);
    assert_eq!(float(&read("2E-2")), 0.02);
    assert_eq!(read("2E-2").exponent(), -2);
    assert_eq!(float(&read("4e+1")), 40.0);
    assert_eq!(float(&read("-1.25e2")), -125.0);
    assert_eq!(float(&read("1512345678.125")), 1512345678.125);
}

#[test]
fn keeps_every_digit() {
    let n = read("007.1000");
    assert_eq!(n.digits(), &vec![0u8, 0, 7, 1, 0, 0, 0]);
    assert_eq!(n.exponent(), -4);
    let long = read("0.1000000000000000055511151231257827021181583404541015625");
    assert_eq!(long.digits().len(), 56);
    assert_eq!(long.exponent(), -55);
    assert_eq!(float(&long), 0.1);
}

#[test]
fn reads_the_words() {
    assert_eq!(read("inf").kind(), Kind::Infinite);
    assert_eq!(read("Infinity").kind(), Kind::Infinite);
    assert_eq!(read("+INF").kind(), Kind::Infinite);
    assert!(!read("+INF").is_negative());
    assert_eq!(read("-infinity").kind(), Kind::Infinite);
    assert!(read("-infinity").is_negative());
    assert_eq!(read("nan").kind(), Kind::NotANumber);
    assert_eq!(read("NaN").kind(), Kind::NotANumber);
    assert_eq!(read("-nan").kind(), Kind::NotANumber);
    assert!(float(&read("NaN")).is_nan());
    assert_eq!(float(&read("-inf")), f64::NEG_INFINITY);
}

#[test]
fn refuses_what_is_no_numeral() {
    for text in [
        "", ".", "+", "-", "e5", "1e", "1e+", "1e-", "abc", " 1", "1 ", "1.2.3", "--1", "+-1",
        "0x10", "1_000", "1,5", "1e5.0", "1e 5", "in", "infinit", "infinityy", "nano", "na",
        "1f", "١٢٣", "1.e", ".e1", "+.", "1e1e1",
    ] {
        assert!(Number::parse(text).is_none(), "{:?} was read", text);
    }
}

#[test]
fn agrees_with_the_float_parser_on_what_is_a_numeral() {
    for text in [
        "0", "00", "1", "-1", "+1", "1.", ".1", "1.0", "1e0", "1E0", "1e+0", "1e-0", "1.e1",
        ".1e1", "-.5", "+5.", "inf", "nan", "infinity", "iNf", "nAn", "InFiNiTy", "", ".", "e",
        "1e", "+", "-", "+-", "1 ", " 1", "1..", "..1", "1e1.", "a", "1a", "i", "infi", ".e1",
        "1e+", "0.5", "100", "200.25", "1e400", "1e-400",
    ] {
        assert_eq!(Number::parse(text).is_some(), text.parse::<f64>().is_ok(), "{:?}", text);
    }
}

#[test]
fn holds_a_huge_exponent_at_the_limit() {
    let n = read("1e99999999999999999999999999999999999999999");
    assert_eq!(n.exponent(), EXPONENT_LIMIT);
    assert_eq!(float(&n), f64::INFINITY);
    let m = read("1.5e-99999999999999999999999999999999999999999");
    assert_eq!(m.exponent(), -EXPONENT_LIMIT - 1);
    assert_eq!(float(&m), 0.0);
    let exact = read("1e1000000000000000000000000000000");
    assert_eq!(exact.exponent(), EXPONENT_LIMIT);
    let below = read("1e999999999999999999999999999999");
    assert_eq!(below.exponent(), EXPONENT_LIMIT - 1);
}

#[test]
fn a_bound_is_outside_the_window() {
    assert!(!read("100").within(100, 200));
    assert!(!read("200").within(100, 200));
    assert!(!read("100.0").within(100, 200));
    assert!(!read("2e2").within(100, 200));
    assert!(!read("1000e-1").within(100, 200));
}

#[test]
fn just_inside_the_window_is_inside() {
    assert!(read("100.0000000000000000000000001").within(100, 200));
    assert!(read("199.9999999999999999999999999").within(100, 200));
    assert!(read("100.5").within(100, 200));
    assert!(read("150").within(100, 200));
    assert!(read("1.5e2").within(100, 200));
}

#[test]
fn outside_the_window_is_outside() {
    assert!(!read("99.9999999").within(100, 200));
    assert!(!read("200.0000001").within(100, 200));
    assert!(!read("0").within(100, 200));
    assert!(!read("-150").within(100, 200));
    assert!(!read("1e30").within(100, 200));
    assert!(!read("150").within(200, 100));
    assert!(!read("150").within(150, 150));
}

#[test]
fn words_are_in_no_window() {
    assert!(!read("inf").within(i64::MIN, i64::MAX));
    assert!(!read("-inf").within(i64::MIN, i64::MAX));
    assert!(!read("nan").within(i64::MIN, i64::MAX));
    assert!(read("inf").exceeds(i64::MAX));
    assert!(!read("inf").below(i64::MAX));
    assert!(read("-inf").below(i64::MIN));
    assert!(!read("-inf").exceeds(i64::MIN));
    assert!(!read("nan").exceeds(0));
    assert!(!read("nan").below(0));
}

#[test]
fn compares_negative_numbers() {
    assert!(read("-5.5").exceeds(-6));
    assert!(read("-5.5").below(-5));
    assert!(!read("-5.5").exceeds(-5));
    assert!(!read("-5.5").below(-6));
    assert!(!read("-5").exceeds(-5));
    assert!(!read("-5").below(-5));
    assert!(read("-5").within(-6, -4));
    assert!(read("-0.0001").below(0));
    assert!(read("-0.0001").exceeds(-1));
}

#[test]
fn compares_zero() {
    for text in ["0", "-0", "0.000", "0e50", "-0e-50", ".0"] {
        assert!(!read(text).exceeds(0), "{}", text);
        assert!(!read(text).below(0), "{}", text);
        assert!(read(text).exceeds(-1), "{}", text);
        assert!(read(text).below(1), "{}", text);
    }
}

#[test]
fn compares_at_the_ends_of_the_machine_range() {
    assert!(!read("9223372036854775807").exceeds(i64::MAX));
    assert!(!read("9223372036854775807").below(i64::MAX));
    assert!(read("9223372036854775807.5").exceeds(i64::MAX));
    assert!(read("9223372036854775808").exceeds(i64::MAX));
    assert!(read("9223372036854775806.9").below(i64::MAX));
    assert!(!read("-9223372036854775808").below(i64::MIN));
    assert!(!read("-9223372036854775808").exceeds(i64::MIN));
    assert!(read("-9223372036854775808.5").below(i64::MIN));
    assert!(read("-9223372036854775807.5").exceeds(i64::MIN));
    assert!(read("1e19").exceeds(i64::MAX));
    assert!(read("-1e19").below(i64::MIN));
    assert!(read("1e1000000").exceeds(i64::MAX));
    assert!(read("00000000000000000000000000000000000001").below(2));
}

#[test]
fn compares_tiny_numbers() {
    assert!(read("1e-400").exceeds(0));
    assert!(read("1e-400").below(1));
    assert!(read("-1e-400").below(0));
    assert!(read("-1e-400").exceeds(-1));
    assert!(read("0.00000000000000000000000000000000000000001").exceeds(0));
    assert!(read("123456e-6").below(1));
    assert!(read("1234567e-6").exceeds(1));
    assert!(read("1000000e-6").below(2));
    assert!(!read("1000000e-6").exceeds(1));
    assert!(!read("1000000e-6").below(1));
}

#[test]
fn multiplies_by_a_thousand() {
    let n = read("100").times_thousand();
    assert_eq!(n.digits(), &vec![1u8, 0, 0]);
    assert_eq!(n.exponent(), 3);
    assert_eq!(float(&n), 100000.0);
    assert_eq!(float(&read("1512345678.125").times_thousand()), 1512345678125.0);
    assert_eq!(float(&read("-0.5").times_thousand()), -500.0);
    assert_eq!(read("inf").times_thousand().kind(), Kind::Infinite);
    assert_eq!(read("nan").times_thousand().kind(), Kind::NotANumber);
}

#[test]
fn the_exponent_stops_at_its_maximum() {
    let mut n = read("1e1000000000000000000000000000000");
    assert_eq!(n.exponent(), EXPONENT_LIMIT);
    n = n.times_thousand();
    assert_eq!(n.exponent(), EXPONENT_LIMIT + 3);
    assert!(EXPONENT_MAX > EXPONENT_LIMIT);
}

#[test]
fn a_copy_is_the_same_number() {
    let n = read("-12.5e3");
    let copy = n.clone();
    assert_eq!(n, copy);
    assert_eq!(float(&copy), -12500.0);
}
