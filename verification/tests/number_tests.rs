use yvm::Number;
use yvm::NumberParseErr;
use yvm::RuntimeErr;

fn render(n: Number) -> Vec<u8> {
    n.stringify().data
}

fn parse(s: &str) -> Result<Number, NumberParseErr> {
    Number::from_str(s)
}

#[test]
fn stringify_drops_trailing_fraction_zeros() {
    assert_eq!(render(parse("1.500").unwrap()), b"1.5".to_vec());
}

#[test]
fn stringify_drops_whole_fraction() {
    assert_eq!(render(parse("-2.000").unwrap()), b"-2".to_vec());
}

#[test]
fn stringify_keeps_leading_fraction_zeros() {
    assert_eq!(render(parse("0.001").unwrap()), b"0.001".to_vec());
}

#[test]
fn stringify_simple_values() {
    assert_eq!(render(Number(0)), b"0".to_vec());
    assert_eq!(render(Number(1000)), b"1".to_vec());
    assert_eq!(render(Number(-1500)), b"-1.5".to_vec());
    assert_eq!(render(Number(12034)), b"12.034".to_vec());
    assert_eq!(render(Number(120)), b"0.12".to_vec());
}

#[test]
fn stringify_signs_fraction_only_negatives() {
    // the sign follows the value, even when the whole part is zero
    assert_eq!(render(Number(-500)), b"-0.5".to_vec());
    assert_eq!(render(Number(-1)), b"-0.001".to_vec());
    assert_eq!(render(Number(-999)), b"-0.999".to_vec());
}

#[test]
fn round_trip_concrete_values() {
    for raw in [
        0i64,
        1,
        999,
        1000,
        1500,
        -1,
        -500,
        -999,
        -1000,
        -1500,
        -123456789,
        i64::MAX,
        i64::MIN,
        123456789012345678,
    ] {
        let n = Number(raw);
        let s = String::from_utf8(render(n)).unwrap();
        assert_eq!(parse(&s), Ok(n), "round trip of {raw} via {s:?}");
    }
}

#[test]
fn parse_plain_and_fractional() {
    assert_eq!(parse("1"), Ok(Number(1000)));
    assert_eq!(parse("1.5"), Ok(Number(1500)));
    assert_eq!(parse("-1.5"), Ok(Number(-1500)));
    assert_eq!(parse("0.001"), Ok(Number(1)));
    assert_eq!(parse(".5"), Ok(Number(500)));
    assert_eq!(parse("1."), Ok(Number(1000)));
    assert_eq!(parse("-"), Ok(Number(0)));
    assert_eq!(parse("-0.5"), Ok(Number(-500)));
}

#[test]
fn parse_ignores_fraction_digits_beyond_three() {
    assert_eq!(parse("1.5009"), Ok(Number(1500)));
    assert_eq!(parse("1.500xyz"), Ok(Number(1500)));
}

#[test]
fn parse_reports_unknown_characters() {
    assert_eq!(parse("12a"), Err(NumberParseErr::UnknownChar('a')));
    assert_eq!(parse("1.5a"), Err(NumberParseErr::UnknownChar('a')));
    assert_eq!(parse("1.2.3"), Err(NumberParseErr::UnknownChar('.')));
}

#[test]
fn parse_reports_overflow() {
    assert_eq!(parse("99999999999999999999"), Err(NumberParseErr::Overflow));
    assert_eq!(parse("9223372036854775808"), Err(NumberParseErr::Overflow));
}

#[test]
fn parse_extremes() {
    assert_eq!(parse("9223372036854775.807"), Ok(Number(i64::MAX)));
    assert_eq!(parse("-9223372036854775.808"), Ok(Number(i64::MIN)));
}

#[test]
fn division_by_zero_is_a_typed_error() {
    for raw in [0i64, 1, -1, 1000, i64::MAX, i64::MIN] {
        assert_eq!(Number(raw).div(Number(0)), Err(RuntimeErr::DivZero));
        assert_eq!(Number(raw).rem(Number(0)), Err(RuntimeErr::ModZero));
        let mut n = Number(raw);
        assert_eq!(n.div_assign(Number(0)), Err(RuntimeErr::DivZero));
        assert_eq!(n, Number(raw));
        assert_eq!(n.rem_assign(Number(0)), Err(RuntimeErr::ModZero));
        assert_eq!(n, Number(raw));
    }
}

#[test]
fn division_keeps_the_scale() {
    assert_eq!(Number(10000).div(Number(4000)), Ok(Number(2500)));
    assert_eq!(Number(1000).div(Number(3000)), Ok(Number(333)));
    assert_eq!(Number(-1000).div(Number(3000)), Ok(Number(-333)));
}

#[test]
fn modulo_works_on_raw_representations() {
    assert_eq!(Number(5000).rem(Number(3000)), Ok(Number(2000)));
    assert_eq!(Number(-5000).rem(Number(3000)), Ok(Number(-2000)));
    assert_eq!(Number(i64::MIN).rem(Number(-1)), Ok(Number(0)));
}

#[test]
fn wrapping_arithmetic_never_panics() {
    let extremes = [i64::MIN, -1, 0, 1, i64::MAX];
    for &a in &extremes {
        for &b in &extremes {
            let _ = Number(a).add(Number(b));
            let _ = Number(a).sub(Number(b));
            let _ = Number(a).mul(Number(b));
        }
        let _ = Number(a).neg();
        let _ = Number(a).abs();
    }
    assert_eq!(Number(i64::MAX).add(Number(1)), Number(i64::MIN));
    assert_eq!(Number(i64::MIN).sub(Number(1)), Number(i64::MAX));
    assert_eq!(Number(i64::MIN).neg(), Number(i64::MIN));
    assert_eq!(Number(i64::MIN).abs(), Number(i64::MIN));
}

#[test]
fn multiplication_scales_back_down() {
    assert_eq!(Number(1500).mul(Number(2000)), Number(3000));
    assert_eq!(Number(1500).mul(Number(1500)), Number(2250));
    assert_eq!(Number(-1500).mul(Number(2000)), Number(-3000));
}

#[test]
fn factorial_of_whole_part() {
    assert_eq!(Number(0).fact(), Number(1000));
    assert_eq!(Number(4000).fact(), Number(24000));
    assert_eq!(Number(4500).fact(), Number(24000));
    assert_eq!(Number(-1).fact(), Number(i64::MIN));
}

#[test]
fn increment_decrement_and_truthiness() {
    let mut n = Number(500);
    n.pre_inc();
    assert_eq!(n, Number(1500));
    n.pre_dec();
    assert_eq!(n, Number(500));
    assert!(Number(1).as_bool());
    assert!(!Number(0).as_bool());
    assert_eq!(Number(0).not(), Number(1000));
    assert_eq!(Number(77).not(), Number(0));
}

#[test]
fn sqrt_domain_guard() {
    assert!(Number(-1).sqrt_out_of_domain());
    assert!(Number(i64::MIN).sqrt_out_of_domain());
    assert!(Number(9223372036854775000).sqrt_out_of_domain());
    assert!(!Number(4000).sqrt_out_of_domain());
    assert!(!Number(0).sqrt_out_of_domain());
}

#[test]
fn parse_error_messages() {
    assert_eq!(
        NumberParseErr::Overflow.message().data,
        b"Number can't fit in i64".to_vec()
    );
    assert_eq!(
        NumberParseErr::UnknownChar('a').message().data,
        b"Found unknown char 'a'".to_vec()
    );
    // a two-byte character is carried through in its UTF-8 encoding
    let msg = NumberParseErr::UnknownChar('\u{e9}').message().data;
    let mut expected = b"Found unknown char '".to_vec();
    expected.push(0xC3);
    expected.push(0xA9);
    expected.push(b'\'');
    assert_eq!(msg, expected);
}

#[test]
fn error_messages() {
    assert_eq!(RuntimeErr::DivZero.message().data, b"division by zero".to_vec());
    assert_eq!(RuntimeErr::ModZero.message().data, b"mod by zero".to_vec());
    assert_eq!(RuntimeErr::EmptyStr.message().data, b"string was empty".to_vec());
}
