use lox::number::Number;

fn num(text: &str) -> Number {
    let (int_part, frac) = match text.split_once('.') {
        Some((i, f)) => (i, f),
        None => (text, ""),
    };
    let negative = int_part.starts_with('-');
    let digits: Vec<char> = int_part.trim_start_matches('-').chars().chain(frac.chars()).collect();
    let n = Number::from_digits(&digits, frac.chars().count());
    if negative {
        n.neg()
    } else {
        n
    }
}

#[test]
fn number_text_has_a_fraction_digit() {
    assert_eq!(num("4").to_text(), "4.0");
    assert_eq!(num("-2.5").to_text(), "-2.5");
    assert_eq!(num("0").to_text(), "0.0");
    assert_eq!(num("1.2500").to_text(), "1.25");
    assert_eq!(num("0.007").to_text(), "0.007");
    assert_eq!(num("-0").to_text(), "0.0");
}

#[test]
fn result_text_drops_point_zero() {
    assert_eq!(num("4").to_result_text(), "4");
    assert_eq!(num("-12").to_result_text(), "-12");
    assert_eq!(num("1.5").to_result_text(), "1.5");
    assert_eq!(num("3.000").to_result_text(), "3");
}

#[test]
fn arithmetic_is_exact() {
    assert_eq!(num("0.1").add(&num("0.2")).to_text(), "0.3");
    assert_eq!(num("0.1").sub(&num("0.2")).to_text(), "-0.1");
    assert_eq!(num("1.5").mul(&num("-2")).to_text(), "-3.0");
    assert_eq!(num("5").neg().to_text(), "-5.0");
    assert_eq!(num("-7").add(&num("10")).to_text(), "3.0");
}

#[test]
fn division_keeps_sixteen_fraction_digits() {
    assert_eq!(num("1").div(&num("-3")).to_text(), "-0.3333333333333333");
    assert_eq!(num("1").div(&num("4")).to_text(), "0.25");
    assert_eq!(num("10").div(&num("2")).to_result_text(), "5");
    assert_eq!(num("0.5").div(&num("0.25")).to_result_text(), "2");
}

#[test]
fn large_values_never_overflow() {
    let big = num("99999999999999999999");
    assert_eq!(big.mul(&big).to_result_text(), "9999999999999999999800000000000000000001");
    assert_eq!(num("9223372036854775807").add(&num("1")).to_result_text(), "9223372036854775808");
    let min = num("-9223372036854775808");
    assert_eq!(min.neg().to_result_text(), "9223372036854775808");
    assert_eq!(min.sub(&num("1")).to_result_text(), "-9223372036854775809");
}

#[test]
fn comparisons_by_value() {
    assert!(num("0.5").equals(&num("0.50")));
    assert!(!num("0.5").lt(&num("0.50")));
    assert!(num("-0.3333").lt(&num("0.5")));
    assert!(num("2").lt(&num("10")));
    assert!(num("-0").equals(&num("0")));
    assert!(num("0").is_zero());
}

#[test]
fn digits_to_number() {
    let digits: Vec<char> = "12345".chars().collect();
    assert_eq!(Number::from_digits(&digits, 2).to_text(), "123.45");
    assert_eq!(Number::from_digits(&digits, 0).to_text(), "12345.0");
    assert_eq!(Number::from_digits(&digits, 7).to_text(), "0.0012345");
    let long: Vec<char> = "1".repeat(40).chars().collect();
    assert_eq!(Number::from_digits(&long, 0).to_result_text(), "1".repeat(40));
}
