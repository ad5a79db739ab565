use ifdohtem::amount::Amount;
use ifdohtem::signed::SignedAmount;

fn text_of(input: &str) -> Option<String> {
    SignedAmount::parse(input).map(|amount| amount.to_text())
}

fn sum(a: &str, b: &str) -> String {
    SignedAmount::parse(a).unwrap().add(&SignedAmount::parse(b).unwrap()).to_text()
}

#[test]
fn reads_numbers_with_and_without_a_minus() {
    assert_eq!(text_of("123.45"), Some("123.45".to_string()));
    assert_eq!(text_of("-123.45"), Some("-123.45".to_string()));
    assert_eq!(text_of("0"), Some("0".to_string()));
    assert_eq!(text_of("-0"), Some("-0".to_string()));
    assert_eq!(text_of("-0.50"), Some("-0.50".to_string()));
}

#[test]
fn folds_a_power_of_ten_into_the_number() {
    assert_eq!(text_of("1e3"), Some("1000".to_string()));
    assert_eq!(text_of("1E3"), Some("1000".to_string()));
    assert_eq!(text_of("1e+3"), Some("1000".to_string()));
    assert_eq!(text_of("1e0"), Some("1".to_string()));
    assert_eq!(text_of("1.25e1"), Some("12.5".to_string()));
    assert_eq!(text_of("1.25e2"), Some("125".to_string()));
    assert_eq!(text_of("1.25e4"), Some("12500".to_string()));
    assert_eq!(text_of("1.25e-2"), Some("0.0125".to_string()));
    assert_eq!(text_of("-5e-1"), Some("-0.5".to_string()));
    assert_eq!(text_of("1e30"), Some(format!("1{}", "0".repeat(30))));
    assert_eq!(text_of("1.7976931348623157e308").map(|text| text.len()), Some(309));
    assert_eq!(text_of("5e-324").map(|text| text.len()), Some(326));
}

#[test]
fn rejects_what_is_no_number() {
    for input in ["", "-", "e5", "1e", "1e-", "1e+", "1e5e5", "1e1.5", "--1", "+1", "1 e5", "abc", "1e٣", "-e1", ".e1"] {
        assert!(SignedAmount::parse(input).is_none(), "{:?} was read as a number", input);
    }
}

#[test]
fn a_power_beyond_the_machine_word_is_no_number() {
    assert!(SignedAmount::parse("1e99999999999999999999999999").is_none());
    assert!(SignedAmount::parse("1e-99999999999999999999999999").is_none());
    assert!(SignedAmount::parse(&format!("1.5e-{}", usize::MAX)).is_none());
}

#[test]
fn adds_with_signs() {
    assert_eq!(sum("10", "-2.5"), "7.5");
    assert_eq!(sum("-2.5", "10"), "7.5");
    assert_eq!(sum("2.5", "-10"), "-7.5");
    assert_eq!(sum("-10", "2.5"), "-7.5");
    assert_eq!(sum("-1.5", "-1.25"), "-2.75");
    assert_eq!(sum("1.5", "1.25"), "2.75");
    assert_eq!(sum("100", "-0.01"), "99.99");
    assert_eq!(sum("1e2", "-1e-2"), "99.99");
}

#[test]
fn opposite_amounts_cancel() {
    let text = sum("123.45", "-123.45");
    assert_eq!(text.parse::<f64>().unwrap(), 0.0);
    assert_eq!(text.trim_start_matches('-'), "0.00");
}

#[test]
fn adding_zero_keeps_the_amount() {
    assert_eq!(SignedAmount::zero().add(&SignedAmount::parse("-7.25").unwrap()).to_text(), "-7.25");
    assert_eq!(SignedAmount::parse("-7.25").unwrap().add(&SignedAmount::zero()).to_text(), "-7.25");
    assert_eq!(SignedAmount::zero().to_text(), "0");
}

#[test]
fn an_amount_is_made_of_a_size_and_a_sign() {
    let size = Amount::parse("4.20").unwrap();
    assert_eq!(SignedAmount::new(true, size.clone()).to_text(), "-4.20");
    assert_eq!(SignedAmount::new(false, size).to_text(), "4.20");
    assert_eq!(SignedAmount::parse("-4.20").unwrap().clone().to_text(), "-4.20");
}

#[test]
fn written_numbers_read_back_as_themselves() {
    for input in ["0", "-1", "10.5", "-0.001", "123456789012345678901234567890.5"] {
        let written = SignedAmount::parse(input).unwrap().to_text();
        assert_eq!(written, input);
    }
}
