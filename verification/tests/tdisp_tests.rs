use fits_rs::tdisp::{wdefromstr, wmfromstr};
use fits_rs::{FITSError, Keyword, KeywordValue, TDisp};

fn keyword(value: KeywordValue) -> Keyword {
    Keyword { name: "TDISP1".to_string(), value, comment: None }
}

fn text(s: &str) -> Keyword {
    keyword(KeywordValue::String(s.to_string()))
}

fn bad() -> FITSError {
    FITSError::GenericError("Invalid TDISP value".to_string())
}

#[test]
fn width_and_second_number() {
    assert_eq!(wmfromstr("8"), Ok((8, 0)));
    assert_eq!(wmfromstr("8.3"), Ok((8, 3)));
    assert_eq!(wmfromstr("8.3.9"), Ok((8, 3)));
    assert_eq!(wmfromstr("+8.+3"), Ok((8, 3)));
    assert_eq!(wmfromstr(""), Err(bad()));
    assert_eq!(wmfromstr("8."), Err(bad()));
    assert_eq!(wmfromstr(".3"), Err(bad()));
    assert_eq!(wmfromstr("a.3"), Err(bad()));
    assert_eq!(wmfromstr("-8"), Err(bad()));
}

#[test]
fn width_digits_and_exponent() {
    assert_eq!(wdefromstr("12"), Ok((12, 0, 0)));
    assert_eq!(wdefromstr("12.5"), Ok((12, 5, 0)));
    assert_eq!(wdefromstr("12.5E3"), Ok((12, 5, 3)));
    assert_eq!(wdefromstr("12.5E3E9"), Ok((12, 5, 3)));
    assert_eq!(wdefromstr("12.5E"), Err(bad()));
    assert_eq!(wdefromstr("12."), Err(bad()));
    assert_eq!(wdefromstr("x"), Err(bad()));
}

#[test]
fn each_format_letter() {
    assert_eq!(TDisp::from_keyword(&text("A10")), Ok(TDisp::Char(10)));
    assert_eq!(TDisp::from_keyword(&text("L1")), Ok(TDisp::Logical(1)));
    assert_eq!(TDisp::from_keyword(&text("I6")), Ok(TDisp::Int(6, 0)));
    assert_eq!(TDisp::from_keyword(&text("I6.2")), Ok(TDisp::Int(6, 2)));
    assert_eq!(TDisp::from_keyword(&text("B8.8")), Ok(TDisp::Bin(8, 8)));
    assert_eq!(TDisp::from_keyword(&text("O4")), Ok(TDisp::Oct(4, 0)));
    assert_eq!(TDisp::from_keyword(&text("Z4.1")), Ok(TDisp::Hex(4, 1)));
    assert_eq!(TDisp::from_keyword(&text("F8.3")), Ok(TDisp::Float(8, 3)));
    assert_eq!(TDisp::from_keyword(&text("G15.7E2")), Ok(TDisp::FloatGen(15, 7, 2)));
    assert_eq!(TDisp::from_keyword(&text("D15.7")), Ok(TDisp::FloatExp(15, 7, 0)));
    assert_eq!(TDisp::from_keyword(&text("E15.7E3")), Ok(TDisp::FloatExp(15, 7, 3)));
}

#[test]
fn engineering_and_scientific_forms_have_three_exponent_digits() {
    assert_eq!(TDisp::from_keyword(&text("EN12.4")), Ok(TDisp::FloatExp(12, 4, 3)));
    assert_eq!(TDisp::from_keyword(&text("ES12.4")), Ok(TDisp::FloatExp(12, 4, 3)));
    assert_eq!(TDisp::from_keyword(&text("ES12")), Ok(TDisp::FloatExp(12, 0, 3)));
}

#[test]
fn malformed_formats_are_refused() {
    for s in ["", "A", "Ax", "Q5", "I", "F8.", "G.5", "EN", "a10", "10"] {
        assert_eq!(TDisp::from_keyword(&text(s)), Err(bad()));
    }
}

#[test]
fn only_a_string_writes_a_format() {
    assert_eq!(TDisp::from_keyword(&keyword(KeywordValue::Int(5))), Err(bad()));
    assert_eq!(TDisp::from_keyword(&keyword(KeywordValue::Absent)), Err(bad()));
    assert_eq!(TDisp::from_keyword(&keyword(KeywordValue::Bool(true))), Err(bad()));
}
