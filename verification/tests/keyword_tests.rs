use fits_rs::{FITSError, Keyword, KeywordValue, Real};

fn record(text: &str) -> Vec<u8> {
    let mut bytes = text.as_bytes().to_vec();
    assert!(bytes.len() <= 80);
    bytes.resize(80, b' ');
    bytes
}

fn number(text: &str) -> Real {
    Real { text: text.to_string() }
}

#[test]
fn simple_record_is_a_truth_value_with_comment() {
    let kw = Keyword::new(&record("SIMPLE  =                    T / comment")).unwrap();
    assert_eq!(kw.name, "SIMPLE");
    assert_eq!(kw.value, KeywordValue::Bool(true));
    assert_eq!(kw.comment, Some("comment".to_string()));
}

#[test]
fn false_truth_value() {
    let kw = Keyword::new(&record("EXTEND  =                    F")).unwrap();
    assert_eq!(kw.value, KeywordValue::Bool(false));
    assert_eq!(kw.comment, None);
}

#[test]
fn record_of_wrong_length_is_refused() {
    let bytes = vec![b' '; 79];
    assert_eq!(Keyword::new(&bytes), Err(FITSError::BadKeywordLength(79)));
    let bytes = vec![b' '; 81];
    assert_eq!(Keyword::new(&bytes), Err(FITSError::BadKeywordLength(81)));
    assert_eq!(Keyword::new(&[]), Err(FITSError::BadKeywordLength(0)));
}

#[test]
fn lower_case_name_is_refused() {
    let r = Keyword::new(&record("simple  =                    T"));
    assert_eq!(r, Err(FITSError::InvalidCharacterInKeyword("simple  ".to_string())));
}

#[test]
fn blank_inside_name_is_refused() {
    let r = Keyword::new(&record("AB CD   =                    T"));
    assert_eq!(r, Err(FITSError::InvalidCharacterInKeyword("AB CD".to_string())));
}

#[test]
fn name_may_hold_digits_hyphen_and_underscore() {
    let kw = Keyword::new(&record("DATE-OBS= '2001-01-01'")).unwrap();
    assert_eq!(kw.name, "DATE-OBS");
    let kw = Keyword::new(&record("A_1     =                    5")).unwrap();
    assert_eq!(kw.name, "A_1");
    assert_eq!(kw.value, KeywordValue::Int(5));
}

#[test]
fn record_without_value_indicator_has_no_value() {
    let kw = Keyword::new(&record("COMMENT this is free text / not a comment")).unwrap();
    assert_eq!(kw.name, "COMMENT");
    assert_eq!(kw.value, KeywordValue::Absent);
    assert_eq!(kw.comment, None);
    let kw = Keyword::new(&record("END")).unwrap();
    assert_eq!(kw.name, "END");
    assert_eq!(kw.value, KeywordValue::Absent);
}

#[test]
fn blank_record_has_empty_name() {
    let kw = Keyword::new(&record("")).unwrap();
    assert_eq!(kw.name, "");
    assert_eq!(kw.value, KeywordValue::Absent);
}

#[test]
fn equals_sign_without_blank_is_no_value_indicator() {
    let kw = Keyword::new(&record("HISTORY =x")).unwrap();
    assert_eq!(kw.value, KeywordValue::Absent);
}

#[test]
fn string_value_is_trimmed() {
    let kw = Keyword::new(&record("XTENSION= 'BINTABLE'           / binary table")).unwrap();
    assert_eq!(kw.value, KeywordValue::String("BINTABLE".to_string()));
    assert_eq!(kw.comment, Some("binary table".to_string()));
    let kw = Keyword::new(&record("TTYPE1  = '  name  '")).unwrap();
    assert_eq!(kw.value, KeywordValue::String("name".to_string()));
    assert_eq!(kw.comment, None);
}

#[test]
fn doubled_quote_stays_in_string() {
    let kw = Keyword::new(&record("OBSERVER= 'O''Neill' / who")).unwrap();
    assert_eq!(kw.value, KeywordValue::String("O''Neill".to_string()));
    assert_eq!(kw.comment, Some("who".to_string()));
}

#[test]
fn slash_inside_string_is_no_comment() {
    let kw = Keyword::new(&record("PATH    = 'a/b/c'")).unwrap();
    assert_eq!(kw.value, KeywordValue::String("a/b/c".to_string()));
    assert_eq!(kw.comment, None);
}

#[test]
fn string_without_closing_quote_runs_to_the_end() {
    let kw = Keyword::new(&record("NAME    = 'open / ended")).unwrap();
    assert_eq!(kw.value, KeywordValue::String("open / ended".to_string()));
    assert_eq!(kw.comment, None);
}

#[test]
fn slash_as_last_byte_gives_no_comment() {
    let mut bytes = record("SIMPLE  =                    T");
    bytes[79] = b'/';
    let kw = Keyword::new(&bytes).unwrap();
    assert_eq!(kw.comment, None);
    let mut bytes = record("SIMPLE  =                    T");
    bytes[78] = b'/';
    let kw = Keyword::new(&bytes).unwrap();
    assert_eq!(kw.comment, Some("".to_string()));
}

#[test]
fn integer_value() {
    let kw = Keyword::new(&record("BITPIX  =                   16 / bits")).unwrap();
    assert_eq!(kw.value, KeywordValue::Int(16));
    assert_eq!(kw.comment, Some("bits".to_string()));
    let kw = Keyword::new(&record("BITPIX  =                  -32")).unwrap();
    assert_eq!(kw.value, KeywordValue::Int(-32));
    let kw = Keyword::new(&record("BIG     =  9223372036854775807")).unwrap();
    assert_eq!(kw.value, KeywordValue::Int(i64::MAX));
    let kw = Keyword::new(&record("SMALL   = -9223372036854775808")).unwrap();
    assert_eq!(kw.value, KeywordValue::Int(i64::MIN));
    let kw = Keyword::new(&record("PLUS    =                  +07")).unwrap();
    assert_eq!(kw.value, KeywordValue::Int(7));
}

#[test]
fn integer_out_of_range_is_refused() {
    let text = "BIG     =  9223372036854775808";
    let r = Keyword::new(&record(text));
    assert_eq!(
        r,
        Err(FITSError::InvalidKeywordRecord(String::from_utf8(record(text)).unwrap()))
    );
}

#[test]
fn empty_value_field_is_refused() {
    let text = "EMPTY   =";
    let r = Keyword::new(&record(text));
    assert_eq!(
        r,
        Err(FITSError::InvalidKeywordRecord(String::from_utf8(record(text)).unwrap()))
    );
}

#[test]
fn number_may_stand_anywhere_in_its_field() {
    let kw = Keyword::new(&record("LEFT    = 12                   / left")).unwrap();
    assert_eq!(kw.value, KeywordValue::Int(12));
    assert_eq!(kw.comment, Some("left".to_string()));
    let kw = Keyword::new(&record("MIDDLE  =      -1.5E2")).unwrap();
    assert_eq!(kw.value, KeywordValue::Float(number("-1.5E2")));
    let kw = Keyword::new(&record("INNER   =   1 2")).map_err(|_| ());
    assert_eq!(kw, Err(()));
}

#[test]
fn number_followed_by_a_comment_in_its_field_is_refused() {
    let text = "FREE    = 12 / free format";
    let r = Keyword::new(&record(text));
    assert_eq!(
        r,
        Err(FITSError::InvalidKeywordRecord(String::from_utf8(record(text)).unwrap()))
    );
}

#[test]
fn real_value_keeps_its_text() {
    let kw = Keyword::new(&record("CRVAL1  =               1.5E+3 / value")).unwrap();
    assert_eq!(kw.value, KeywordValue::Float(number("1.5E+3")));
    assert_eq!(kw.comment, Some("value".to_string()));
    let kw = Keyword::new(&record("CDELT1  =                 -.25")).unwrap();
    assert_eq!(kw.value, KeywordValue::Float(number("-.25")));
    let kw = Keyword::new(&record("X       =                   3.")).unwrap();
    assert_eq!(kw.value, KeywordValue::Float(number("3.")));
}

#[test]
fn fortran_exponent_is_written_with_e() {
    let kw = Keyword::new(&record("CRVAL1  =              1.5D+03")).unwrap();
    assert_eq!(kw.value, KeywordValue::Float(number("1.5E+03")));
    match kw.value {
        KeywordValue::Float(x) => assert_eq!(x.text.parse::<f64>(), Ok(1500.0)),
        _ => panic!("not a real"),
    }
}

#[test]
fn malformed_real_is_refused() {
    for text in [
        "X       =                1.2.3",
        "X       =                    .",
        "X       =                  1E",
        "X       =                 1E+",
        "X       =                  E5",
        "X       =                 1-2.",
    ] {
        let r = Keyword::new(&record(text));
        assert_eq!(
            r,
            Err(FITSError::InvalidKeywordRecord(String::from_utf8(record(text)).unwrap()))
        );
    }
}

#[test]
fn complex_integer_value() {
    let kw = Keyword::new(&record("CPLX    = x                    (1, -2) / pair")).unwrap();
    assert_eq!(kw.value, KeywordValue::ComplexInt(1, -2));
    assert_eq!(kw.comment, Some("pair".to_string()));
}

#[test]
fn complex_real_value() {
    let kw = Keyword::new(&record("CPLX    = x                    (1.5, 2D3)")).unwrap();
    assert_eq!(kw.value, KeywordValue::ComplexFloat(number("1.5"), number("2E3")));
}

#[test]
fn malformed_pair_is_refused() {
    for text in [
        "CPLX    = x                    (1, 2, 3)",
        "CPLX    = x                    (1)",
        "CPLX    = x                    1, 2)",
        "CPLX    = x                    )1, 2(",
        "CPLX    = x                    (1, )",
        "CPLX    = x                    (a, b)",
    ] {
        let r = Keyword::new(&record(text));
        assert_eq!(
            r,
            Err(FITSError::InvalidKeywordRecord(String::from_utf8(record(text)).unwrap()))
        );
    }
}

#[test]
fn value_field_must_be_ascii() {
    let mut bytes = record("NAME    = 'abc'");
    bytes[40] = 0xe9;
    let r = Keyword::new(&bytes);
    let shown: String = bytes.iter().map(|b| *b as char).collect();
    assert_eq!(r, Err(FITSError::InvalidKeywordRecord(shown)));
}

#[test]
fn commentary_text_need_not_be_ascii() {
    let mut bytes = record("COMMENT caf");
    bytes[11] = 0xe9;
    let kw = Keyword::new(&bytes).unwrap();
    assert_eq!(kw.name, "COMMENT");
    assert_eq!(kw.value, KeywordValue::Absent);
}

#[test]
fn default_keyword_is_empty() {
    let kw = Keyword::default();
    assert_eq!(kw.name, "");
    assert_eq!(kw.value, KeywordValue::Absent);
    assert_eq!(kw.comment, None);
}

#[test]
fn clone_keeps_the_keyword() {
    let kw = Keyword::new(&record("OBSERVER= 'O''Neill' / who")).unwrap();
    assert_eq!(kw.clone(), kw);
}
