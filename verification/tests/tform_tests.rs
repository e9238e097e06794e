use fits_rs::tform::{element_bytes, tform_type_from_char};
use fits_rs::{FITSError, TForm, TFormType};

#[test]
fn three_j_is_three_int32() {
    let t = TForm::from_string("3J").unwrap();
    assert_eq!(t.dtype, TFormType::Int32);
    assert_eq!(t.repeats, 3);
    assert_eq!(t.bytes(), 12);
}

#[test]
fn sixteen_x_is_two_bytes_of_bits() {
    let t = TForm::from_string("16X").unwrap();
    assert_eq!(t.dtype, TFormType::Bit);
    assert_eq!(t.repeats, 16);
    assert_eq!(t.bytes(), 2);
}

#[test]
fn repeat_count_defaults_to_one() {
    let t = TForm::from_string("D").unwrap();
    assert_eq!(t.dtype, TFormType::Float64);
    assert_eq!(t.repeats, 1);
    assert_eq!(t.bytes(), 8);
}

#[test]
fn repeat_count_zero() {
    let t = TForm::from_string("0A").unwrap();
    assert_eq!(t.dtype, TFormType::Char);
    assert_eq!(t.repeats, 0);
    assert_eq!(t.bytes(), 0);
}

#[test]
fn every_letter_selects_its_type() {
    let table = [
        ('L', TFormType::Logical, 1),
        ('X', TFormType::Bit, 1),
        ('B', TFormType::UnsignedByte, 1),
        ('I', TFormType::Int16, 2),
        ('J', TFormType::Int32, 4),
        ('K', TFormType::Int64, 8),
        ('A', TFormType::Char, 1),
        ('E', TFormType::Float32, 4),
        ('D', TFormType::Float64, 8),
        ('C', TFormType::Complex32, 8),
        ('M', TFormType::Complex64, 16),
        ('P', TFormType::ArrayD32(Box::new(TFormType::UnsignedByte), 0), 4),
        ('Q', TFormType::ArrayD64(Box::new(TFormType::UnsignedByte), 0), 8),
    ];
    for (c, t, size) in table {
        assert_eq!(tform_type_from_char(c), Ok(t.clone()));
        assert_eq!(element_bytes(&t), size);
    }
}

#[test]
fn unknown_letter_is_reported() {
    assert_eq!(tform_type_from_char('Z'), Err(FITSError::InvalidTForm("Z".to_string())));
    assert_eq!(tform_type_from_char('j'), Err(FITSError::InvalidTForm("j".to_string())));
    assert_eq!(TForm::from_string("3Z"), Err(FITSError::InvalidTForm("Z".to_string())));
}

#[test]
fn empty_text_is_refused() {
    assert_eq!(TForm::from_string(""), Err(FITSError::InvalidTForm("".to_string())));
}

#[test]
fn count_without_letter_is_refused() {
    assert_eq!(TForm::from_string("12"), Err(FITSError::InvalidTForm("12".to_string())));
}

#[test]
fn count_too_large_is_refused() {
    let s = "99999999999999999999999J";
    assert_eq!(TForm::from_string(s), Err(FITSError::InvalidTForm(s.to_string())));
    let s = format!("{}J", usize::MAX);
    assert_eq!(TForm::from_string(&s), Err(FITSError::InvalidTForm(s.clone())));
    let s = format!("{}X", usize::MAX);
    let t = TForm::from_string(&s).unwrap();
    assert_eq!(t.bytes(), usize::MAX / 8 + 1);
}

#[test]
fn byte_size_is_count_times_element_size() {
    for r in [0usize, 1, 2, 7, 8, 9, 100] {
        for (letter, size) in [
            ("L", 1),
            ("B", 1),
            ("I", 2),
            ("J", 4),
            ("K", 8),
            ("A", 1),
            ("E", 4),
            ("D", 8),
            ("C", 8),
            ("M", 16),
        ] {
            let t = TForm::from_string(&format!("{}{}", r, letter)).unwrap();
            assert_eq!(t.bytes(), r * size);
        }
        let t = TForm::from_string(&format!("{}X", r)).unwrap();
        assert_eq!(t.bytes(), (r + 7) / 8);
    }
}

#[test]
fn variable_array_with_type_and_length() {
    let t = TForm::from_string("1PE(1800)").unwrap();
    assert_eq!(t.dtype, TFormType::ArrayD32(Box::new(TFormType::Float32), 1800));
    assert_eq!(t.repeats, 1);
    assert_eq!(t.bytes(), 4);
    let t = TForm::from_string("QJ(5)").unwrap();
    assert_eq!(t.dtype, TFormType::ArrayD64(Box::new(TFormType::Int32), 5));
    assert_eq!(t.bytes(), 8);
    let t = TForm::from_string("0PB").unwrap();
    assert_eq!(t.dtype, TFormType::ArrayD32(Box::new(TFormType::UnsignedByte), 0));
    assert_eq!(t.bytes(), 0);
}

#[test]
fn variable_array_without_type() {
    let t = TForm::from_string("P").unwrap();
    assert_eq!(t.dtype, TFormType::ArrayD32(Box::new(TFormType::UnsignedByte), 0));
    let t = TForm::from_string("P(10)").unwrap();
    assert_eq!(t.dtype, TFormType::ArrayD32(Box::new(TFormType::UnsignedByte), 10));
    let t = TForm::from_string("PE(7").unwrap();
    assert_eq!(t.dtype, TFormType::ArrayD32(Box::new(TFormType::Float32), 7));
}

#[test]
fn variable_array_count_is_zero_or_one() {
    assert_eq!(TForm::from_string("2PE(3)"), Err(FITSError::InvalidTForm("2PE(3)".to_string())));
    assert_eq!(TForm::from_string("3Q"), Err(FITSError::InvalidTForm("3Q".to_string())));
}

#[test]
fn variable_array_errors() {
    assert_eq!(TForm::from_string("PZ"), Err(FITSError::InvalidTForm("Z".to_string())));
    assert_eq!(TForm::from_string("PE()"), Err(FITSError::InvalidTForm("PE()".to_string())));
    assert_eq!(TForm::from_string("PE(x)"), Err(FITSError::InvalidTForm("PE(x)".to_string())));
}

#[test]
fn what_follows_the_letter_is_not_read() {
    let t = TForm::from_string("2Ixyz").unwrap();
    assert_eq!(t.dtype, TFormType::Int16);
    assert_eq!(t.repeats, 2);
}

#[test]
fn defaults() {
    assert_eq!(TFormType::default(), TFormType::UnsignedByte);
    let t = TForm::default();
    assert_eq!(t.dtype, TFormType::UnsignedByte);
    assert_eq!(t.repeats, 0);
    assert_eq!(t.clone(), t);
}
