use fits_rs::{
    BinTable, BinTableValue, FITSError, HDUData, Header, Keyword, KeywordValue, Real, TDisp,
    TFormType,
};

fn kw(name: &str, value: KeywordValue) -> Keyword {
    Keyword { name: name.to_string(), value, comment: None }
}

fn whole(name: &str, v: i64) -> Keyword {
    kw(name, KeywordValue::Int(v))
}

fn text(name: &str, v: &str) -> Keyword {
    kw(name, KeywordValue::String(v.to_string()))
}

fn head(rowbytes: i64, nrows: i64, pcount: i64, forms: &[&str]) -> Vec<Keyword> {
    let mut h = vec![
        text("XTENSION", "BINTABLE"),
        whole("BITPIX", 8),
        whole("NAXIS", 2),
        whole("NAXIS1", rowbytes),
        whole("NAXIS2", nrows),
        whole("PCOUNT", pcount),
        whole("GCOUNT", 1),
        whole("TFIELDS", forms.len() as i64),
    ];
    for (i, f) in forms.iter().enumerate() {
        h.push(text(&format!("TFORM{}", i + 1), f));
    }
    h
}

fn table_of(data: HDUData) -> BinTable {
    match data {
        HDUData::BinTable(t) => *t,
        _ => panic!("no binary table"),
    }
}

fn decode(rowbytes: i64, nrows: i64, forms: &[&str], data: &[u8]) -> BinTable {
    table_of(BinTable::from_bytes(&Header(head(rowbytes, nrows, 0, forms)), data).unwrap().0)
}

#[test]
fn column_past_the_last_is_reported() {
    let t = decode(4, 2, &["J"], &[0; 8]);
    assert_eq!(t.ncols, 1);
    assert_eq!(t.at(0, 1), Err(FITSError::InvalidColumn(1, 1)));
    assert_eq!(t.at(1, 7), Err(FITSError::InvalidColumn(7, 1)));
    assert_eq!(t.at(0, usize::MAX), Err(FITSError::InvalidColumn(usize::MAX, 1)));
}

#[test]
fn row_past_the_last_is_reported_first() {
    let t = decode(4, 2, &["J"], &[0; 8]);
    assert_eq!(t.at(2, 0), Err(FITSError::InvalidRow(2, 2)));
    assert_eq!(t.at(2, 5), Err(FITSError::InvalidRow(2, 2)));
    assert_eq!(t.at(usize::MAX, 0), Err(FITSError::InvalidRow(usize::MAX, 2)));
}

#[test]
fn single_values_of_each_type() {
    let forms = ["L", "X", "B", "I", "J", "K", "A", "E", "D", "C", "M"];
    let mut row = vec![1u8, 0x80, 200];
    row.extend((-2i16).to_be_bytes());
    row.extend((-3i32).to_be_bytes());
    row.extend((-4i64).to_be_bytes());
    row.push(b'z');
    row.extend(1.5f32.to_be_bytes());
    row.extend((-2.5f64).to_be_bytes());
    row.extend(3.5f32.to_be_bytes());
    row.extend(4.5f32.to_be_bytes());
    row.extend(5.5f64.to_be_bytes());
    row.extend(6.5f64.to_be_bytes());
    assert_eq!(row.len(), 54);
    let t = decode(54, 1, &forms, &row);
    assert_eq!(t.at(0, 0), Ok(BinTableValue::Logical(true)));
    assert_eq!(t.at(0, 1), Ok(BinTableValue::Bit(true)));
    assert_eq!(t.at(0, 2), Ok(BinTableValue::UnsignedByte(200)));
    assert_eq!(t.at(0, 3), Ok(BinTableValue::Int16(-2)));
    assert_eq!(t.at(0, 4), Ok(BinTableValue::Int32(-3)));
    assert_eq!(t.at(0, 5), Ok(BinTableValue::Int64(-4)));
    assert_eq!(t.at(0, 6), Ok(BinTableValue::Char('z')));
    assert_eq!(t.at(0, 7), Ok(BinTableValue::Float32(1.5f32.to_bits())));
    assert_eq!(t.at(0, 8), Ok(BinTableValue::Float64((-2.5f64).to_bits())));
    assert_eq!(
        t.at(0, 9),
        Ok(BinTableValue::Complex32((3.5f32.to_bits(), 4.5f32.to_bits())))
    );
    assert_eq!(
        t.at(0, 10),
        Ok(BinTableValue::Complex64((5.5f64.to_bits(), 6.5f64.to_bits())))
    );
}

#[test]
fn integers_at_the_ends_of_their_ranges() {
    let mut row = Vec::new();
    row.extend(i16::MIN.to_be_bytes());
    row.extend(i16::MAX.to_be_bytes());
    row.extend(i32::MIN.to_be_bytes());
    row.extend(i32::MAX.to_be_bytes());
    row.extend(i64::MIN.to_be_bytes());
    row.extend(i64::MAX.to_be_bytes());
    let t = decode(28, 1, &["2I", "2J", "2K"], &row);
    assert_eq!(t.at(0, 0), Ok(BinTableValue::Int16Arr(vec![i16::MIN, i16::MAX])));
    assert_eq!(t.at(0, 1), Ok(BinTableValue::Int32Arr(vec![i32::MIN, i32::MAX])));
    assert_eq!(t.at(0, 2), Ok(BinTableValue::Int64Arr(vec![i64::MIN, i64::MAX])));
}

#[test]
fn arrays_of_each_type() {
    let forms = ["2L", "2B", "3A", "2E", "2D", "2C", "2M"];
    let mut row = vec![0u8, 5, 9, 10, b'a', b'b', 0xe9];
    row.extend(1.0f32.to_be_bytes());
    row.extend(2.0f32.to_be_bytes());
    row.extend(3.0f64.to_be_bytes());
    row.extend(4.0f64.to_be_bytes());
    for v in [1.0f32, 2.0, 3.0, 4.0] {
        row.extend(v.to_be_bytes());
    }
    for v in [5.0f64, 6.0, 7.0, 8.0] {
        row.extend(v.to_be_bytes());
    }
    let n = row.len();
    let t = decode(n as i64, 1, &forms, &row);
    assert_eq!(t.at(0, 0), Ok(BinTableValue::LogicalArr(vec![false, true])));
    assert_eq!(t.at(0, 1), Ok(BinTableValue::UnsignedByteArr(vec![9, 10])));
    assert_eq!(t.at(0, 2), Ok(BinTableValue::String("ab\u{e9}".to_string())));
    assert_eq!(
        t.at(0, 3),
        Ok(BinTableValue::Float32Arr(vec![1.0f32.to_bits(), 2.0f32.to_bits()]))
    );
    assert_eq!(
        t.at(0, 4),
        Ok(BinTableValue::Float64Arr(vec![3.0f64.to_bits(), 4.0f64.to_bits()]))
    );
    assert_eq!(
        t.at(0, 5),
        Ok(BinTableValue::Complex32Arr(vec![
            (1.0f32.to_bits(), 2.0f32.to_bits()),
            (3.0f32.to_bits(), 4.0f32.to_bits())
        ]))
    );
    assert_eq!(
        t.at(0, 6),
        Ok(BinTableValue::Complex64Arr(vec![
            (5.0f64.to_bits(), 6.0f64.to_bits()),
            (7.0f64.to_bits(), 8.0f64.to_bits())
        ]))
    );
}

#[test]
fn bits_come_out_least_significant_first() {
    let t = decode(2, 1, &["10X"], &[0b0000_0101, 0b1000_0000]);
    let mut expected = vec![true, false, true, false, false, false, false, false];
    expected.extend(vec![false, false, false, false, false, false, false, true]);
    assert_eq!(t.at(0, 0), Ok(BinTableValue::BitArr(expected)));
    let t = decode(1, 2, &["1X"], &[0, 4]);
    assert_eq!(t.at(0, 0), Ok(BinTableValue::Bit(false)));
    assert_eq!(t.at(1, 0), Ok(BinTableValue::Bit(true)));
}

#[test]
fn empty_arrays() {
    let t = decode(0, 1, &["0J", "0X", "0A", "0M"], &[]);
    assert_eq!(t.at(0, 0), Ok(BinTableValue::Int32Arr(vec![])));
    assert_eq!(t.at(0, 1), Ok(BinTableValue::BitArr(vec![])));
    assert_eq!(t.at(0, 2), Ok(BinTableValue::String(String::new())));
    assert_eq!(t.at(0, 3), Ok(BinTableValue::Complex64Arr(vec![])));
}

#[test]
fn rows_and_columns_are_laid_out_in_order() {
    let mut data = Vec::new();
    for r in 0..3u8 {
        data.push(r);
        data.extend((100 + r as i16).to_be_bytes());
        data.extend((1000 + r as i32).to_be_bytes());
    }
    let t = decode(7, 3, &["B", "I", "J"], &data);
    for r in 0..3usize {
        assert_eq!(t.at(r, 0), Ok(BinTableValue::UnsignedByte(r as u8)));
        assert_eq!(t.at(r, 1), Ok(BinTableValue::Int16(100 + r as i16)));
        assert_eq!(t.at(r, 2), Ok(BinTableValue::Int32(1000 + r as i32)));
    }
}

#[test]
fn variable_arrays_are_not_decoded() {
    let t = decode(8, 1, &["1PE(4)", "QJ"], &[0; 16]);
    let not_yet = FITSError::GenericError("Array Types Not Yet Implemented".to_string());
    assert_eq!(t.at(0, 0), Err(not_yet.clone()));
    assert_eq!(t.at(0, 1), Err(not_yet));
    assert_eq!(t.columns[0].tform.dtype, TFormType::ArrayD32(Box::new(TFormType::Float32), 4));
}

#[test]
fn cell_outside_the_bytes_is_reported() {
    let mut h = head(4, 2, 0, &["J", "J"]);
    h.push(whole("THEAP", 6));
    let t = table_of(BinTable::from_bytes(&Header(h), &[0; 9]).unwrap().0);
    assert_eq!(t.raw.len(), 6);
    assert_eq!(t.at(0, 0), Ok(BinTableValue::Int32(0)));
    assert_eq!(t.at(0, 1), Err(FITSError::InvalidDataSize(8, 6)));
    assert_eq!(t.at(1, 0), Err(FITSError::InvalidDataSize(8, 6)));
    assert_eq!(t.at(1, 1), Err(FITSError::InvalidDataSize(12, 6)));
}

#[test]
fn heap_follows_the_rows() {
    let h = head(2, 2, 3, &["I"]);
    let (d, used) = BinTable::from_bytes(&Header(h), &[0, 1, 0, 2, 9, 9, 9, 7]).unwrap();
    assert_eq!(used, 7);
    let t = table_of(d);
    assert_eq!(t.theap, 4);
    assert_eq!(t.pcount, 3);
    assert_eq!(t.rowbytes, 2);
    assert_eq!(t.nrows, 2);
    assert_eq!(t.raw, vec![0, 1, 0, 2, 9, 9, 9]);
    assert_eq!(t.at(1, 0), Ok(BinTableValue::Int16(2)));
}

#[test]
fn theap_moves_the_heap() {
    let mut h = head(2, 1, 1, &["I"]);
    h.push(whole("THEAP", 5));
    let (_, used) = BinTable::from_bytes(&Header(h), &[0; 6]).unwrap();
    assert_eq!(used, 6);
    let mut h = head(2, 1, 1, &["I"]);
    h.push(whole("THEAP", -5));
    assert_eq!(
        BinTable::from_bytes(&Header(h), &[0; 6]),
        Err(FITSError::UnexpectedKeywordValue("THEAP".to_string(), KeywordValue::Int(-5)))
    );
    let mut h = head(2, 1, 1, &["I"]);
    h.push(text("THEAP", "5"));
    let (_, used) = BinTable::from_bytes(&Header(h), &[0; 6]).unwrap();
    assert_eq!(used, 3);
}

#[test]
fn too_few_table_bytes_are_reported() {
    let h = head(4, 2, 2, &["J"]);
    assert_eq!(
        BinTable::from_bytes(&Header(h), &[0; 9]),
        Err(FITSError::InvalidDataSize(10, 9))
    );
    let h = head(i64::MAX, i64::MAX, 0, &["J"]);
    assert_eq!(
        BinTable::from_bytes(&Header(h), &[0; 9]),
        Err(FITSError::InvalidDataSize(usize::MAX, 9))
    );
    let mut h = head(1, 1, i64::MAX, &["B"]);
    h.push(whole("THEAP", i64::MAX));
    if usize::MAX as u128 > 2 * (i64::MAX as u128) {
        assert_eq!(
            BinTable::from_bytes(&Header(h), &[0; 9]),
            Err(FITSError::InvalidDataSize(2 * (i64::MAX as usize), 9))
        );
    }
}

#[test]
fn column_keywords_are_collected() {
    let mut h = head(4, 1, 0, &["J", "E"]);
    h.push(text("TTYPE2", "FLUX"));
    h.push(kw("TSCAL2", KeywordValue::Float(Real { text: "2.5".to_string() })));
    h.push(kw("TZERO2", KeywordValue::Int(1)));
    h.push(text("TUNIT2", "Jy"));
    h.push(whole("TNULL1", -1));
    h.push(kw("TDMAX1", KeywordValue::Float(Real { text: "9.".to_string() })));
    h.push(text("TDISP1", "I4"));
    let t = table_of(BinTable::from_bytes(&Header(h), &[0; 8]).unwrap().0);
    assert_eq!(t.columns[0].name, None);
    assert_eq!(t.columns[1].name, Some("FLUX".to_string()));
    assert_eq!(t.columns[1].scale, Some(Real { text: "2.5".to_string() }));
    assert_eq!(t.columns[1].zero, None);
    assert_eq!(t.columns[1].unit, Some("Jy".to_string()));
    assert_eq!(t.columns[0].tnull, Some(-1));
    assert_eq!(t.columns[1].tnull, None);
    assert_eq!(t.columns[0].tdmax, Some(Real { text: "9.".to_string() }));
    assert_eq!(t.columns[0].tdisp, TDisp::Absent);
}

#[test]
fn tform_is_required() {
    let mut h = head(4, 1, 0, &["J"]);
    h[7] = whole("TFIELDS", 2);
    assert_eq!(
        BinTable::from_bytes(&Header(h), &[0; 8]),
        Err(FITSError::MissingKeyword("TFORM2".to_string()))
    );
    let mut h = head(4, 1, 0, &[]);
    h[7] = whole("TFIELDS", 1);
    h.push(whole("TFORM1", 4));
    assert_eq!(
        BinTable::from_bytes(&Header(h), &[0; 8]),
        Err(FITSError::UnexpectedValueType("TFORM1".to_string()))
    );
    let h = head(4, 1, 0, &["4W"]);
    assert_eq!(
        BinTable::from_bytes(&Header(h), &[0; 8]),
        Err(FITSError::InvalidTForm("W".to_string()))
    );
}

#[test]
fn binary_table_keywords_stand_at_their_positions() {
    let good = head(4, 1, 0, &[]);
    let names = ["XTENSION", "BITPIX", "NAXIS", "NAXIS1", "NAXIS2", "PCOUNT", "GCOUNT", "TFIELDS"];
    for i in 1..8 {
        let mut short = good.clone();
        short.truncate(i);
        assert_eq!(
            BinTable::from_bytes(&Header(short), &[0; 4]),
            Err(FITSError::MissingKeyword(names[i].to_string()))
        );
    }
    for i in 1..7 {
        let mut swapped = good.clone();
        swapped.swap(i, i + 1);
        assert_eq!(
            BinTable::from_bytes(&Header(swapped), &[0; 4]),
            Err(FITSError::InvalidKeywordPlacement(
                format!("{} not {}", names[i + 1], names[i]),
                i
            ))
        );
    }
    let mut h = good.clone();
    h[1] = whole("BITPIX", 16);
    assert_eq!(
        BinTable::from_bytes(&Header(h), &[0; 4]),
        Err(FITSError::GenericError("Invalid value for keyword BITPIX".to_string()))
    );
    let mut h = good;
    h[6] = whole("GCOUNT", 0);
    assert_eq!(
        BinTable::from_bytes(&Header(h), &[0; 4]),
        Err(FITSError::GenericError("Invalid value for keyword GCOUNT".to_string()))
    );
}
