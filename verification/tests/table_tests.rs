use fits_rs::table::{read_cell, Column, FieldForm};
use fits_rs::{
    FITSError, HDUData, Header, Keyword, KeywordValue, Real, TDisp, TValue, Table,
};

fn kw(name: &str, value: KeywordValue) -> Keyword {
    Keyword { name: name.to_string(), value, comment: None }
}

fn whole(name: &str, v: i64) -> Keyword {
    kw(name, KeywordValue::Int(v))
}

fn text(name: &str, v: &str) -> Keyword {
    kw(name, KeywordValue::String(v.to_string()))
}

fn num(v: &str) -> Real {
    Real { text: v.to_string() }
}

fn float(name: &str, v: &str) -> Keyword {
    kw(name, KeywordValue::Float(num(v)))
}

fn generic(message: &str) -> FITSError {
    FITSError::GenericError(message.to_string())
}

fn head(rowbytes: i64, nrows: i64, nfields: i64) -> Vec<Keyword> {
    vec![
        text("XTENSION", "TABLE"),
        whole("BITPIX", 8),
        whole("NAXIS", 2),
        whole("NAXIS1", rowbytes),
        whole("NAXIS2", nrows),
        whole("PCOUNT", 0),
        whole("GCOUNT", 1),
        whole("TFIELDS", nfields),
    ]
}

fn column(n: usize, tbcol: i64, name: &str, form: &str) -> Vec<Keyword> {
    vec![
        whole(&format!("TBCOL{}", n), tbcol),
        text(&format!("TTYPE{}", n), name),
        text(&format!("TFORM{}", n), form),
    ]
}

fn table_of(data: HDUData) -> Table {
    match data {
        HDUData::Table(t) => *t,
        _ => panic!("no table"),
    }
}

fn form(s: &str) -> Result<FieldForm, FITSError> {
    Table::tform_from_keyword(&text("TFORM1", s))
}

#[test]
fn forms_of_fields() {
    assert_eq!(form("A8"), Ok(FieldForm::Char(8)));
    assert_eq!(form("I10"), Ok(FieldForm::Int(10)));
    assert_eq!(form("F8.3"), Ok(FieldForm::FloatDec(8, 3)));
    assert_eq!(form("E15.7"), Ok(FieldForm::FloatE(15, 7)));
    assert_eq!(form("D25.17"), Ok(FieldForm::FloatD(25, 17)));
    assert_eq!(FieldForm::FloatD(25, 17).width(), 25);
    assert_eq!(FieldForm::Char(8).width(), 8);
}

#[test]
fn malformed_forms_are_refused() {
    for s in ["", "A", "I", "Ax", "F8", "F8.", "F.3", "E", "J4", "8A", "a8"] {
        assert_eq!(form(s), Err(generic("Invalid TFORM value")));
    }
    assert_eq!(
        Table::tform_from_keyword(&whole("TFORM1", 8)),
        Err(generic("Invalid TFORM value"))
    );
}

#[test]
fn table_of_three_columns() {
    let mut h = head(20, 2, 3);
    h.extend(column(1, 1, "NAME", "A5"));
    h.extend(column(2, 6, "COUNT", "I5"));
    h.extend(column(3, 11, "FLUX", "E10.3"));
    h.push(text("TUNIT3", "Jy"));
    h.push(text("TDISP2", "I5"));
    let data = format!("{:5}{:>5}{:>10}{:5}{:>5}{:>10}more", "alphx", "12", "1.5E+03", "beta", "-7", "-2.5D1");
    assert_eq!(data.len(), 44);
    let (d, used) = Table::from_bytes(&Header(h), data.as_bytes()).unwrap();
    assert_eq!(used, 40);
    let t = table_of(d);
    assert_eq!(t.nfields, 3);
    assert_eq!(t.rowbytes, 20);
    assert_eq!(t.nrows, 2);
    assert_eq!(t.columns.len(), 3);
    assert_eq!(t.columns[0].name, "NAME");
    assert_eq!(t.columns[1].tbcol, 6);
    assert_eq!(t.columns[1].tdisp, TDisp::Int(5, 0));
    assert_eq!(t.columns[0].tdisp, TDisp::Absent);
    assert_eq!(t.columns[2].form, FieldForm::FloatE(10, 3));
    assert_eq!(t.columns[2].unit, Some("Jy".to_string()));
    assert_eq!(t.columns[2].scale, None);
    assert_eq!(
        t.data,
        vec![
            vec![TValue::String("alphx".to_string()), TValue::Int(12), TValue::Float(num("1.5E+03"))],
            vec![TValue::String("beta ".to_string()), TValue::Int(-7), TValue::Float(num("-2.5E1"))],
        ]
    );
}

#[test]
fn field_equal_to_null_text_is_null() {
    let mut h = head(3, 3, 1);
    h.extend(column(1, 1, "N", "I3"));
    h.push(text("TNULL1", "-99"));
    let data = b" 12-99-98";
    let t = table_of(Table::from_bytes(&Header(h), data).unwrap().0);
    assert_eq!(
        t.data,
        vec![vec![TValue::Int(12)], vec![TValue::Null], vec![TValue::Int(-98)]]
    );
    assert_eq!(t.columns[0].tnull, Some("-99".to_string()));
}

#[test]
fn field_that_only_starts_with_the_null_text_is_a_number() {
    let mut h = head(5, 1, 1);
    h.extend(column(1, 1, "N", "I5"));
    h.push(text("TNULL1", "-999"));
    let (d, used) = Table::from_bytes(&Header(h), b"-9990").unwrap();
    assert_eq!(used, 5);
    assert_eq!(table_of(d).data, vec![vec![TValue::Int(-9990)]]);
}

#[test]
fn null_text_in_a_wider_field_is_no_null() {
    let mut h = head(6, 3, 1);
    h.extend(column(1, 1, "N", "I6"));
    h.push(text("TNULL1", "-99"));
    let data = b"   -99-99     -990";
    let t = table_of(Table::from_bytes(&Header(h), data).unwrap().0);
    assert_eq!(
        t.data,
        vec![vec![TValue::Int(-99)], vec![TValue::Int(-99)], vec![TValue::Int(-990)]]
    );
}

#[test]
fn null_text_does_not_reach_into_the_next_field() {
    let mut h = head(4, 1, 2);
    h.extend(column(1, 1, "A", "A2"));
    h.extend(column(2, 3, "B", "A2"));
    h.push(text("TNULL1", "NULL"));
    h.push(text("TNULL2", "LL"));
    let t = table_of(Table::from_bytes(&Header(h), b"NULL").unwrap().0);
    assert_eq!(t.data, vec![vec![TValue::String("NU".to_string()), TValue::Null]]);
}

#[test]
fn null_text_wins_over_a_number() {
    let mut h = head(3, 2, 1);
    h.extend(column(1, 1, "N", "I3"));
    h.push(text("TNULL1", "123"));
    let t = table_of(Table::from_bytes(&Header(h), b"123124").unwrap().0);
    assert_eq!(t.data, vec![vec![TValue::Null], vec![TValue::Int(124)]]);
}

#[test]
fn null_text_that_is_no_number() {
    let mut h = head(4, 2, 1);
    h.extend(column(1, 1, "X", "F4.1"));
    h.push(text("TNULL1", "NULL"));
    let t = table_of(Table::from_bytes(&Header(h), b"NULL 1.5").unwrap().0);
    assert_eq!(t.data, vec![vec![TValue::Null], vec![TValue::Float(num("1.5"))]]);
}

#[test]
fn scaled_integer_column_is_read_as_integers() {
    let mut h = head(4, 1, 1);
    h.extend(column(1, 1, "N", "I4"));
    h.push(float("TSCAL1", "2.0"));
    let t = table_of(Table::from_bytes(&Header(h), b"  12").unwrap().0);
    assert_eq!(t.data, vec![vec![TValue::Int(12)]]);
    assert_eq!(t.columns[0].scale, Some(num("2.0")));
    assert_eq!(t.columns[0].zero, None);
}

#[test]
fn field_of_an_integer_column_must_hold_an_integer() {
    for scaled in [false, true] {
        let mut h = head(4, 1, 1);
        h.extend(column(1, 1, "N", "I4"));
        if scaled {
            h.push(float("TZERO1", "0.0"));
        }
        assert_eq!(
            Table::from_bytes(&Header(h.clone()), b" 1.5"),
            Err(generic("Invalid table value"))
        );
        assert_eq!(Table::from_bytes(&Header(h.clone()), b" 1e2"), Err(generic("Invalid table value")));
        assert_eq!(Table::from_bytes(&Header(h), b"    "), Err(generic("Invalid table value")));
    }
}

#[test]
fn real_column_gives_the_same_cells_with_and_without_unit_scale() {
    let mut plain = head(8, 2, 1);
    plain.extend(column(1, 1, "X", "F8.2"));
    let mut scaled = plain.clone();
    scaled.push(float("TSCAL1", "1.0"));
    scaled.push(float("TZERO1", "0.0"));
    let data = b"    1.25  -3.5e2";
    let a = table_of(Table::from_bytes(&Header(plain), data).unwrap().0);
    let b = table_of(Table::from_bytes(&Header(scaled), data).unwrap().0);
    assert_eq!(a.data, b.data);
    assert_eq!(a.data, vec![vec![TValue::Float(num("1.25"))], vec![TValue::Float(num("-3.5e2"))]]);
}

fn value_of(cell: &TValue, scale: f64, zero: f64) -> f64 {
    match cell {
        TValue::Int(n) => *n as f64 * scale + zero,
        TValue::Float(x) => x.text.parse::<f64>().unwrap() * scale + zero,
        _ => panic!("not a number"),
    }
}

#[test]
fn scale_one_and_zero_point_zero_leave_the_numbers_alone() {
    let mut plain = head(12, 3, 2);
    plain.extend(column(1, 1, "N", "I4"));
    plain.extend(column(2, 5, "X", "D8.2"));
    let mut scaled = plain.clone();
    for n in 1..=2 {
        scaled.push(float(&format!("TSCAL{}", n), "1.0"));
        scaled.push(float(&format!("TZERO{}", n), "0.0"));
    }
    let data = b"  12  1.5D+2 -34   -0.25   0     1e0";
    let a = table_of(Table::from_bytes(&Header(plain), data).unwrap().0);
    let b = table_of(Table::from_bytes(&Header(scaled), data).unwrap().0);
    let expected = [[12.0, 150.0], [-34.0, -0.25], [0.0, 1.0]];
    for r in 0..3 {
        for c in 0..2 {
            assert_eq!(value_of(&a.data[r][c], 1.0, 0.0), expected[r][c]);
            assert_eq!(value_of(&b.data[r][c], 1.0, 0.0), expected[r][c]);
        }
    }
    assert_eq!(a.data, b.data);
    assert_eq!(a.data[0], vec![TValue::Int(12), TValue::Float(num("1.5E+2"))]);
    assert_eq!(a.data[1][0], TValue::Int(-34));
    assert_eq!(a.nrows, b.nrows);
    assert_eq!(a.rowbytes, b.rowbytes);
}

#[test]
fn cells_are_the_same_whatever_the_scale() {
    let mut plain = head(9, 2, 3);
    plain.extend(column(1, 1, "N", "I3"));
    plain.extend(column(2, 4, "S", "A2"));
    plain.extend(column(3, 6, "X", "F4.1"));
    plain.push(text("TNULL1", "***"));
    let mut scaled = plain.clone();
    scaled.push(float("TSCAL1", "2.5"));
    scaled.push(float("TZERO3", "10.0"));
    let data = b" 42ab 2.5***cd-0.5";
    let (a, used_a) = Table::from_bytes(&Header(plain), data).unwrap();
    let (b, used_b) = Table::from_bytes(&Header(scaled), data).unwrap();
    assert_eq!(used_a, used_b);
    let (a, b) = (table_of(a), table_of(b));
    assert_eq!(a.data, b.data);
    assert_eq!(
        a.data,
        vec![
            vec![TValue::Int(42), TValue::String("ab".to_string()), TValue::Float(num("2.5"))],
            vec![TValue::Null, TValue::String("cd".to_string()), TValue::Float(num("-0.5"))],
        ]
    );
    assert_eq!(b.columns[0].scale, Some(num("2.5")));
    assert_eq!(b.columns[2].zero, Some(num("10.0")));
}

#[test]
fn special_numbers_are_reals() {
    let mut h = head(9, 3, 1);
    h.extend(column(1, 1, "X", "E9.2"));
    let t = table_of(Table::from_bytes(&Header(h), b"      nan     +Inf-INFINITY").unwrap().0);
    assert_eq!(
        t.data,
        vec![
            vec![TValue::Float(num("nan"))],
            vec![TValue::Float(num("+Inf"))],
            vec![TValue::Float(num("-INFINITY"))],
        ]
    );
    for row in t.data {
        match &row[0] {
            TValue::Float(x) => assert!(x.text.parse::<f64>().is_ok()),
            _ => panic!("not a real"),
        }
    }
}

#[test]
fn cell_errors() {
    let col = |tbcol: i64, form: FieldForm| Column {
        name: "C".to_string(),
        tbcol,
        form,
        tnull: None,
        tdisp: TDisp::Absent,
        scale: None,
        zero: None,
        unit: None,
        tdmin: None,
        tdmax: None,
        tlmin: None,
        tlmax: None,
    };
    let row = b"  12 abc";
    assert_eq!(read_cell(row, &col(1, FieldForm::Int(4))), Ok(TValue::Int(12)));
    assert_eq!(read_cell(row, &col(0, FieldForm::Int(4))), Err(generic("Invalid TBCOL value")));
    assert_eq!(read_cell(row, &col(-3, FieldForm::Int(4))), Err(generic("Invalid TBCOL value")));
    assert_eq!(
        read_cell(row, &col(6, FieldForm::Int(4))),
        Err(generic("Table field exceeds row"))
    );
    assert_eq!(
        read_cell(row, &col(10, FieldForm::Int(0))),
        Err(generic("Table field exceeds row"))
    );
    assert_eq!(
        read_cell(row, &col(i64::MAX, FieldForm::Int(1))),
        Err(generic("Table field exceeds row"))
    );
    assert_eq!(read_cell(row, &col(9, FieldForm::Char(0))), Ok(TValue::String(String::new())));
    assert_eq!(read_cell(row, &col(5, FieldForm::Int(4))), Err(generic("Invalid table value")));
    assert_eq!(
        read_cell(row, &col(5, FieldForm::FloatDec(4, 1))),
        Err(generic("Invalid table value"))
    );
    assert_eq!(read_cell(row, &col(5, FieldForm::Char(4))), Ok(TValue::String(" abc".to_string())));
    assert_eq!(
        read_cell(&[b'a', 0xe9], &col(1, FieldForm::Char(2))),
        Err(generic("Invalid table text"))
    );
    let mut with_null = col(7, FieldForm::Int(2));
    with_null.tnull = Some("bcd".to_string());
    assert_eq!(read_cell(row, &with_null), Err(generic("Invalid table value")));
    with_null.tnull = Some("b".to_string());
    assert_eq!(read_cell(row, &with_null), Err(generic("Invalid table value")));
    with_null.tnull = Some("bc".to_string());
    assert_eq!(read_cell(row, &with_null), Ok(TValue::Null));
    let mut past_row = col(8, FieldForm::Int(2));
    past_row.tnull = Some("c".to_string());
    assert_eq!(read_cell(row, &past_row), Err(generic("Table field exceeds row")));
}

#[test]
fn first_bad_cell_fails_the_table() {
    let mut h = head(4, 2, 2);
    h.extend(column(1, 1, "A", "I2"));
    h.extend(column(2, 3, "B", "I2"));
    assert_eq!(
        Table::from_bytes(&Header(h.clone()), b" 1 2 3xx"),
        Err(generic("Invalid table value"))
    );
    assert!(Table::from_bytes(&Header(h), b" 1 2 3 4").is_ok());
}

#[test]
fn short_data_is_reported() {
    let mut h = head(4, 2, 1);
    h.extend(column(1, 1, "A", "I4"));
    assert_eq!(
        Table::from_bytes(&Header(h), b"   1   "),
        Err(generic("Table data is too short"))
    );
    let mut h = head(i64::MAX, i64::MAX, 1);
    h.extend(column(1, 1, "A", "I4"));
    assert_eq!(Table::from_bytes(&Header(h), b"   1"), Err(generic("Table data is too short")));
}

#[test]
fn empty_table() {
    let h = head(0, 0, 0);
    let (d, used) = Table::from_bytes(&Header(h), b"rest").unwrap();
    assert_eq!(used, 0);
    let t = table_of(d);
    assert!(t.columns.is_empty());
    assert!(t.data.is_empty());
    let mut h = head(4, 0, 1);
    h.extend(column(1, 9, "A", "I4"));
    let t = table_of(Table::from_bytes(&Header(h), b"").unwrap().0);
    assert_eq!(t.columns.len(), 1);
    assert!(t.data.is_empty());
}

#[test]
fn required_keywords_stand_at_their_positions() {
    let good = head(4, 1, 0);
    assert!(Table::from_bytes(&Header(good.clone()), b"    ").is_ok());
    let names = ["XTENSION", "BITPIX", "NAXIS", "NAXIS1", "NAXIS2", "PCOUNT", "GCOUNT", "TFIELDS"];
    for i in 1..8 {
        let mut short = good.clone();
        short.truncate(i);
        assert_eq!(
            Table::from_bytes(&Header(short), b"    "),
            Err(FITSError::MissingKeyword(names[i].to_string()))
        );
    }
    for i in 1..7 {
        let mut swapped = good.clone();
        swapped.swap(i, i + 1);
        assert_eq!(
            Table::from_bytes(&Header(swapped), b"    "),
            Err(FITSError::InvalidKeywordPlacement(
                format!("{} not {}", names[i + 1], names[i]),
                i
            ))
        );
    }
}

#[test]
fn required_values() {
    let check = |i: usize, v: i64, name: &str| {
        let mut h = head(4, 1, 0);
        h[i] = whole(name, v);
        assert_eq!(
            Table::from_bytes(&Header(h), b"    "),
            Err(generic(&format!("Invalid value for keyword {}", name)))
        );
    };
    check(1, 16, "BITPIX");
    check(2, 3, "NAXIS");
    check(5, 1, "PCOUNT");
    check(6, 2, "GCOUNT");
    let mut h = head(4, 1, 0);
    h[3] = whole("NAXIS1", -4);
    assert_eq!(
        Table::from_bytes(&Header(h), b"    "),
        Err(FITSError::UnexpectedKeywordValue("NAXIS1".to_string(), KeywordValue::Int(-4)))
    );
    let mut h = head(4, 1, 0);
    h[7] = text("TFIELDS", "0");
    assert_eq!(
        Table::from_bytes(&Header(h), b"    "),
        Err(FITSError::UnexpectedValueType("TFIELDS".to_string()))
    );
}

#[test]
fn column_keywords() {
    let base = || {
        let mut h = head(4, 1, 1);
        h.extend(column(1, 1, "A", "I4"));
        h
    };
    let without = |name: &str| {
        let mut h = base();
        h.retain(|k| k.name != name);
        Table::from_bytes(&Header(h), b"   1")
    };
    assert_eq!(without("TBCOL1"), Err(generic("Missing or incorrect TBCOL keyword in table")));
    assert_eq!(without("TTYPE1"), Err(generic("Missing or incorrect TTYPE keyword in table")));
    assert_eq!(without("TFORM1"), Err(generic("Missing TFORM keyword")));
    let with = |k: Keyword| {
        let mut h = base();
        h.push(k);
        Table::from_bytes(&Header(h), b"   1")
    };
    assert_eq!(with(whole("TNULL1", 0)), Err(generic("Invalid TNULL value")));
    assert_eq!(with(whole("TSCAL1", 1)), Err(generic("Invalid TSCAL value")));
    assert_eq!(with(whole("TZERO1", 0)), Err(generic("Invalid TZERO value")));
    assert_eq!(with(whole("TUNIT1", 0)), Err(generic("Invalid TUNIT value")));
    assert_eq!(with(whole("TDMIN1", 0)), Err(generic("Invalid TDMIN value")));
    assert_eq!(with(whole("TDMAX1", 0)), Err(generic("Invalid TDMAX value")));
    assert_eq!(with(whole("TLMIN1", 0)), Err(generic("Invalid TLMIN value")));
    assert_eq!(with(whole("TLMAX1", 0)), Err(generic("Invalid TLMAX value")));
    assert_eq!(with(text("TDISP1", "Q")), Err(generic("Invalid TDISP value")));
    let t = table_of(with(float("TDMIN1", "-1.")).unwrap().0);
    assert_eq!(t.columns[0].tdmin, Some(num("-1.")));
    let t = table_of(with(float("TLMAX1", "9.")).unwrap().0);
    assert_eq!(t.columns[0].tlmax, Some(num("9.")));
}
