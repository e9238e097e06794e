use fits_rs::{
    BinTableValue, Bitpix, FITSError, HDUData, KeywordValue, Pixel, TValue, FITS, HDU,
};

fn header(records: &[&str]) -> Vec<u8> {
    let mut bytes = Vec::new();
    for r in records {
        let mut rec = r.as_bytes().to_vec();
        assert!(rec.len() <= 80);
        rec.resize(80, b' ');
        bytes.extend(rec);
    }
    while bytes.len() % 2880 != 0 {
        bytes.push(b' ');
    }
    bytes
}

fn padded(mut bytes: Vec<u8>) -> Vec<u8> {
    while bytes.len() % 2880 != 0 {
        bytes.push(0);
    }
    bytes
}

fn card(name: &str, value: &str) -> String {
    format!("{:<8}= {:>20}", name, value)
}

fn image_unit() -> Vec<u8> {
    let mut unit = header(&[
        &card("SIMPLE", "T"),
        &card("BITPIX", "16"),
        &card("NAXIS", "2"),
        &card("NAXIS1", "2"),
        &card("NAXIS2", "1"),
        "COMMENT a remark",
        "END",
    ]);
    unit.extend(padded(vec![0x00, 0x01, 0x00, 0x02]));
    unit
}

fn table_unit() -> Vec<u8> {
    let mut unit = header(&[
        "XTENSION= 'TABLE   '",
        &card("BITPIX", "8"),
        &card("NAXIS", "2"),
        &card("NAXIS1", "6"),
        &card("NAXIS2", "2"),
        &card("PCOUNT", "0"),
        &card("GCOUNT", "1"),
        &card("TFIELDS", "2"),
        &card("TBCOL1", "1"),
        "TTYPE1  = 'N       '",
        "TFORM1  = 'I3      '",
        &card("TBCOL2", "4"),
        "TTYPE2  = 'S       '",
        "TFORM2  = 'A3      '",
        "END",
    ]);
    unit.extend(padded(b" 12abc-34xyz".to_vec()));
    unit
}

fn bintable_unit() -> Vec<u8> {
    let mut unit = header(&[
        "XTENSION= 'BINTABLE'",
        &card("BITPIX", "8"),
        &card("NAXIS", "2"),
        &card("NAXIS1", "3"),
        &card("NAXIS2", "2"),
        &card("PCOUNT", "0"),
        &card("GCOUNT", "1"),
        &card("TFIELDS", "2"),
        "TFORM1  = 'B       '",
        "TFORM2  = 'I       '",
        "END",
    ]);
    unit.extend(padded(vec![7, 0x01, 0x00, 8, 0xff, 0xff]));
    unit
}

#[test]
fn primary_image_unit() {
    let bytes = image_unit();
    let (hdu, used) = HDU::from_bytes(&bytes).unwrap();
    assert_eq!(used, 5760);
    assert_eq!(used % 2880, 0);
    assert_eq!(hdu.header.len(), 7);
    assert_eq!(hdu.header.get(0).unwrap().name, "SIMPLE");
    assert_eq!(hdu.header.get(6).unwrap().name, "END");
    assert_eq!(hdu.value("BITPIX"), Some(&KeywordValue::Int(16)));
    assert_eq!(hdu.value("NOPE"), None);
    match hdu.data {
        HDUData::Image(img) => {
            assert_eq!(img.pixeltype, Bitpix::Int16);
            assert_eq!(img.at(&[0, 0]), Pixel::Int16(1));
            assert_eq!(img.at(&[1, 0]), Pixel::Int16(2));
        }
        _ => panic!("no image"),
    }
}

#[test]
fn unit_size_is_a_whole_number_of_blocks() {
    for n in [1usize, 2879, 2880, 2881, 5760] {
        let mut unit = header(&[
            &card("SIMPLE", "T"),
            &card("BITPIX", "8"),
            &card("NAXIS", "1"),
            &card("NAXIS1", &n.to_string()),
            "END",
        ]);
        unit.extend(vec![1u8; n]);
        let (_, used) = HDU::from_bytes(&unit).unwrap();
        assert_eq!(used % 2880, 0);
        assert!(used >= 2880 + n);
        assert!(used < 2880 + n + 2880);
    }
}

#[test]
fn header_only_unit() {
    let bytes = header(&[&card("SIMPLE", "T"), &card("BITPIX", "8"), &card("NAXIS", "0"), "END"]);
    let (hdu, used) = HDU::from_bytes(&bytes).unwrap();
    assert_eq!(used, 2880);
    assert_eq!(hdu.data, HDUData::Absent);
}

#[test]
fn header_of_two_blocks() {
    let mut records = vec![card("SIMPLE", "T"), card("BITPIX", "8"), card("NAXIS", "0")];
    for i in 0..40 {
        records.push(card(&format!("KEY{}", i), &i.to_string()));
    }
    records.push("END".to_string());
    records.push(card("AFTER", "1"));
    let refs: Vec<&str> = records.iter().map(|s| s.as_str()).collect();
    let bytes = header(&refs);
    assert_eq!(bytes.len(), 5760);
    let (hdu, used) = HDU::from_bytes(&bytes).unwrap();
    assert_eq!(used, 5760);
    assert_eq!(hdu.header.len(), 44);
    assert_eq!(hdu.header.get(43).unwrap().name, "END");
    assert_eq!(hdu.value("KEY39"), Some(&KeywordValue::Int(39)));
    assert_eq!(hdu.value("AFTER"), None);
}

#[test]
fn blank_records_are_left_out() {
    let bytes = header(&[&card("SIMPLE", "T"), "", &card("BITPIX", "8"), "", "END"]);
    let r = HDU::from_bytes(&bytes);
    assert_eq!(
        r,
        Err(FITSError::InvalidKeywordPlacement("END not NAXIS".to_string(), 2))
    );
    let bytes = header(&[&card("SIMPLE", "T"), "", &card("BITPIX", "8"), "", &card("NAXIS", "0"), "END"]);
    let (hdu, _) = HDU::from_bytes(&bytes).unwrap();
    assert_eq!(hdu.header.len(), 4);
}

#[test]
fn header_without_end_is_refused() {
    let bytes = header(&[&card("SIMPLE", "T"), &card("BITPIX", "8"), &card("NAXIS", "0")]);
    assert_eq!(HDU::from_bytes(&bytes), Err(FITSError::InvalidHeader));
}

#[test]
fn short_block_is_refused() {
    assert_eq!(HDU::from_bytes(&[]), Err(FITSError::InvalidHeader));
    let mut bytes = header(&[&card("SIMPLE", "T"), "END"]);
    bytes.truncate(2879);
    assert_eq!(HDU::from_bytes(&bytes), Err(FITSError::InvalidHeader));
}

#[test]
fn bad_record_behind_end_in_its_block_is_reported() {
    let bytes = header(&[&card("SIMPLE", "T"), "END", "bad"]);
    assert_eq!(
        HDU::from_bytes(&bytes),
        Err(FITSError::InvalidCharacterInKeyword("bad     ".to_string()))
    );
}

#[test]
fn unit_of_another_first_keyword_has_no_data() {
    let mut bytes = header(&[&card("OTHER", "T"), "END"]);
    bytes.extend(vec![1u8; 2880]);
    let (hdu, used) = HDU::from_bytes(&bytes).unwrap();
    assert_eq!(used, 2880);
    assert_eq!(hdu.data, HDUData::Absent);
}

#[test]
fn unknown_extension_is_reported() {
    let bytes = header(&["XTENSION= 'FOREIGN '", "END"]);
    assert_eq!(
        HDU::from_bytes(&bytes),
        Err(FITSError::UnsupportedExtension("FOREIGN".to_string()))
    );
    let bytes = header(&[&card("XTENSION", "5"), "END"]);
    assert_eq!(
        HDU::from_bytes(&bytes),
        Err(FITSError::UnsupportedExtension("Extension Value not a string".to_string()))
    );
}

#[test]
fn image_extension_unit() {
    let mut bytes = header(&[
        "XTENSION= 'IMAGE   '",
        &card("BITPIX", "8"),
        &card("NAXIS", "1"),
        &card("NAXIS1", "3"),
        &card("PCOUNT", "0"),
        &card("GCOUNT", "1"),
        "END",
    ]);
    bytes.extend(padded(vec![1, 2, 3]));
    let (hdu, used) = HDU::from_bytes(&bytes).unwrap();
    assert_eq!(used, 5760);
    match hdu.data {
        HDUData::Image(img) => assert_eq!(img.rawbytes, vec![1, 2, 3]),
        _ => panic!("no image"),
    }
}

#[test]
fn table_unit_is_decoded() {
    let (hdu, used) = HDU::from_bytes(&table_unit()).unwrap();
    assert_eq!(used, 5760);
    match hdu.data {
        HDUData::Table(t) => {
            assert_eq!(
                t.data,
                vec![
                    vec![TValue::Int(12), TValue::String("abc".to_string())],
                    vec![TValue::Int(-34), TValue::String("xyz".to_string())],
                ]
            );
        }
        _ => panic!("no table"),
    }
}

#[test]
fn bintable_unit_is_decoded() {
    let (hdu, used) = HDU::from_bytes(&bintable_unit()).unwrap();
    assert_eq!(used, 5760);
    match hdu.data {
        HDUData::BinTable(t) => {
            assert_eq!(t.at(0, 0), Ok(BinTableValue::UnsignedByte(7)));
            assert_eq!(t.at(0, 1), Ok(BinTableValue::Int16(256)));
            assert_eq!(t.at(1, 1), Ok(BinTableValue::Int16(-1)));
        }
        _ => panic!("no binary table"),
    }
}

#[test]
fn data_shorter_than_announced_is_reported() {
    let mut bytes = image_unit();
    bytes.truncate(2880 + 3);
    assert_eq!(HDU::from_bytes(&bytes), Err(FITSError::InvalidDataSize(4, 3)));
}

#[test]
fn size_may_pass_the_end_of_the_bytes() {
    let mut bytes = image_unit();
    bytes.truncate(2880 + 4);
    let (_, used) = HDU::from_bytes(&bytes).unwrap();
    assert_eq!(used, 5760);
    let fits = FITS::from_bytes(&bytes).unwrap();
    assert_eq!(fits.len(), 1);
}

#[test]
fn file_of_three_units() {
    let mut bytes = image_unit();
    bytes.extend(table_unit());
    bytes.extend(bintable_unit());
    let fits = FITS::from_bytes(&bytes).unwrap();
    assert_eq!(fits.len(), 3);
    assert!(matches!(fits.at(0).unwrap().data, HDUData::Image(_)));
    assert!(matches!(fits.at(1).unwrap().data, HDUData::Table(_)));
    assert!(matches!(fits.index(2).data, HDUData::BinTable(_)));
    assert_eq!(
        fits.at(3).err(),
        Some(FITSError::GenericError("Index out of bounds".to_string()))
    );
}

#[test]
fn empty_file_has_no_units() {
    let fits = FITS::from_bytes(&[]).unwrap();
    assert_eq!(fits.len(), 0);
    assert_eq!(FITS::new().len(), 0);
    assert_eq!(FITS::default(), FITS::new());
}

#[test]
fn bad_unit_fails_the_file() {
    let mut bytes = image_unit();
    bytes.extend(header(&["XTENSION= 'FOREIGN '", "END"]));
    bytes.extend(table_unit());
    assert_eq!(
        FITS::from_bytes(&bytes).err(),
        Some(FITSError::UnsupportedExtension("FOREIGN".to_string()))
    );
    let mut bytes = image_unit();
    bytes.extend(vec![b' '; 100]);
    assert_eq!(FITS::from_bytes(&bytes).err(), Some(FITSError::InvalidHeader));
}

#[test]
fn default_unit_is_empty() {
    let hdu = HDU::default();
    assert!(hdu.header.is_empty());
    assert_eq!(hdu.data, HDUData::Absent);
}
