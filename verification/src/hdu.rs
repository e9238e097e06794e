//! Header-data units: a header and the data that it announces.

use crate::bintable::{BinTable, bintable_decoded, bintable_of};
use crate::errors::{ErrorView, FITSError};
use crate::header::{FITSBlock, Header, block_records, position_of};
use crate::image::{Image, image_decoded, image_plan};
use crate::keyword::{KeywordValue, KeywordView, ValueView};
use crate::strings::str_eq;
use crate::table::{Table, table_decoded, table_of};
use crate::types::HDUData;
use vstd::prelude::*;
use vstd::slice::slice_subrange;

verus! {

/// A header and data unit, which is made of a header and, where the header
/// announces some, of data: an image or a table.
#[derive(Debug, PartialEq, Clone)]
pub struct HDU {
    pub header: Header,
    pub data: HDUData,
}

impl Default for HDU {
    fn default() -> (r: Self)
        ensures
            r.header@ == Seq::<KeywordView>::empty(),
            r.data is Absent,
    {
        HDU { header: Header::new(), data: HDUData::Absent }
    }
}

/// The keywords among `recs` that have a name, in order.
pub open spec fn named(recs: Seq<KeywordView>) -> Seq<KeywordView>
    decreases recs.len(),
{
    if recs.len() == 0 {
        Seq::empty()
    } else if recs.last().name.len() > 0 {
        named(recs.drop_last()).push(recs.last())
    } else {
        named(recs.drop_last())
    }
}

/// The header that starts at block `n` of `bytes`, behind the keywords
/// `acc` of the blocks before it, and the number of blocks that the header
/// takes in all.
///
/// A block must be there in full, and each of its 36 records must decode.
/// The header ends with the first keyword named `END`, which is kept; what
/// follows in its block is not. Records with a blank name are left out.
pub open spec fn scan_from(bytes: Seq<u8>, n: int, acc: Seq<KeywordView>) -> Result<
    (Seq<KeywordView>, int),
    ErrorView,
>
    decreases bytes.len() - 2880 * n,
{
    if bytes.len() < 2880 * (n + 1) {
        Err(ErrorView::InvalidHeader)
    } else {
        match block_records(bytes.subrange(2880 * n, 2880 * (n + 1))) {
            Err(e) => Err(e),
            Ok(recs) => {
                let end = position_of(recs, "END"@, 0);
                if end < recs.len() {
                    Ok((acc + named(recs.subrange(0, end + 1)), n + 1))
                } else {
                    scan_from(bytes, n + 1, acc + named(recs))
                }
            },
        }
    }
}

/// The header at the start of `bytes` and the number of blocks that it
/// takes.
pub open spec fn scan_header(bytes: Seq<u8>) -> Result<(Seq<KeywordView>, int), ErrorView> {
    scan_from(bytes, 0, Seq::empty())
}

/// The kinds of data that a header can announce.
pub enum UnitKind {
    Image,
    Table,
    BinTable,
    /// No data.
    Plain,
}

/// The kind of data that a header announces by its first keyword: `SIMPLE`
/// an image, `XTENSION` what its value names, any other none.
pub open spec fn kind_of(h: Seq<KeywordView>) -> Result<UnitKind, ErrorView> {
    if h.len() == 0 {
        Ok(UnitKind::Plain)
    } else if h[0].name == "SIMPLE"@ {
        Ok(UnitKind::Image)
    } else if h[0].name == "XTENSION"@ {
        match h[0].value {
            ValueView::String(s) => if s == "IMAGE"@ {
                Ok(UnitKind::Image)
            } else if s == "TABLE"@ {
                Ok(UnitKind::Table)
            } else if s == "BINTABLE"@ {
                Ok(UnitKind::BinTable)
            } else {
                Err(ErrorView::UnsupportedExtension(s))
            },
            _ => Err(ErrorView::UnsupportedExtension("Extension Value not a string"@)),
        }
    } else {
        Ok(UnitKind::Plain)
    }
}

/// `n` rounded up to a whole number of blocks.
pub open spec fn padded(n: int) -> int {
    if n % 2880 == 0 {
        n
    } else {
        n + 2880 - n % 2880
    }
}

/// The number of bytes that the data of a unit take, as its header says
/// it, or the error that decoding the data gives.
pub open spec fn payload_size(kind: UnitKind, h: Seq<KeywordView>, data: Seq<u8>) -> Result<
    usize,
    ErrorView,
> {
    match kind {
        UnitKind::Image => match image_plan(h, data.len()) {
            Err(e) => Err(e),
            Ok(None) => Ok(0usize),
            Ok(Some(p)) => Ok(p.nbytes),
        },
        UnitKind::Table => match table_of(h, data) {
            Err(e) => Err(e),
            Ok((_, n)) => Ok(n),
        },
        UnitKind::BinTable => match bintable_of(h, data) {
            Err(e) => Err(e),
            Ok((_, n)) => Ok(n),
        },
        UnitKind::Plain => Ok(0usize),
    }
}

/// Whether `p` is what decoding the data of a unit of the given kind
/// gives.
pub open spec fn payload_decoded(
    p: Result<(HDUData, usize), FITSError>,
    kind: UnitKind,
    h: Seq<KeywordView>,
    data: Seq<u8>,
) -> bool {
    match kind {
        UnitKind::Image => image_decoded(p, image_plan(h, data.len()), data),
        UnitKind::Table => table_decoded(p, table_of(h, data)),
        UnitKind::BinTable => bintable_decoded(p, bintable_of(h, data)),
        UnitKind::Plain => p is Ok && p->Ok_0.0 is Absent && p->Ok_0.1 == 0,
    }
}

/// The number of bytes that the unit at the start of `bytes` takes: its
/// header blocks and its data, rounded up to a whole number of blocks; or
/// the error that decoding the unit gives.
#[verifier::opaque]
pub open spec fn unit_size(bytes: Seq<u8>) -> Result<usize, ErrorView> {
    match scan_header(bytes) {
        Err(e) => Err(e),
        Ok((h, nblocks)) => match kind_of(h) {
            Err(e) => Err(e),
            Ok(kind) => match payload_size(kind, h, bytes.skip(2880 * nblocks)) {
                Err(e) => Err(e),
                Ok(n) => if padded(2880 * nblocks + n) <= usize::MAX {
                    Ok(padded(2880 * nblocks + n) as usize)
                } else {
                    Err(ErrorView::InvalidDataSize(usize::MAX, bytes.len() as usize))
                },
            },
        },
    }
}

/// Whether `hdu` is the unit at the start of `bytes`: its header is the
/// header scanned there, and its data are what decoding the bytes behind
/// the header gives.
#[verifier::opaque]
pub open spec fn unit_shows(hdu: HDU, bytes: Seq<u8>) -> bool {
    let scanned = scan_header(bytes);
    let h = scanned->Ok_0.0;
    let hbytes = 2880 * scanned->Ok_0.1;
    let kind = kind_of(h);
    let data = bytes.skip(hbytes);
    let size = payload_size(kind->Ok_0, h, data);
    &&& scanned is Ok
    &&& kind is Ok
    &&& size is Ok
    &&& hdu.header@ == h
    &&& payload_decoded(Ok((hdu.data, size->Ok_0)), kind->Ok_0, h, data)
}

/// Whether `r` is what decoding the unit at the start of `bytes` gives: the
/// unit and its size, or the error.
pub open spec fn unit_decoded(r: Result<(HDU, usize), FITSError>, bytes: Seq<u8>) -> bool {
    match unit_size(bytes) {
        Err(e) => r is Err && r->Err_0@ == e,
        Ok(n) => r is Ok && r->Ok_0.1 == n && unit_shows(r->Ok_0.0, bytes),
    }
}

/// The size of a unit is a whole number of blocks, and not less than its
/// header and its data take.
pub proof fn lemma_padded(n: int)
    ensures
        padded(n) % 2880 == 0,
        n <= padded(n) < n + 2880,
{
}

/// The size of a unit is a whole number of blocks of 2880 bytes, and not
/// less than the blocks of its header and the bytes of its data take
/// together.
pub proof fn lemma_unit_size_covers(bytes: Seq<u8>)
    requires
        unit_size(bytes) is Ok,
    ensures
        unit_size(bytes)->Ok_0 % 2880 == 0,
        scan_header(bytes) is Ok,
        kind_of(scan_header(bytes)->Ok_0.0) is Ok,
        payload_size(
            kind_of(scan_header(bytes)->Ok_0.0)->Ok_0,
            scan_header(bytes)->Ok_0.0,
            bytes.skip(2880 * scan_header(bytes)->Ok_0.1),
        ) is Ok,
        unit_size(bytes)->Ok_0 >= 2880 * scan_header(bytes)->Ok_0.1 + payload_size(
            kind_of(scan_header(bytes)->Ok_0.0)->Ok_0,
            scan_header(bytes)->Ok_0.0,
            bytes.skip(2880 * scan_header(bytes)->Ok_0.1),
        )->Ok_0,
{
    reveal(unit_size);
    let scanned = scan_header(bytes)->Ok_0;
    let size = payload_size(kind_of(scanned.0)->Ok_0, scanned.0, bytes.skip(2880 * scanned.1));
    lemma_scan_bounds(bytes, 0, Seq::empty());
    lemma_padded(2880 * scanned.1 + size->Ok_0);
}

/// A scanned header takes at least one block, and `bytes` holds its
/// blocks.
pub proof fn lemma_scan_bounds(bytes: Seq<u8>, n: int, acc: Seq<KeywordView>)
    requires
        0 <= n,
    ensures
        scan_from(bytes, n, acc) is Ok ==> n < scan_from(bytes, n, acc)->Ok_0.1 && 2880
            * scan_from(bytes, n, acc)->Ok_0.1 <= bytes.len(),
    decreases bytes.len() - 2880 * n,
{
    if bytes.len() >= 2880 * (n + 1) {
        match block_records(bytes.subrange(2880 * n, 2880 * (n + 1))) {
            Err(e) => {},
            Ok(recs) => {
                let end = position_of(recs, "END"@, 0);
                if end >= recs.len() {
                    lemma_scan_bounds(bytes, n + 1, acc + named(recs));
                }
            },
        }
    }
}

/// Scans the header at the start of `rawbytes`.
fn scan(rawbytes: &[u8]) -> (r: Result<(Header, usize), FITSError>)
    ensures
        match r {
            Ok((h, n)) => scan_header(rawbytes@) is Ok && scan_header(rawbytes@)->Ok_0.0 == h@
                && n == 2880 * scan_header(rawbytes@)->Ok_0.1 && n <= rawbytes@.len(),
            Err(e) => scan_header(rawbytes@) == Err::<(Seq<KeywordView>, int), ErrorView>(e@),
        },
{
    let len: usize = rawbytes.len();
    let mut header = Header::new();
    let mut start: usize = 0;
    let ghost mut n: int = 0;
    loop
        invariant
            len == rawbytes@.len(),
            0 <= n,
            start == 2880 * n,
            start <= len,
            scan_header(rawbytes@) == scan_from(rawbytes@, n, header@),
        decreases len - start,
    {
        if len - start < 2880 {
            return Err(FITSError::InvalidHeader);
        }
        let block = match FITSBlock::from_bytes(slice_subrange(rawbytes, start, start + 2880)) {
            Ok(b) => b,
            Err(e) => {
                return Err(e);
            },
        };
        let ghost recs = block@;
        let ghost before = header@;
        let mut found = false;
        let mut j: usize = 0;
        proof {
            assert(recs.subrange(0, 0) =~= Seq::<KeywordView>::empty());
        }
        while j < 36 && !found
            invariant
                j <= 36,
                recs == block@,
                block.0@.len() == 36,
                header@ == before + named(recs.subrange(0, j as int)),
                !found ==> position_of(recs, "END"@, 0) == position_of(recs, "END"@, j as int),
                found ==> j > 0 && position_of(recs, "END"@, 0) == j - 1,
            decreases 36 - j + (if found { 0int } else { 1int }),
        {
            let keyword = &block.0[j];
            proof {
                assert(recs.subrange(0, j + 1).drop_last() =~= recs.subrange(0, j as int));
                assert(recs.subrange(0, j + 1).last() == keyword@);
            }
            if !keyword.name.as_str().is_empty() {
                header.push(keyword.clone());
                proof {
                    assert(header@ =~= before + named(recs.subrange(0, j + 1)));
                }
            }
            if str_eq(keyword.name.as_str(), "END") {
                found = true;
            }
            j += 1;
        }
        start = start + 2880;
        proof {
            n = n + 1;
            assert(recs.subrange(0, 36) =~= recs);
        }
        if found {
            return Ok((header, start));
        }
    }
}

/// What decoding the data of a unit gives, given its header: the error of
/// a first keyword that names no kind of data that is decoded here, or what
/// decoding data of the kind gives.
pub open spec fn data_decoded(
    r: Result<(HDUData, usize), FITSError>,
    h: Seq<KeywordView>,
    data: Seq<u8>,
) -> bool {
    match kind_of(h) {
        Err(e) => r is Err && r->Err_0@ == e,
        Ok(kind) => payload_decoded(r, kind, h, data) && (match payload_size(kind, h, data) {
            Err(e) => r is Err && r->Err_0@ == e,
            Ok(n) => r is Ok && r->Ok_0.1 == n && n <= data.len(),
        }),
    }
}

/// Decodes the data that a header announces from the bytes behind the
/// header.
fn decode_data(header: &Header, data: &[u8]) -> (r: Result<(HDUData, usize), FITSError>)
    ensures
        data_decoded(r, header@, data@),
{
    match header.get(0) {
        None => Ok((HDUData::Absent, 0usize)),
        Some(first) => {
            if str_eq(first.name.as_str(), "SIMPLE") {
                Image::from_bytes(header, data)
            } else if str_eq(first.name.as_str(), "XTENSION") {
                match &first.value {
                    KeywordValue::String(value) => {
                        if str_eq(value.as_str(), "IMAGE") {
                            Image::from_bytes(header, data)
                        } else if str_eq(value.as_str(), "TABLE") {
                            Table::from_bytes(header, data)
                        } else if str_eq(value.as_str(), "BINTABLE") {
                            BinTable::from_bytes(header, data)
                        } else {
                            Err(FITSError::UnsupportedExtension(value.clone()))
                        }
                    },
                    _ => Err(
                        FITSError::UnsupportedExtension("Extension Value not a string".to_owned()),
                    ),
                }
            } else {
                Ok((HDUData::Absent, 0usize))
            }
        },
    }
}

impl HDU {
    /// The value of the first keyword named `key`.
    pub fn value(&self, key: &str) -> (r: Option<&KeywordValue>)
        ensures
            match r {
                Some(v) => crate::header::value_of(self.header@, key@) == Some(v@),
                None => crate::header::value_of(self.header@, key@) is None,
            },
    {
        self.header.value(key)
    }

    /// Decodes the unit at the start of `rawbytes`. Gives the unit and the
    /// number of bytes that it takes, which is a whole number of blocks of
    /// 2880 bytes.
    pub fn from_bytes(rawbytes: &[u8]) -> (r: Result<(Self, usize), FITSError>)
        ensures
            unit_decoded(r, rawbytes@),
            r is Ok ==> r->Ok_0.1 % 2880 == 0 && r->Ok_0.1 >= 2880,
            r is Ok ==> r->Ok_0.0.data.wf(),
    {
        reveal(unit_size);
        reveal(unit_shows);
        let len: usize = rawbytes.len();
        let (header, hbytes) = match scan(rawbytes) {
            Ok(s) => s,
            Err(e) => {
                return Err(e);
            },
        };
        proof {
            lemma_scan_bounds(rawbytes@, 0, Seq::empty());
        }
        let data = slice_subrange(rawbytes, hbytes, len);
        assert(data@ =~= rawbytes@.skip(hbytes as int));
        let (payload, nbytes) = match decode_data(&header, data) {
            Ok(p) => p,
            Err(e) => {
                return Err(e);
            },
        };
        let mut offset = hbytes + nbytes;
        if offset % 2880 != 0 {
            let pad = 2880 - offset % 2880;
            if pad > usize::MAX - offset {
                return Err(FITSError::InvalidDataSize(usize::MAX, len));
            }
            offset = offset + pad;
        }
        Ok((HDU { header, data: payload }, offset))
    }
}

} // verus!
