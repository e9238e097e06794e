//! Images: the pixels of a header-data unit, in the byte order of the
//! machine.

use crate::endian::{
    be_value, holds, lemma_last_group_tells_order, order_value, read_be, read_le,
};
use crate::errors::{ErrorView, FITSError, outcome};
use crate::header::Header;
use crate::keyword::{KeywordValue, KeywordView, ValueView};
use crate::strings::{numbered, numbered_name, str_eq};
use crate::types::{Bitpix, HDUData};
use crate::utils::{get_keyword_int_at_index, in_place, int_at, not_in_place};
use crate::wcs::{WCS, WcsView, wcs_of, wcs_outcome};
use vstd::prelude::*;
use vstd::slice::{slice_subrange, slice_to_vec};

verus! {

/// One pixel. A floating-point pixel is held as the bits of its number.
#[derive(Debug, Clone, Copy, PartialEq, Eq, Structural)]
pub enum Pixel {
    Int8(u8),
    Int16(u16),
    Int32(u32),
    Int64(u64),
    Float32(u32),
    Float64(u64),
}

impl Pixel {
    /// The type of the pixel.
    pub open spec fn kind(self) -> Bitpix {
        match self {
            Pixel::Int8(_) => Bitpix::Int8,
            Pixel::Int16(_) => Bitpix::Int16,
            Pixel::Int32(_) => Bitpix::Int32,
            Pixel::Int64(_) => Bitpix::Int64,
            Pixel::Float32(_) => Bitpix::Float32,
            Pixel::Float64(_) => Bitpix::Float64,
        }
    }

    /// The pixel as a number: its value where it is an integer, its bits
    /// where it is not.
    pub open spec fn bits(self) -> nat {
        match self {
            Pixel::Int8(v) => v as nat,
            Pixel::Int16(v) => v as nat,
            Pixel::Int32(v) => v as nat,
            Pixel::Int64(v) => v as nat,
            Pixel::Float32(v) => v as nat,
            Pixel::Float64(v) => v as nat,
        }
    }
}

/// An image: pixels on a grid of any number of axes.
///
/// `rawbytes` holds the pixels one after the other, the first axis varying
/// fastest. Decoding lays them out in the byte order of the machine, and
/// `big_endian` says which that is.
#[derive(Debug, PartialEq, Clone)]
pub struct Image {
    pub pixeltype: Bitpix,
    pub axes: Vec<usize>,
    pub rawbytes: Vec<u8>,
    /// Whether `rawbytes` holds the most significant byte of each pixel
    /// first.
    pub big_endian: bool,
    pub wcs: Option<WCS>,
    pub gcount: usize,
    pub pcount: usize,
}

/// The product of the numbers of `s`.
pub open spec fn product(s: Seq<usize>) -> nat
    decreases s.len(),
{
    if s.len() == 0 {
        1
    } else {
        product(s.drop_last()) * s.last() as nat
    }
}

/// The number of pixels of an image with the given axes; none where it has
/// no axis.
pub open spec fn pixel_count(axes: Seq<usize>) -> nat {
    if axes.len() == 0 {
        0
    } else {
        product(axes)
    }
}

/// The place of the pixel at `loc` in the row of all pixels, the first axis
/// varying fastest.
pub open spec fn linear(loc: Seq<usize>, axes: Seq<usize>) -> nat
    decreases loc.len(),
{
    if loc.len() == 0 {
        0
    } else {
        linear(loc.drop_last(), axes) + loc.last() as nat * product(
            axes.subrange(0, loc.len() - 1),
        )
    }
}

/// The `k`-th group of `width` bytes of `s`.
pub open spec fn group(s: Seq<u8>, k: int, width: int) -> Seq<u8> {
    s.subrange(k * width, k * width + width)
}

/// Whether `raw` holds, pixel by pixel and in the byte order `big`, the
/// numbers that `data` holds with the most significant byte first.
pub open spec fn same_values(raw: Seq<u8>, data: Seq<u8>, width: int, big: bool) -> bool {
    &&& raw.len() == data.len()
    &&& forall|k: int|
        0 <= k && (k + 1) * width <= data.len() ==> order_value(
            #[trigger] group(raw, k, width),
            big,
        ) == be_value(group(data, k, width))
}

/// What the keywords at the head of a header say of an image.
pub struct Layout {
    pub pixeltype: Bitpix,
    pub axes: Seq<usize>,
    pub pcount: usize,
    pub gcount: usize,
}

/// The pixel type that a `BITPIX` value selects.
pub open spec fn bitpix_of(v: i64) -> Result<Bitpix, ErrorView> {
    if v == 8 {
        Ok(Bitpix::Int8)
    } else if v == 16 {
        Ok(Bitpix::Int16)
    } else if v == 32 {
        Ok(Bitpix::Int32)
    } else if v == 64 {
        Ok(Bitpix::Int64)
    } else if v == -32 {
        Ok(Bitpix::Float32)
    } else if v == -64 {
        Ok(Bitpix::Float64)
    } else {
        Err(ErrorView::GenericError("Invalid BITPIX value"@))
    }
}

/// The size that the keyword `name` at position `index` gives: its
/// integer, which must be one that a `usize` holds.
pub open spec fn size_at(h: Seq<KeywordView>, index: int, name: Seq<char>) -> Result<
    usize,
    ErrorView,
> {
    match int_at(h, index, name) {
        Ok(v) => if 0 <= v <= usize::MAX {
            Ok(v as usize)
        } else {
            Err(ErrorView::UnexpectedKeywordValue(name, ValueView::Int(v)))
        },
        Err(e) => Err(e),
    }
}

/// The size of axis `k`, counted from 0: that of `NAXIS1` for the first,
/// which stands at position 3.
pub open spec fn axis_at(h: Seq<KeywordView>, k: int) -> Result<usize, ErrorView> {
    size_at(h, 3 + k, numbered("NAXIS"@, (k + 1) as nat))
}

/// The first axis at or after `k` whose keyword is not as required, or
/// `naxis`.
pub open spec fn first_bad_axis(h: Seq<KeywordView>, naxis: int, k: int) -> int
    decreases naxis - k,
{
    if 0 <= k < naxis && axis_at(h, k) is Ok {
        first_bad_axis(h, naxis, k + 1)
    } else {
        k
    }
}

/// The sizes of the `naxis` axes, or the error of the first axis keyword
/// that is not as required.
pub open spec fn axes_of(h: Seq<KeywordView>, naxis: int) -> Result<Seq<usize>, ErrorView> {
    let bad = first_bad_axis(h, naxis, 0);
    if bad < naxis {
        Err(axis_at(h, bad)->Err_0)
    } else {
        Ok(Seq::new(naxis as nat, |k: int| axis_at(h, k)->Ok_0))
    }
}

/// Whether the header is that of an image extension.
pub open spec fn is_image_extension(h: Seq<KeywordView>) -> bool {
    h.len() > 0 && h[0].value == ValueView::String("IMAGE"@)
}

/// The parameter and group counts: 0 and 1 in a primary header; in an image
/// extension what `PCOUNT` and `GCOUNT` give, which follow the axes.
pub open spec fn counts_of(h: Seq<KeywordView>, naxis: int) -> Result<(usize, usize), ErrorView> {
    if is_image_extension(h) {
        match size_at(h, 3 + naxis, "PCOUNT"@) {
            Err(e) => Err(e),
            Ok(pcount) => match size_at(h, 4 + naxis, "GCOUNT"@) {
                Err(e) => Err(e),
                Ok(gcount) => Ok((pcount, gcount)),
            },
        }
    } else {
        Ok((0usize, 1usize))
    }
}

/// The layout that the required keywords give: `BITPIX` at position 1,
/// `NAXIS` at position 2, then one keyword for each axis.
pub open spec fn image_layout(h: Seq<KeywordView>) -> Result<Layout, ErrorView> {
    match int_at(h, 1, "BITPIX"@) {
        Err(e) => Err(e),
        Ok(code) => match bitpix_of(code) {
            Err(e) => Err(e),
            Ok(pixeltype) => match size_at(h, 2, "NAXIS"@) {
                Err(e) => Err(e),
                Ok(naxis) => match axes_of(h, naxis as int) {
                    Err(e) => Err(e),
                    Ok(axes) => match counts_of(h, naxis as int) {
                        Err(e) => Err(e),
                        Ok((pcount, gcount)) => Ok(Layout { pixeltype, axes, pcount, gcount }),
                    },
                },
            },
        },
    }
}

/// What is to be decoded.
pub struct Plan {
    pub layout: Layout,
    /// The bytes that the pixels take.
    pub nbytes: usize,
    pub wcs: Option<WcsView>,
}

/// `n`, or the greatest `usize` where `n` is greater.
pub open spec fn capped(n: nat) -> usize {
    if n <= usize::MAX {
        n as usize
    } else {
        usize::MAX
    }
}

/// What decoding an image does, given a header and the number of bytes of
/// data at hand: it fails on a header that is not as required; it decodes
/// nothing where the header announces no pixel; it fails where fewer bytes
/// are at hand than the pixels take; and it fails on world-coordinate
/// keywords that are not as required.
#[verifier::opaque]
pub open spec fn image_plan(h: Seq<KeywordView>, available: nat) -> Result<Option<Plan>, ErrorView> {
    match image_layout(h) {
        Err(e) => Err(e),
        Ok(layout) => {
            let need = pixel_count(layout.axes) * layout.pixeltype.width();
            if need == 0 {
                Ok(None)
            } else if need > available {
                Err(ErrorView::InvalidDataSize(capped(need), available as usize))
            } else {
                match wcs_of(h) {
                    Err(e) => Err(e),
                    Ok(wcs) => Ok(Some(Plan { layout, nbytes: need as usize, wcs })),
                }
            }
        },
    }
}

/// A number written behind the others multiplies their product.
pub proof fn lemma_product_push(s: Seq<usize>, x: usize)
    ensures
        product(s.push(x)) == product(s) * x as nat,
{
    assert(s.push(x).drop_last() =~= s);
}

/// A product of numbers that are not 0 is not less than the product of the
/// first few of them.
pub proof fn lemma_product_prefix(s: Seq<usize>, i: int)
    requires
        0 <= i <= s.len(),
        forall|k: int| 0 <= k < s.len() ==> #[trigger] s[k] > 0,
    ensures
        0 < product(s.subrange(0, i)) <= product(s),
    decreases s.len() - i,
{
    if i == s.len() {
        assert(s.subrange(0, i) =~= s);
        lemma_product_positive(s);
    } else {
        let t = s.subrange(0, i + 1);
        assert(t.drop_last() =~= s.subrange(0, i));
        lemma_product_prefix(s, i + 1);
        lemma_product_positive(s.subrange(0, i));
        assert(product(s.subrange(0, i)) <= product(s.subrange(0, i)) * (s[i] as nat))
            by (nonlinear_arith)
            requires
                s[i] > 0,
                product(s.subrange(0, i)) > 0,
        ;
    }
}

/// A product of numbers that are not 0 is not 0.
pub proof fn lemma_product_positive(s: Seq<usize>)
    requires
        forall|k: int| 0 <= k < s.len() ==> #[trigger] s[k] > 0,
    ensures
        product(s) > 0,
    decreases s.len(),
{
    if s.len() > 0 {
        lemma_product_positive(s.drop_last());
        assert(product(s.drop_last()) * (s.last() as nat) > 0) by (nonlinear_arith)
            requires
                product(s.drop_last()) > 0,
                s.last() > 0,
        ;
    }
}

/// A product with a 0 among its numbers is 0.
pub proof fn lemma_product_zero(s: Seq<usize>, i: int)
    requires
        0 <= i < s.len(),
        s[i] == 0,
    ensures
        product(s) == 0,
    decreases s.len(),
{
    if i < s.len() - 1 {
        lemma_product_zero(s.drop_last(), i);
        assert(0 * (s.last() as nat) == 0);
    } else {
        assert(product(s.drop_last()) * 0 == 0) by (nonlinear_arith);
    }
}

/// The place of a pixel is not before that of the pixel whose location
/// holds the first few of its indices.
pub proof fn lemma_linear_prefix(loc: Seq<usize>, axes: Seq<usize>, i: int)
    requires
        0 <= i <= loc.len(),
    ensures
        linear(loc.subrange(0, i), axes) <= linear(loc, axes),
    decreases loc.len() - i,
{
    if i == loc.len() {
        assert(loc.subrange(0, i) =~= loc);
    } else {
        let t = loc.subrange(0, i + 1);
        assert(t.drop_last() =~= loc.subrange(0, i));
        lemma_linear_prefix(loc, axes, i + 1);
        assert(0 <= (t.last() as nat) * product(axes.subrange(0, i))) by (nonlinear_arith);
    }
}

/// `bytemuck::cast_slice` from `u16` to `u8`: the bytes of the numbers as
/// memory holds them, two for each number and all in the same one of the
/// two byte orders.
#[verifier::external_body]
fn native_bytes_u16(v: &[u16]) -> (r: Vec<u8>)
    ensures
        holds(r@, v@.map_values(|x: u16| x as nat), 2, true) || holds(
            r@,
            v@.map_values(|x: u16| x as nat),
            2,
            false,
        ),
{
    bytemuck::cast_slice::<u16, u8>(v).to_vec()
}

/// `bytemuck::cast_slice` from `u32` to `u8`: the bytes of the numbers as
/// memory holds them, four for each number and all in the same one of the
/// two byte orders.
#[verifier::external_body]
fn native_bytes_u32(v: &[u32]) -> (r: Vec<u8>)
    ensures
        holds(r@, v@.map_values(|x: u32| x as nat), 4, true) || holds(
            r@,
            v@.map_values(|x: u32| x as nat),
            4,
            false,
        ),
{
    bytemuck::cast_slice::<u32, u8>(v).to_vec()
}

/// `bytemuck::cast_slice` from `u64` to `u8`: the bytes of the numbers as
/// memory holds them, eight for each number and all in the same one of the
/// two byte orders.
#[verifier::external_body]
fn native_bytes_u64(v: &[u64]) -> (r: Vec<u8>)
    ensures
        holds(r@, v@.map_values(|x: u64| x as nat), 8, true) || holds(
            r@,
            v@.map_values(|x: u64| x as nat),
            8,
            false,
        ),
{
    bytemuck::cast_slice::<u64, u8>(v).to_vec()
}

/// The numbers that the groups of two bytes of `data` write, the most
/// significant byte first.
fn be_values_u16(data: &[u8], n: usize) -> (r: Vec<u16>)
    requires
        data@.len() == 2 * n,
    ensures
        r@.len() == n,
        forall|k: int| 0 <= k < n ==> (#[trigger] r@[k]) as nat == be_value(group(data@, k, 2)),
{
    let len: usize = data.len();
    let mut out: Vec<u16> = Vec::with_capacity(n);
    let mut k: usize = 0;
    while k < n
        invariant
            k <= n,
            data@.len() == 2 * n == len,
            out@.len() == k,
            forall|j: int| 0 <= j < k ==> (#[trigger] out@[j]) as nat == be_value(group(data@, j, 2)),
        decreases n - k,
    {
        out.push(read_be(data, 2 * k, 2) as u16);
        k += 1;
    }
    out
}

/// The numbers that the groups of four bytes of `data` write, the most
/// significant byte first.
fn be_values_u32(data: &[u8], n: usize) -> (r: Vec<u32>)
    requires
        data@.len() == 4 * n,
    ensures
        r@.len() == n,
        forall|k: int| 0 <= k < n ==> (#[trigger] r@[k]) as nat == be_value(group(data@, k, 4)),
{
    let len: usize = data.len();
    let mut out: Vec<u32> = Vec::with_capacity(n);
    let mut k: usize = 0;
    while k < n
        invariant
            k <= n,
            data@.len() == 4 * n == len,
            out@.len() == k,
            forall|j: int| 0 <= j < k ==> (#[trigger] out@[j]) as nat == be_value(group(data@, j, 4)),
        decreases n - k,
    {
        out.push(read_be(data, 4 * k, 4) as u32);
        k += 1;
    }
    out
}

/// The numbers that the groups of eight bytes of `data` write, the most
/// significant byte first.
fn be_values_u64(data: &[u8], n: usize) -> (r: Vec<u64>)
    requires
        data@.len() == 8 * n,
    ensures
        r@.len() == n,
        forall|k: int| 0 <= k < n ==> (#[trigger] r@[k]) as nat == be_value(group(data@, k, 8)),
{
    let len: usize = data.len();
    let mut out: Vec<u64> = Vec::with_capacity(n);
    let mut k: usize = 0;
    while k < n
        invariant
            k <= n,
            data@.len() == 8 * n == len,
            out@.len() == k,
            forall|j: int| 0 <= j < k ==> (#[trigger] out@[j]) as nat == be_value(group(data@, j, 8)),
        decreases n - k,
    {
        out.push(read_be(data, 8 * k, 8));
        k += 1;
    }
    out
}

/// What `holds` says of the numbers read from `data` is what `same_values`
/// says of `data`.
proof fn lemma_holds_same(raw: Seq<u8>, values: Seq<nat>, data: Seq<u8>, width: int, big: bool)
    requires
        width > 0,
        data.len() == width * values.len(),
        holds(raw, values, width, big),
        forall|k: int| 0 <= k < values.len() ==> #[trigger] values[k] == be_value(group(data, k, width)),
    ensures
        same_values(raw, data, width, big),
{
    assert forall|k: int| 0 <= k && (k + 1) * width <= data.len() implies order_value(
        #[trigger] group(raw, k, width),
        big,
    ) == be_value(group(data, k, width)) by {
        assert(k < values.len()) by (nonlinear_arith)
            requires
                (k + 1) * width <= width * values.len(),
                width > 0,
        ;
        assert(values[k] == be_value(group(data, k, width)));
    }
}

/// Takes the last group of `width` bytes off `raw`, which holds `values`,
/// and tells the byte order from it. The last of the values is 1.
fn take_probe(raw: &mut Vec<u8>, Ghost(values): Ghost<Seq<nat>>, width: usize) -> (big: bool)
    requires
        2 <= width <= 8,
        values.len() >= 1,
        values.last() == 1,
        holds(old(raw)@, values, width as int, true) || holds(
            old(raw)@,
            values,
            width as int,
            false,
        ),
    ensures
        holds(final(raw)@, values.drop_last(), width as int, big),
{
    let len: usize = raw.len();
    proof {
        if holds(raw@, values, width as int, true) {
            lemma_last_group_tells_order(raw@, values, width as int, true);
        }
        if holds(raw@, values, width as int, false) {
            lemma_last_group_tells_order(raw@, values, width as int, false);
        }
        assert(len == (values.len() - 1) * width + width) by (nonlinear_arith)
            requires
                len == width * values.len(),
        ;
        assert(0 <= (values.len() - 1) * width) by (nonlinear_arith)
            requires
                values.len() >= 1,
                width >= 0,
        ;
    }
    let at = len - width;
    let big = raw[at] == 0;
    raw.truncate(at);
    big
}

/// The pixels of `data`, which holds each with the most significant byte
/// first, in the byte order of the machine; and whether that order has the
/// most significant byte first.
///
/// A pixel of the value 1 is laid out behind the others, and the byte order
/// is read from its bytes.
fn to_native(data: &[u8], pixeltype: Bitpix, count: usize) -> (r: (Vec<u8>, bool))
    requires
        data@.len() == count * pixeltype.width(),
    ensures
        same_values(r.0@, data@, pixeltype.width() as int, r.1),
{
    match pixeltype {
        Bitpix::Int8 => {
            let raw = slice_to_vec(data);
            assert(same_values(raw@, data@, 1, true));
            (raw, true)
        },
        Bitpix::Int16 => {
            let mut values = be_values_u16(data, count);
            let ghost pixels = values@.map_values(|x: u16| x as nat);
            values.push(1);
            let mut raw = native_bytes_u16(values.as_slice());
            let ghost probed = values@.map_values(|x: u16| x as nat);
            proof {
                assert(probed.drop_last() =~= pixels);
            }
            let big = take_probe(&mut raw, Ghost(probed), 2);
            proof {
                assert forall|k: int| 0 <= k < pixels.len() implies #[trigger] pixels[k]
                    == be_value(group(data@, k, 2)) by {
                    assert(values@[k] as nat == be_value(group(data@, k, 2)));
                }
                lemma_holds_same(raw@, pixels, data@, 2, big);
            }
            (raw, big)
        },
        Bitpix::Int32 | Bitpix::Float32 => {
            let mut values = be_values_u32(data, count);
            let ghost pixels = values@.map_values(|x: u32| x as nat);
            values.push(1);
            let mut raw = native_bytes_u32(values.as_slice());
            let ghost probed = values@.map_values(|x: u32| x as nat);
            proof {
                assert(probed.drop_last() =~= pixels);
            }
            let big = take_probe(&mut raw, Ghost(probed), 4);
            proof {
                assert forall|k: int| 0 <= k < pixels.len() implies #[trigger] pixels[k]
                    == be_value(group(data@, k, 4)) by {
                    assert(values@[k] as nat == be_value(group(data@, k, 4)));
                }
                lemma_holds_same(raw@, pixels, data@, 4, big);
            }
            (raw, big)
        },
        Bitpix::Int64 | Bitpix::Float64 => {
            let mut values = be_values_u64(data, count);
            let ghost pixels = values@.map_values(|x: u64| x as nat);
            values.push(1);
            let mut raw = native_bytes_u64(values.as_slice());
            let ghost probed = values@.map_values(|x: u64| x as nat);
            proof {
                assert(probed.drop_last() =~= pixels);
            }
            let big = take_probe(&mut raw, Ghost(probed), 8);
            proof {
                assert forall|k: int| 0 <= k < pixels.len() implies #[trigger] pixels[k]
                    == be_value(group(data@, k, 8)) by {
                    assert(values@[k] as nat == be_value(group(data@, k, 8)));
                }
                lemma_holds_same(raw@, pixels, data@, 8, big);
            }
            (raw, big)
        },
    }
}

/// The size that the keyword `name` gives, which must stand at position
/// `index`.
pub fn get_keyword_size_at_index(header: &Header, index: usize, name: &str) -> (r: Result<
    usize,
    FITSError,
>)
    ensures
        outcome(r) == size_at(header@, index as int, name@),
{
    match get_keyword_int_at_index(header, index, name) {
        Ok(v) => {
            if v < 0 || v as u64 > usize::MAX as u64 {
                Err(FITSError::UnexpectedKeywordValue(name.to_owned(), KeywordValue::Int(v)))
            } else {
                Ok(v as usize)
            }
        },
        Err(e) => Err(e),
    }
}

fn read_axes(header: &Header, naxis: usize) -> (r: Result<Vec<usize>, FITSError>)
    ensures
        match r {
            Ok(axes) => axes_of(header@, naxis as int) == Ok::<Seq<usize>, ErrorView>(axes@),
            Err(e) => axes_of(header@, naxis as int) == Err::<Seq<usize>, ErrorView>(e@),
        },
        r is Ok && naxis > 0 ==> 3 + naxis <= header@.len(),
{
    let ghost h = header@;
    let mut axes: Vec<usize> = Vec::new();
    let mut k: usize = 0;
    while k < naxis
        invariant
            k <= naxis,
            h == header@,
            axes@.len() == k,
            k > 0 ==> 2 + k < h.len(),
            first_bad_axis(h, naxis as int, 0) == first_bad_axis(h, naxis as int, k as int),
            forall|j: int| 0 <= j < k ==> axis_at(h, j) == Ok::<usize, ErrorView>(#[trigger] axes@[j]),
        decreases naxis - k,
    {
        let len: usize = header.len();
        if k >= len || len - k <= 3 {
            proof {
                assert(axis_at(h, k as int) is Err);
            }
            let name = numbered_name("NAXIS", k + 1);
            return Err(FITSError::MissingKeyword(name));
        }
        let name = numbered_name("NAXIS", k + 1);
        match get_keyword_size_at_index(header, 3 + k, name.as_str()) {
            Ok(n) => {
                axes.push(n);
            },
            Err(e) => {
                return Err(e);
            },
        }
        k += 1;
    }
    proof {
        assert(axes@ =~= axes_of(h, naxis as int)->Ok_0);
    }
    Ok(axes)
}

fn read_counts(header: &Header, naxis: usize) -> (r: Result<(usize, usize), FITSError>)
    ensures
        outcome(r) == counts_of(header@, naxis as int),
{
    let extension = match header.get(0) {
        Some(kw) => match &kw.value {
            KeywordValue::String(s) => str_eq(s.as_str(), "IMAGE"),
            _ => false,
        },
        None => false,
    };
    if extension {
        let len: usize = header.len();
        if naxis >= len || len - naxis <= 3 {
            return Err(FITSError::MissingKeyword("PCOUNT".to_owned()));
        }
        if len - naxis <= 4 {
            return match get_keyword_size_at_index(header, 3 + naxis, "PCOUNT") {
                Ok(_) => Err(FITSError::MissingKeyword("GCOUNT".to_owned())),
                Err(e) => Err(e),
            };
        }
        let pcount = match get_keyword_size_at_index(header, 3 + naxis, "PCOUNT") {
            Ok(n) => n,
            Err(e) => {
                return Err(e);
            },
        };
        let gcount = match get_keyword_size_at_index(header, 4 + naxis, "GCOUNT") {
            Ok(n) => n,
            Err(e) => {
                return Err(e);
            },
        };
        Ok((pcount, gcount))
    } else {
        Ok((0, 1))
    }
}

/// The number of bytes that pixels on the given axes take, if a `usize`
/// holds it.
fn count_bytes(axes: &Vec<usize>, width: usize) -> (r: Option<usize>)
    requires
        1 <= width <= 8,
    ensures
        match r {
            Some(n) => n == pixel_count(axes@) * width,
            None => pixel_count(axes@) * width > usize::MAX,
        },
{
    if axes.len() == 0 {
        assert(pixel_count(axes@) * width == 0) by (nonlinear_arith)
            requires
                pixel_count(axes@) == 0,
        ;
        return Some(0);
    }
    let mut z: usize = 0;
    while z < axes.len()
        invariant
            z <= axes@.len(),
            forall|k: int| 0 <= k < z ==> #[trigger] axes@[k] > 0,
        decreases axes@.len() - z,
    {
        if axes[z] == 0 {
            proof {
                lemma_product_zero(axes@, z as int);
                assert(pixel_count(axes@) * width == 0) by (nonlinear_arith)
                    requires
                        pixel_count(axes@) == 0,
                ;
            }
            return Some(0);
        }
        z += 1;
    }
    let mut acc: usize = 1;
    let mut i: usize = 0;
    proof {
        assert(axes@.subrange(0, 0) =~= Seq::<usize>::empty());
    }
    while i < axes.len()
        invariant
            i <= axes@.len(),
            1 <= width <= 8,
            forall|k: int| 0 <= k < axes@.len() ==> #[trigger] axes@[k] > 0,
            acc == product(axes@.subrange(0, i as int)),
        decreases axes@.len() - i,
    {
        proof {
            lemma_product_push(axes@.subrange(0, i as int), axes@[i as int]);
            assert(axes@.subrange(0, i as int).push(axes@[i as int]) =~= axes@.subrange(0, i + 1));
        }
        match acc.checked_mul(axes[i]) {
            Some(n) => {
                acc = n;
            },
            None => {
                proof {
                    lemma_product_prefix(axes@, i + 1);
                    assert(product(axes@) * width >= product(axes@)) by (nonlinear_arith)
                        requires
                            width >= 1,
                    ;
                }
                return None;
            },
        }
        i += 1;
    }
    proof {
        assert(axes@.subrange(0, i as int) =~= axes@);
    }
    acc.checked_mul(width)
}

/// Whether an image shows what was to be decoded from `data`: it is as the
/// plan says, and each of its pixels, read in the byte order of the image,
/// is the number that `data` holds for it with the most significant byte
/// first.
pub open spec fn shows(img: Image, plan: Plan, data: Seq<u8>) -> bool {
    let width = plan.layout.pixeltype.width() as int;
    let source = data.subrange(0, plan.nbytes as int);
    &&& img.wf()
    &&& img.pixeltype == plan.layout.pixeltype
    &&& img.axes@ == plan.layout.axes
    &&& img.pcount == plan.layout.pcount
    &&& img.gcount == plan.layout.gcount
    &&& wcs_outcome(Ok(img.wcs)) == Ok::<Option<WcsView>, ErrorView>(plan.wcs)
    &&& same_values(img.rawbytes@, source, width, img.big_endian)
}

/// Whether `r` is what decoding `data` by the plan gives: the error of the
/// plan; no data and no byte used; or an image that shows what the plan
/// says, and the number of bytes that its pixels take.
pub open spec fn image_decoded(
    r: Result<(HDUData, usize), FITSError>,
    plan: Result<Option<Plan>, ErrorView>,
    data: Seq<u8>,
) -> bool {
    match plan {
        Err(e) => r is Err && r->Err_0@ == e,
        Ok(None) => r is Ok && r->Ok_0.0 is Absent && r->Ok_0.1 == 0,
        Ok(Some(p)) => r is Ok && r->Ok_0.1 == p.nbytes && r->Ok_0.0 is Image && shows(
            *r->Ok_0.0->Image_0,
            p,
            data,
        ),
    }
}

impl Image {
    /// The bytes of the pixels are as many as the axes and the pixel type
    /// say.
    pub open spec fn wf(&self) -> bool {
        self.rawbytes@.len() == pixel_count(self.axes@) * self.pixeltype.width()
    }

    /// The place of the pixel at `loc` among the pixels, if the image has
    /// such a pixel. A location may leave out its last indices, which are
    /// then 0.
    pub open spec fn spec_index_of(&self, loc: Seq<usize>) -> Option<usize> {
        if loc.len() <= self.axes@.len() && linear(loc, self.axes@) < pixel_count(self.axes@) {
            Some(linear(loc, self.axes@) as usize)
        } else {
            None
        }
    }

    /// Whether the image is well formed.
    pub fn is_wf(&self) -> (r: bool)
        ensures
            r == self.wf(),
    {
        let len: usize = self.rawbytes.len();
        match count_bytes(&self.axes, self.pixeltype.size()) {
            Some(n) => n == len,
            None => false,
        }
    }

    /// Number of dimensions.
    pub fn ndims(&self) -> (r: usize)
        ensures
            r == self.axes@.len(),
    {
        self.axes.len()
    }

    /// The number of pixels.
    pub fn len(&self) -> (r: usize)
        requires
            self.wf(),
        ensures
            r == pixel_count(self.axes@),
    {
        let size = self.pixeltype.size();
        proof {
            vstd::arithmetic::div_mod::lemma_div_by_multiple(
                pixel_count(self.axes@) as int,
                size as int,
            );
        }
        self.rawbytes.len() / size
    }

    /// The place of the pixel at `loc` among the pixels, if the image has
    /// such a pixel.
    pub fn index_of(&self, loc: &[usize]) -> (r: Option<usize>)
        requires
            self.wf(),
        ensures
            r == self.spec_index_of(loc@),
    {
        if loc.len() > self.axes.len() {
            return None;
        }
        let count = self.len();
        let ghost axes = self.axes@;
        let mut offset: usize = 0;
        let mut mult: Option<usize> = Some(1);
        let mut i: usize = 0;
        proof {
            assert(axes.subrange(0, 0) =~= Seq::<usize>::empty());
            assert(loc@.subrange(0, 0) =~= Seq::<usize>::empty());
        }
        while i < loc.len()
            invariant
                i <= loc@.len() <= axes.len(),
                axes == self.axes@,
                count == pixel_count(axes),
                offset == linear(loc@.subrange(0, i as int), axes),
                match mult {
                    Some(m) => m == product(axes.subrange(0, i as int)),
                    None => product(axes.subrange(0, i as int)) > usize::MAX,
                },
            decreases loc@.len() - i,
        {
            let x = loc[i];
            let a = self.axes[i];
            let ghost p = product(axes.subrange(0, i as int));
            proof {
                lemma_product_push(axes.subrange(0, i as int), a);
                assert(axes.subrange(0, i as int).push(a) =~= axes.subrange(0, i + 1));
                let t = loc@.subrange(0, i + 1);
                assert(t.drop_last() =~= loc@.subrange(0, i as int));
                assert(linear(t, axes) == offset + x as nat * p);
                lemma_linear_prefix(loc@, axes, i + 1);
            }
            let term: Option<usize> = if x == 0 {
                Some(0)
            } else {
                match mult {
                    Some(m) => m.checked_mul(x),
                    None => None,
                }
            };
            proof {
                assert(x as nat * p == p * x as nat) by (nonlinear_arith);
                if x == 0 {
                    assert(x as nat * p == 0) by (nonlinear_arith)
                        requires
                            x == 0,
                    ;
                } else if mult is None {
                    assert(x as nat * p > usize::MAX) by (nonlinear_arith)
                        requires
                            x >= 1,
                            p > usize::MAX,
                    ;
                }
            }
            let next = match term {
                Some(t) => offset.checked_add(t),
                None => None,
            };
            match next {
                Some(o) => {
                    offset = o;
                },
                None => {
                    proof {
                        assert(linear(loc@.subrange(0, i + 1), axes) > usize::MAX);
                        assert(linear(loc@, axes) > usize::MAX);
                    }
                    return None;
                },
            }
            mult = if a == 0 {
                Some(0)
            } else {
                match mult {
                    Some(m) => m.checked_mul(a),
                    None => None,
                }
            };
            proof {
                if a == 0 {
                    assert(p * a as nat == 0) by (nonlinear_arith)
                        requires
                            a == 0,
                    ;
                } else if mult is None {
                    assert(p * a as nat > usize::MAX) by (nonlinear_arith)
                        requires
                            a >= 1,
                            p * a as nat > usize::MAX || p > usize::MAX,
                    ;
                }
            }
            i += 1;
        }
        proof {
            assert(loc@.subrange(0, i as int) =~= loc@);
        }
        if offset < count {
            Some(offset)
        } else {
            None
        }
    }

    /// The number that the bytes of the `k`-th pixel write in the byte
    /// order of the image.
    pub open spec fn pixel_value(&self, k: int) -> nat {
        order_value(group(self.rawbytes@, k, self.pixeltype.width() as int), self.big_endian)
    }

    /// The `k`-th pixel, the first axis varying fastest.
    pub fn pixel(&self, k: usize) -> (r: Pixel)
        requires
            self.wf(),
            k < pixel_count(self.axes@),
        ensures
            r.kind() == self.pixeltype,
            r.bits() == self.pixel_value(k as int),
    {
        let size = self.pixeltype.size();
        let total: usize = self.rawbytes.len();
        proof {
            assert(total == pixel_count(self.axes@) * size);
            assert((k + 1) * size <= pixel_count(self.axes@) * size) by (nonlinear_arith)
                requires
                    k + 1 <= pixel_count(self.axes@),
                    size >= 0,
            ;
            assert((k + 1) * size == k * size + size) by (nonlinear_arith);
            assert(0 <= k * size) by (nonlinear_arith)
                requires
                    k >= 0,
                    size >= 0,
            ;
        }
        let v = if self.big_endian {
            read_be(self.rawbytes.as_slice(), k * size, size)
        } else {
            read_le(self.rawbytes.as_slice(), k * size, size)
        };
        match self.pixeltype {
            Bitpix::Int8 => Pixel::Int8(v as u8),
            Bitpix::Int16 => Pixel::Int16(v as u16),
            Bitpix::Int32 => Pixel::Int32(v as u32),
            Bitpix::Int64 => Pixel::Int64(v),
            Bitpix::Float32 => Pixel::Float32(v as u32),
            Bitpix::Float64 => Pixel::Float64(v),
        }
    }

    /// The pixel at a location, which gives one index for each axis, that
    /// of the first axis first.
    pub fn at(&self, loc: &[usize]) -> (r: Pixel)
        requires
            self.wf(),
            self.spec_index_of(loc@) is Some,
        ensures
            r.kind() == self.pixeltype,
            r.bits() == self.pixel_value(self.spec_index_of(loc@)->Some_0 as int),
    {
        let k = self.index_of(loc).unwrap();
        self.pixel(k)
    }

    /// All pixels, the first axis varying fastest.
    pub fn pixels(&self) -> (r: Vec<Pixel>)
        requires
            self.wf(),
        ensures
            r@.len() == pixel_count(self.axes@),
            forall|k: int|
                0 <= k < r@.len() ==> (#[trigger] r@[k]).kind() == self.pixeltype && r@[k].bits()
                    == self.pixel_value(k),
    {
        let count = self.len();
        let mut out: Vec<Pixel> = Vec::with_capacity(count);
        let mut k: usize = 0;
        while k < count
            invariant
                k <= count,
                self.wf(),
                count == pixel_count(self.axes@),
                out@.len() == k,
                forall|j: int|
                    0 <= j < k ==> (#[trigger] out@[j]).kind() == self.pixeltype && out@[j].bits()
                        == self.pixel_value(j),
            decreases count - k,
        {
            out.push(self.pixel(k));
            k += 1;
        }
        out
    }

    /// Decodes the image that a header announces from the bytes that
    /// follow the header. Gives the image and the number of bytes that its
    /// pixels take; no data where the header announces no pixel.
    pub fn from_bytes(header: &Header, rawbytes: &[u8]) -> (r: Result<(HDUData, usize), FITSError>)
        ensures
            image_decoded(r, image_plan(header@, rawbytes@.len()), rawbytes@),
            r is Ok ==> r->Ok_0.1 <= rawbytes@.len(),
    {
        reveal(image_plan);
        let code = match get_keyword_int_at_index(header, 1, "BITPIX") {
            Ok(v) => v,
            Err(e) => {
                return Err(e);
            },
        };
        let pixeltype = match Bitpix::from_i64(code) {
            Ok(t) => t,
            Err(e) => {
                return Err(e);
            },
        };
        let naxis = match get_keyword_size_at_index(header, 2, "NAXIS") {
            Ok(n) => n,
            Err(e) => {
                return Err(e);
            },
        };
        let axes = match read_axes(header, naxis) {
            Ok(a) => a,
            Err(e) => {
                return Err(e);
            },
        };
        let (pcount, gcount) = match read_counts(header, naxis) {
            Ok(c) => c,
            Err(e) => {
                return Err(e);
            },
        };
        let size = pixeltype.size();
        let nbytes = match count_bytes(&axes, size) {
            Some(n) => n,
            None => {
                return Err(FITSError::InvalidDataSize(usize::MAX, rawbytes.len()));
            },
        };
        if nbytes == 0 {
            return Ok((HDUData::Absent, 0));
        }
        if nbytes > rawbytes.len() {
            return Err(FITSError::InvalidDataSize(nbytes, rawbytes.len()));
        }
        let source = slice_subrange(rawbytes, 0, nbytes);
        proof {
            vstd::arithmetic::div_mod::lemma_div_by_multiple(
                pixel_count(axes@) as int,
                size as int,
            );
        }
        let (raw, big_endian) = to_native(source, pixeltype, nbytes / size);
        let wcs = match WCS::from_header(header) {
            Ok(w) => w,
            Err(e) => {
                return Err(e);
            },
        };
        let image = Image { pixeltype, axes, rawbytes: raw, big_endian, wcs, gcount, pcount };
        Ok((HDUData::Image(Box::new(image)), nbytes))
    }
}

/// The number of axes that `NAXIS` gives at position 2.
pub open spec fn naxis_of(h: Seq<KeywordView>) -> int {
    size_at(h, 2, "NAXIS"@)->Ok_0 as int
}

/// The number of positions at the head of the header of an image that hold
/// required keywords, the first keyword counted in: three and one for each
/// axis, and in an image extension two more.
pub open spec fn image_positions(h: Seq<KeywordView>) -> int {
    if is_image_extension(h) {
        5 + naxis_of(h)
    } else {
        3 + naxis_of(h)
    }
}

/// The name of the keyword required at position `k` of the header of an
/// image, for `k` from 1 on.
pub open spec fn image_name_at(h: Seq<KeywordView>, k: int) -> Seq<char> {
    if k == 1 {
        "BITPIX"@
    } else if k == 2 {
        "NAXIS"@
    } else if k < 3 + naxis_of(h) {
        numbered("NAXIS"@, (k - 2) as nat)
    } else if k == 3 + naxis_of(h) {
        "PCOUNT"@
    } else {
        "GCOUNT"@
    }
}

/// The axes up to the first bad one are good, and the first bad one is
/// bad.
pub proof fn lemma_first_bad_axis(h: Seq<KeywordView>, naxis: int, k: int)
    requires
        0 <= k <= naxis,
    ensures
        k <= first_bad_axis(h, naxis, k) <= naxis,
        forall|j: int| k <= j < first_bad_axis(h, naxis, k) ==> (#[trigger] axis_at(h, j)) is Ok,
        first_bad_axis(h, naxis, k) < naxis ==> axis_at(h, first_bad_axis(h, naxis, k)) is Err,
    decreases naxis - k,
{
    if k < naxis && axis_at(h, k) is Ok {
        lemma_first_bad_axis(h, naxis, k + 1);
    }
}

/// An image is decoded only from a header whose first positions hold the
/// required keywords in their order.
pub proof fn lemma_image_needs_positions(h: Seq<KeywordView>)
    requires
        image_layout(h) is Ok,
    ensures
        forall|k: int| 1 <= k < image_positions(h) ==> in_place(h, k, #[trigger] image_name_at(h, k)),
{
    let n = naxis_of(h);
    lemma_first_bad_axis(h, n, 0);
    assert forall|k: int| 1 <= k < image_positions(h) implies in_place(
        h,
        k,
        #[trigger] image_name_at(h, k),
    ) by {
        if 3 <= k < 3 + n {
            assert(axis_at(h, k - 3) is Ok);
        }
    }
}

/// Where the first of the required positions that does not hold its
/// keyword is position `k`, and the keywords before it are those of a
/// header from which an image can be decoded, decoding fails, and reports
/// the keyword of position `k` as missing or as misplaced. This is what
/// comes of taking out or of exchanging required keywords of a valid
/// header.
pub proof fn lemma_image_positions_are_checked(
    valid: Seq<KeywordView>,
    h: Seq<KeywordView>,
    k: int,
    available: nat,
)
    requires
        image_layout(valid) is Ok,
        1 <= k < image_positions(valid),
        forall|j: int| 0 <= j < k ==> j < h.len() && h[j] == valid[j],
        !in_place(h, k, image_name_at(valid, k)),
    ensures
        image_plan(h, available) == Err::<Option<Plan>, ErrorView>(
            not_in_place(h, k, image_name_at(valid, k)),
        ),
{
    reveal(image_plan);
    let n = naxis_of(valid);
    lemma_first_bad_axis(valid, n, 0);
    assert(h[0] == valid[0]);
    if k >= 2 {
        assert(h[1] == valid[1]);
    }
    if k >= 3 {
        assert(h[2] == valid[2]);
        assert(naxis_of(h) == n);
        lemma_first_bad_axis(h, n, 0);
        if k < 3 + n {
            assert forall|j: int| 0 <= j < k - 3 implies (#[trigger] axis_at(h, j)) is Ok by {
                assert(axis_at(valid, j) is Ok);
                assert(h[3 + j] == valid[3 + j]);
            }
            assert(axis_at(h, k - 3) is Err);
            if first_bad_axis(h, n, 0) < k - 3 {
                assert(axis_at(h, first_bad_axis(h, n, 0)) is Ok);
            }
            if first_bad_axis(h, n, 0) > k - 3 {
                assert(axis_at(h, k - 3) is Ok);
            }
            assert(first_bad_axis(h, n, 0) == k - 3);
        } else {
            assert forall|j: int| 0 <= j < n implies (#[trigger] axis_at(h, j)) is Ok by {
                assert(axis_at(valid, j) is Ok);
                assert(h[3 + j] == valid[3 + j]);
            }
            if first_bad_axis(h, n, 0) < n {
                assert(axis_at(h, first_bad_axis(h, n, 0)) is Ok);
            }
            assert(is_image_extension(valid));
            assert(is_image_extension(h));
            if k == 4 + n {
                assert(h[3 + n] == valid[3 + n]);
            }
        }
    }
}

/// Every pixel of a decoded image is the number that the data hold for it
/// with the most significant byte first.
pub proof fn lemma_pixel_is_as_written(img: Image, plan: Plan, data: Seq<u8>, k: int)
    requires
        shows(img, plan, data),
        0 <= k < pixel_count(img.axes@),
    ensures
        img.pixel_value(k) == be_value(
            group(data.subrange(0, plan.nbytes as int), k, img.pixeltype.width() as int),
        ),
{
    let width = img.pixeltype.width() as int;
    assert((k + 1) * width <= pixel_count(img.axes@) * width) by (nonlinear_arith)
        requires
            k + 1 <= pixel_count(img.axes@),
            width >= 0,
    ;
}

} // verus!
