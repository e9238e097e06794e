//! Byte-level text: blanks, decimal numbers, searching, and the bridge
//! between byte sequences and strings.
//!
//! The model of a text is a `Seq<u8>`. Scanning functions are stated by
//! position: each takes a sequence and a start index and gives the index at
//! which the scan stops.

use vstd::prelude::*;
use vstd::slice::slice_subrange;

verus! {

pub const SPACE: u8 = 0x20;

pub const QUOTE: u8 = 0x27;

pub const LEFT_PAREN: u8 = 0x28;

pub const RIGHT_PAREN: u8 = 0x29;

pub const PLUS: u8 = 0x2b;

pub const COMMA: u8 = 0x2c;

pub const MINUS: u8 = 0x2d;

pub const POINT: u8 = 0x2e;

pub const SLASH: u8 = 0x2f;

pub const EQUALS: u8 = 0x3d;

pub const UPPER_A: u8 = 0x41;

pub const UPPER_B: u8 = 0x42;

pub const UPPER_D: u8 = 0x44;

pub const UPPER_E: u8 = 0x45;

pub const UPPER_F: u8 = 0x46;

pub const UPPER_G: u8 = 0x47;

pub const UPPER_I: u8 = 0x49;

pub const UPPER_L: u8 = 0x4c;

pub const UPPER_N: u8 = 0x4e;

pub const UPPER_O: u8 = 0x4f;

pub const UPPER_S: u8 = 0x53;

pub const UPPER_T: u8 = 0x54;

pub const UPPER_Z: u8 = 0x5a;

pub const UNDERSCORE: u8 = 0x5f;

pub const LOWER_A: u8 = 0x61;

pub const LOWER_E: u8 = 0x65;

pub const LOWER_F: u8 = 0x66;

pub const LOWER_I: u8 = 0x69;

pub const LOWER_N: u8 = 0x6e;

pub const LOWER_T: u8 = 0x74;

pub const LOWER_Y: u8 = 0x79;

/// White space among the ASCII bytes: space, tab, line feed, vertical tab,
/// form feed and carriage return.
pub open spec fn is_blank(b: u8) -> bool {
    b == SPACE || (0x09 <= b && b <= 0x0d)
}

/// The decimal digits.
pub open spec fn is_digit(b: u8) -> bool {
    0x30 <= b && b <= 0x39
}

/// The signs `+` and `-`.
pub open spec fn is_sign(b: u8) -> bool {
    b == PLUS || b == MINUS
}

/// Whether every byte of `s` is an ASCII byte.
pub open spec fn all_ascii(s: Seq<u8>) -> bool {
    forall|i: int| 0 <= i < s.len() ==> #[trigger] s[i] < 0x80
}

/// Whether every byte of `s` is a decimal digit.
pub open spec fn all_digits(s: Seq<u8>) -> bool {
    forall|i: int| 0 <= i < s.len() ==> is_digit(#[trigger] s[i])
}

/// The characters that stand for the bytes, one for one.
pub open spec fn chars_of(s: Seq<u8>) -> Seq<char> {
    Seq::new(s.len(), |i: int| s[i] as char)
}

/// The index of the first byte at or after `i` that is not blank, or the
/// length of `s`.
pub open spec fn skip_blanks(s: Seq<u8>, i: int) -> int
    decreases s.len() - i,
{
    if 0 <= i < s.len() && is_blank(s[i]) {
        skip_blanks(s, i + 1)
    } else {
        i
    }
}

/// The index just behind the last byte before `j` that is not blank, or 0.
pub open spec fn skip_blanks_back(s: Seq<u8>, j: int) -> int
    decreases j,
{
    if 0 < j <= s.len() && is_blank(s[j - 1]) {
        skip_blanks_back(s, j - 1)
    } else {
        j
    }
}

/// The index of the first byte at or after `i` that is no digit, or the
/// length of `s`.
pub open spec fn skip_digits(s: Seq<u8>, i: int) -> int
    decreases s.len() - i,
{
    if 0 <= i < s.len() && is_digit(s[i]) {
        skip_digits(s, i + 1)
    } else {
        i
    }
}

/// The index of the first `b` at or after `i`, or the length of `s`.
pub open spec fn find_from(s: Seq<u8>, b: u8, i: int) -> int
    decreases s.len() - i,
{
    if 0 <= i < s.len() && s[i] != b {
        find_from(s, b, i + 1)
    } else {
        i
    }
}

/// `s` without its leading blanks.
pub open spec fn trim_start(s: Seq<u8>) -> Seq<u8> {
    s.subrange(skip_blanks(s, 0), s.len() as int)
}

/// `s` without its leading and trailing blanks.
pub open spec fn trim(s: Seq<u8>) -> Seq<u8> {
    let t = trim_start(s);
    t.subrange(0, skip_blanks_back(t, t.len() as int))
}

/// The number that a sequence of decimal digits writes.
pub open spec fn digits_value(s: Seq<u8>) -> nat
    decreases s.len(),
{
    if s.len() == 0 {
        0
    } else {
        digits_value(s.drop_last()) * 10 + (s.last() - 0x30) as nat
    }
}

/// The decimal digits of `n`, without leading zeros.
pub open spec fn digits_of(n: nat) -> Seq<u8>
    decreases n,
{
    if n < 10 {
        seq![(0x30 + n) as u8]
    } else {
        digits_of(n / 10).push((0x30 + n % 10) as u8)
    }
}

/// An unsigned decimal number: an optional `+`, then one digit or more.
pub open spec fn parse_nat(s: Seq<u8>) -> Option<nat> {
    let d = if s.len() > 0 && s[0] == PLUS {
        s.skip(1)
    } else {
        s
    };
    if d.len() > 0 && all_digits(d) {
        Some(digits_value(d))
    } else {
        None
    }
}

/// A signed decimal number: an optional `+` or `-`, then one digit or more.
pub open spec fn parse_int(s: Seq<u8>) -> Option<int> {
    if s.len() > 0 && s[0] == MINUS {
        let d = s.skip(1);
        if d.len() > 0 && all_digits(d) {
            Some(-(digits_value(d) as int))
        } else {
            None
        }
    } else {
        match parse_nat(s) {
            Some(n) => Some(n as int),
            None => None,
        }
    }
}

/// What `parse_usize` returns: the number that `s` writes, if it writes one
/// that a `usize` holds.
pub open spec fn usize_of(s: Seq<u8>) -> Option<usize> {
    match parse_nat(s) {
        Some(n) => if n <= usize::MAX {
            Some(n as usize)
        } else {
            None
        },
        None => None,
    }
}

/// What `parse_i64` returns: the number that `s` writes, if it writes one
/// that an `i64` holds.
pub open spec fn i64_of(s: Seq<u8>) -> Option<i64> {
    match parse_int(s) {
        Some(n) => if i64::MIN <= n <= i64::MAX {
            Some(n as i64)
        } else {
            None
        },
        None => None,
    }
}

/// What `skip_blanks` skips is blank, and what it stops at is not.
pub proof fn lemma_skip_blanks_bounds(s: Seq<u8>, i: int)
    requires
        0 <= i <= s.len(),
    ensures
        i <= skip_blanks(s, i) <= s.len(),
        forall|k: int| i <= k < skip_blanks(s, i) ==> is_blank(#[trigger] s[k]),
        skip_blanks(s, i) < s.len() ==> !is_blank(s[skip_blanks(s, i)]),
    decreases s.len() - i,
{
    if i < s.len() && is_blank(s[i]) {
        lemma_skip_blanks_bounds(s, i + 1);
    }
}

/// What `skip_blanks_back` skips is blank, and what it stops at is not.
pub proof fn lemma_skip_blanks_back_bounds(s: Seq<u8>, j: int)
    requires
        0 <= j <= s.len(),
    ensures
        0 <= skip_blanks_back(s, j) <= j,
        forall|k: int| skip_blanks_back(s, j) <= k < j ==> is_blank(#[trigger] s[k]),
        skip_blanks_back(s, j) > 0 ==> !is_blank(s[skip_blanks_back(s, j) - 1]),
    decreases j,
{
    if 0 < j && is_blank(s[j - 1]) {
        lemma_skip_blanks_back_bounds(s, j - 1);
    }
}

/// What `find_from` passes over is not the byte sought, and what it stops at
/// is.
pub proof fn lemma_find_from_bounds(s: Seq<u8>, b: u8, i: int)
    requires
        0 <= i <= s.len(),
    ensures
        i <= find_from(s, b, i) <= s.len(),
        forall|k: int| i <= k < find_from(s, b, i) ==> #[trigger] s[k] != b,
        find_from(s, b, i) < s.len() ==> s[find_from(s, b, i)] == b,
    decreases s.len() - i,
{
    if i < s.len() && s[i] != b {
        lemma_find_from_bounds(s, b, i + 1);
    }
}

/// A number does not shrink when digits are written behind it.
pub proof fn lemma_digits_value_prefix(s: Seq<u8>, i: int)
    requires
        0 <= i <= s.len(),
        all_digits(s),
    ensures
        digits_value(s.subrange(0, i)) <= digits_value(s),
    decreases s.len() - i,
{
    if i == s.len() {
        assert(s.subrange(0, i) =~= s);
    } else {
        let t = s.drop_last();
        assert(t.subrange(0, i) =~= s.subrange(0, i));
        assert(all_digits(t));
        lemma_digits_value_prefix(t, i);
    }
}

/// Whether a byte is white space.
pub fn is_blank_byte(b: u8) -> (r: bool)
    ensures
        r == is_blank(b),
{
    b == SPACE || (0x09 <= b && b <= 0x0d)
}

/// Whether a byte is a decimal digit.
pub fn is_digit_byte(b: u8) -> (r: bool)
    ensures
        r == is_digit(b),
{
    0x30 <= b && b <= 0x39
}

/// Skips the blanks of `s` from `i` on.
pub fn scan_blanks(s: &[u8], i: usize) -> (r: usize)
    requires
        i <= s@.len(),
    ensures
        r == skip_blanks(s@, i as int),
        i <= r <= s@.len(),
{
    let mut k: usize = i;
    while k < s.len() && is_blank_byte(s[k])
        invariant
            i <= k <= s@.len(),
            skip_blanks(s@, i as int) == skip_blanks(s@, k as int),
        decreases s@.len() - k,
    {
        k += 1;
    }
    k
}

/// Skips the blanks of `s` from `j` backwards.
pub fn scan_blanks_back(s: &[u8], j: usize) -> (r: usize)
    requires
        j <= s@.len(),
    ensures
        r == skip_blanks_back(s@, j as int),
        r <= j,
{
    let mut k: usize = j;
    while k > 0 && is_blank_byte(s[k - 1])
        invariant
            k <= j <= s@.len(),
            skip_blanks_back(s@, j as int) == skip_blanks_back(s@, k as int),
        decreases k,
    {
        k -= 1;
    }
    k
}

/// Skips the digits of `s` from `i` on.
pub fn scan_digits(s: &[u8], i: usize) -> (r: usize)
    requires
        i <= s@.len(),
    ensures
        r == skip_digits(s@, i as int),
        i <= r <= s@.len(),
{
    let mut k: usize = i;
    while k < s.len() && is_digit_byte(s[k])
        invariant
            i <= k <= s@.len(),
            skip_digits(s@, i as int) == skip_digits(s@, k as int),
        decreases s@.len() - k,
    {
        k += 1;
    }
    k
}

/// The index of the first `b` in `s` at or after `i`, or the length of `s`.
pub fn find_byte(s: &[u8], b: u8, i: usize) -> (r: usize)
    requires
        i <= s@.len(),
    ensures
        r == find_from(s@, b, i as int),
        i <= r <= s@.len(),
{
    let mut k: usize = i;
    while k < s.len() && s[k] != b
        invariant
            i <= k <= s@.len(),
            find_from(s@, b, i as int) == find_from(s@, b, k as int),
        decreases s@.len() - k,
    {
        k += 1;
    }
    k
}

/// The text without its leading blanks.
pub fn trim_start_bytes(s: &[u8]) -> (r: &[u8])
    ensures
        r@ == trim_start(s@),
{
    let i = scan_blanks(s, 0);
    slice_subrange(s, i, s.len())
}

/// The text without its leading and trailing blanks.
pub fn trim_bytes(s: &[u8]) -> (r: &[u8])
    ensures
        r@ == trim(s@),
{
    let t = trim_start_bytes(s);
    let j = scan_blanks_back(t, t.len());
    slice_subrange(t, 0, j)
}

/// Whether two texts hold the same bytes.
pub fn bytes_eq(a: &[u8], b: &[u8]) -> (r: bool)
    ensures
        r == (a@ == b@),
{
    if a.len() != b.len() {
        return false;
    }
    let mut i: usize = 0;
    while i < a.len()
        invariant
            i <= a@.len(),
            a@.len() == b@.len(),
            forall|k: int| 0 <= k < i ==> a@[k] == b@[k],
        decreases a@.len() - i,
    {
        if a[i] != b[i] {
            return false;
        }
        i += 1;
    }
    assert(a@ =~= b@);
    true
}

/// Reads the decimal digits `s[from..]` as a number of at most `limit`.
fn read_digits(s: &[u8], from: usize, limit: u64) -> (r: Option<u64>)
    requires
        from <= s@.len(),
    ensures
        r == (if from < s@.len() && all_digits(s@.skip(from as int)) && digits_value(
            s@.skip(from as int),
        ) <= limit {
            Some(digits_value(s@.skip(from as int)) as u64)
        } else {
            None
        }),
{
    let ghost d = s@.skip(from as int);
    if from >= s.len() {
        return None;
    }
    let mut acc: u64 = 0;
    let mut i: usize = from;
    while i < s.len()
        invariant
            from <= i <= s@.len(),
            d == s@.skip(from as int),
            all_digits(d.subrange(0, i - from)),
            acc == digits_value(d.subrange(0, i - from)),
            acc <= limit,
        decreases s@.len() - i,
    {
        let b = s[i];
        if !is_digit_byte(b) {
            proof {
                assert(d[i - from] == b);
            }
            return None;
        }
        let next: u128 = acc as u128 * 10 + (b - 0x30) as u128;
        proof {
            let p = d.subrange(0, i - from + 1);
            assert(p.drop_last() =~= d.subrange(0, i - from));
            assert(p.last() == b);
            assert(digits_value(p) == next);
            assert forall|k: int| 0 <= k < p.len() implies is_digit(#[trigger] p[k]) by {
                if k < i - from {
                    assert(d.subrange(0, i - from)[k] == p[k]);
                }
            }
        }
        if next > limit as u128 {
            proof {
                if all_digits(d) {
                    lemma_digits_value_prefix(d, i - from + 1);
                }
            }
            return None;
        }
        acc = next as u64;
        i += 1;
    }
    proof {
        assert(d.subrange(0, i - from) =~= d);
    }
    Some(acc)
}

/// Reads an unsigned decimal number: an optional `+`, then digits.
pub fn parse_usize(s: &[u8]) -> (r: Option<usize>)
    ensures
        r == usize_of(s@),
{
    let from: usize = if s.len() > 0 && s[0] == PLUS {
        1
    } else {
        0
    };
    proof {
        assert(s@.skip(0) =~= s@);
    }
    match read_digits(s, from, usize::MAX as u64) {
        Some(n) => Some(n as usize),
        None => None,
    }
}

/// Reads a signed decimal number: an optional `+` or `-`, then digits.
pub fn parse_i64(s: &[u8]) -> (r: Option<i64>)
    ensures
        r == i64_of(s@),
{
    proof {
        assert(s@.skip(0) =~= s@);
    }
    if s.len() > 0 && s[0] == MINUS {
        match read_digits(s, 1, 0x8000_0000_0000_0000u64) {
            Some(n) => Some((0i128 - n as i128) as i64),
            None => None,
        }
    } else {
        let from: usize = if s.len() > 0 && s[0] == PLUS {
            1
        } else {
            0
        };
        match read_digits(s, from, 0x7fff_ffff_ffff_ffffu64) {
            Some(n) => Some(n as i64),
            None => None,
        }
    }
}

/// The lower-case form of an ASCII letter; any other byte is left alone.
pub open spec fn lower(b: u8) -> u8 {
    if UPPER_A <= b && b <= UPPER_Z {
        (b + 0x20) as u8
    } else {
        b
    }
}

/// Whether `s` spells `word`, whatever the case of its letters.
pub open spec fn spells(s: Seq<u8>, word: Seq<u8>) -> bool {
    s.len() == word.len() && forall|i: int| 0 <= i < s.len() ==> lower(#[trigger] s[i]) == word[i]
}

/// An exponent from `i` to the end of `s`: `e` or `E`, an optional sign,
/// then one digit or more.
pub open spec fn is_exponent(s: Seq<u8>, i: int) -> bool {
    let j = if i + 1 < s.len() && is_sign(s[i + 1]) {
        i + 2
    } else {
        i + 1
    };
    0 <= i < s.len() && (s[i] == LOWER_E || s[i] == UPPER_E) && j < s.len() && skip_digits(s, j)
        == s.len()
}

/// A decimal number from `i` to the end of `s`: digits with at most one
/// point among them and at least one digit, then an optional exponent.
pub open spec fn is_number(s: Seq<u8>, i: int) -> bool {
    let i1 = skip_digits(s, i);
    let point = i1 < s.len() && s[i1] == POINT;
    let i2 = if point {
        skip_digits(s, i1 + 1)
    } else {
        i1
    };
    let digits = if point {
        i2 - i - 1
    } else {
        i1 - i
    };
    digits > 0 && (i2 == s.len() || is_exponent(s, i2))
}

/// Whether `s` is the text of a floating-point number: an optional sign,
/// then `inf`, `infinity` or `nan` in any case, or a decimal number.
pub open spec fn is_float_text(s: Seq<u8>) -> bool {
    let i = if s.len() > 0 && is_sign(s[0]) {
        1int
    } else {
        0int
    };
    let body = s.skip(i);
    spells(body, seq![LOWER_I, LOWER_N, LOWER_F]) || spells(
        body,
        seq![LOWER_I, LOWER_N, LOWER_F, LOWER_I, LOWER_N, LOWER_I, LOWER_T, LOWER_Y],
    ) || spells(body, seq![LOWER_N, LOWER_A, LOWER_N]) || is_number(s, i)
}

/// Whether a byte is a sign.
pub fn is_sign_byte(b: u8) -> (r: bool)
    ensures
        r == is_sign(b),
{
    b == PLUS || b == MINUS
}

fn lower_byte(b: u8) -> (r: u8)
    ensures
        r == lower(b),
{
    if UPPER_A <= b && b <= UPPER_Z {
        b + 0x20
    } else {
        b
    }
}

fn spells_word(s: &[u8], from: usize, word: &[u8]) -> (r: bool)
    requires
        from <= s@.len(),
    ensures
        r == spells(s@.skip(from as int), word@),
{
    if s.len() - from != word.len() {
        return false;
    }
    let mut k: usize = 0;
    while k < word.len()
        invariant
            from <= s@.len() <= usize::MAX,
            s@.len() - from == word@.len(),
            k <= word@.len(),
            forall|i: int| 0 <= i < k ==> lower(#[trigger] s@.skip(from as int)[i]) == word@[i],
        decreases word@.len() - k,
    {
        if lower_byte(s[from + k]) != word[k] {
            assert(s@.skip(from as int)[k as int] == s@[from + k]);
            return false;
        }
        assert(s@.skip(from as int)[k as int] == s@[from + k]);
        k += 1;
    }
    true
}

fn check_exponent(s: &[u8], i: usize) -> (r: bool)
    requires
        i <= s@.len(),
    ensures
        r == is_exponent(s@, i as int),
{
    if i >= s.len() || (s[i] != LOWER_E && s[i] != UPPER_E) {
        return false;
    }
    let j: usize = if i + 1 < s.len() && is_sign_byte(s[i + 1]) {
        i + 2
    } else {
        i + 1
    };
    j < s.len() && scan_digits(s, j) == s.len()
}

fn check_number(s: &[u8], i: usize) -> (r: bool)
    requires
        i <= s@.len(),
    ensures
        r == is_number(s@, i as int),
{
    let i1 = scan_digits(s, i);
    if i1 < s.len() && s[i1] == POINT {
        let i2 = scan_digits(s, i1 + 1);
        i2 - i - 1 > 0 && (i2 == s.len() || check_exponent(s, i2))
    } else {
        i1 - i > 0 && (i1 == s.len() || check_exponent(s, i1))
    }
}

/// Whether `s` is the text of a floating-point number.
pub fn check_float_text(s: &[u8]) -> (r: bool)
    ensures
        r == is_float_text(s@),
{
    let i: usize = if s.len() > 0 && is_sign_byte(s[0]) {
        1
    } else {
        0
    };
    let inf: [u8; 3] = [LOWER_I, LOWER_N, LOWER_F];
    let infinity: [u8; 8] = [LOWER_I, LOWER_N, LOWER_F, LOWER_I, LOWER_N, LOWER_I, LOWER_T, LOWER_Y];
    let nan: [u8; 3] = [LOWER_N, LOWER_A, LOWER_N];
    assert(inf@ =~= seq![LOWER_I, LOWER_N, LOWER_F]);
    assert(infinity@ =~= seq![LOWER_I, LOWER_N, LOWER_F, LOWER_I, LOWER_N, LOWER_I, LOWER_T, LOWER_Y]);
    assert(nan@ =~= seq![LOWER_N, LOWER_A, LOWER_N]);
    spells_word(s, i, inf.as_slice()) || spells_word(s, i, infinity.as_slice()) || spells_word(
        s,
        i,
        nan.as_slice(),
    ) || check_number(s, i)
}

} // verus!
