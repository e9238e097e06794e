//! Strings built from bytes, and compared.

use crate::text::{all_ascii, bytes_eq, chars_of, digits_of};
use vstd::prelude::*;
use vstd::utf8::{encode_utf8, is_ascii_chars, is_ascii_chars_encode_utf8};

verus! {

/// `String::push` of std: appends one character to the string.
#[verifier::external_body]
pub(crate) fn push_char(s: &mut String, c: char)
    ensures
        final(s)@ == old(s)@.push(c),
{
    s.push(c)
}

/// Appends to `out` the characters that stand for `bytes`.
pub fn push_bytes(out: &mut String, bytes: &[u8])
    ensures
        final(out)@ == old(out)@ + chars_of(bytes@),
{
    let mut i: usize = 0;
    while i < bytes.len()
        invariant
            i <= bytes@.len(),
            out@ == old(out)@ + chars_of(bytes@.subrange(0, i as int)),
        decreases bytes@.len() - i,
    {
        push_char(out, bytes[i] as char);
        proof {
            assert(chars_of(bytes@.subrange(0, i + 1)) =~= chars_of(
                bytes@.subrange(0, i as int),
            ).push(bytes@[i as int] as char));
        }
        i += 1;
    }
    proof {
        assert(bytes@.subrange(0, i as int) =~= bytes@);
    }
}

/// The string whose characters stand for `bytes`, one for one.
pub fn string_of(bytes: &[u8]) -> (r: String)
    ensures
        r@ == chars_of(bytes@),
{
    let mut out = String::new();
    push_bytes(&mut out, bytes);
    assert(out@ =~= chars_of(bytes@));
    out
}

/// The bytes of ASCII text are the UTF-8 form of its characters.
pub proof fn lemma_ascii_bytes(bytes: Seq<u8>)
    requires
        all_ascii(bytes),
    ensures
        is_ascii_chars(chars_of(bytes)),
        encode_utf8(chars_of(bytes)) == bytes,
{
    let chars = chars_of(bytes);
    assert forall|i: int| 0 <= i < chars.len() implies 0 <= #[trigger] chars[i] as nat <= 127 by {
        assert(bytes[i] < 0x80);
    }
    is_ascii_chars_encode_utf8(chars);
    assert(encode_utf8(chars) =~= bytes) by {
        assert forall|i: int| 0 <= i < bytes.len() implies chars[i] as u8 == bytes[i] by {
            assert(bytes[i] < 0x80);
        }
    }
}

/// The UTF-8 bytes of a string.
pub fn bytes_of(s: &str) -> (r: &[u8])
    ensures
        r@ == encode_utf8(s@),
{
    s.as_bytes()
}

/// Whether two strings hold the same characters.
pub fn str_eq(a: &str, b: &str) -> (r: bool)
    ensures
        r == (a@ == b@),
{
    let r = bytes_eq(a.as_bytes(), b.as_bytes());
    proof {
        vstd::utf8::encode_utf8_decode_utf8(a@);
        vstd::utf8::encode_utf8_decode_utf8(b@);
    }
    r
}

/// Appends the decimal digits of `n` to `out`.
pub fn push_decimal(out: &mut Vec<u8>, n: usize)
    ensures
        final(out)@ == old(out)@ + digits_of(n as nat),
    decreases n,
{
    if n >= 10 {
        push_decimal(out, n / 10);
    }
    out.push(0x30 + (n % 10) as u8);
    proof {
        if n >= 10 {
            assert(out@ =~= old(out)@ + digits_of(n as nat));
        } else {
            assert(out@ =~= old(out)@ + digits_of(n as nat));
        }
    }
}

/// The name of a numbered keyword: `prefix` and the decimal digits of `n`.
pub open spec fn numbered(prefix: Seq<char>, n: nat) -> Seq<char> {
    prefix + chars_of(digits_of(n))
}

/// Writes the name of a numbered keyword, such as `NAXIS2`.
pub fn numbered_name(prefix: &str, n: usize) -> (r: String)
    ensures
        r@ == numbered(prefix@, n as nat),
{
    let mut digits: Vec<u8> = Vec::new();
    push_decimal(&mut digits, n);
    let mut out = prefix.to_owned();
    push_bytes(&mut out, digits.as_slice());
    assert(digits@ =~= digits_of(n as nat));
    out
}

/// The name of a keyword with two numbers, such as `CD1_2`: `prefix`, the
/// digits of `i`, an underscore and the digits of `j`.
pub open spec fn numbered_pair(prefix: Seq<char>, i: nat, j: nat) -> Seq<char> {
    prefix + chars_of(digits_of(i)) + seq!['_'] + chars_of(digits_of(j))
}

/// Writes the name of a keyword with two numbers, such as `CD1_2`.
pub fn numbered_pair_name(prefix: &str, i: usize, j: usize) -> (r: String)
    ensures
        r@ == numbered_pair(prefix@, i as nat, j as nat),
{
    let mut out = numbered_name(prefix, i);
    push_char(&mut out, '_');
    let mut digits: Vec<u8> = Vec::new();
    push_decimal(&mut digits, j);
    push_bytes(&mut out, digits.as_slice());
    assert(digits@ =~= digits_of(j as nat));
    out
}

} // verus!
