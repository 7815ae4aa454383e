use vstd::prelude::*;
use vstd::utf8::*;

verus! {

/// Whether the first `len` bytes are the longest prefix of `bytes` that is
/// valid UTF-8.
pub open spec fn longest_valid_prefix(bytes: Seq<u8>, len: int) -> bool {
    &&& 0 <= len <= bytes.len()
    &&& valid_utf8(bytes.take(len))
    &&& forall|j: int| len < j <= bytes.len() ==> !valid_utf8(#[trigger] bytes.take(j))
}

/// Whether more bytes could turn `bytes` into valid UTF-8: it ends inside a
/// character whose encoding could still be completed.
pub open spec fn completable(bytes: Seq<u8>) -> bool {
    exists|more: Seq<u8>| valid_utf8(#[trigger] (bytes + more))
}

/// Calls `std::str::from_utf8`, and on failure the error's `valid_up_to()`
/// and `error_len()`. Claimed: it succeeds exactly when the bytes are valid
/// UTF-8, and the string it then returns is the one those bytes encode; on
/// failure `valid_up_to` is the length of the longest valid prefix;
/// `error_len` is `None` exactly when the bytes after it end inside a
/// character that more bytes could complete, and otherwise `Some(n)`, the
/// length, 1 to 3, of the invalid sequence that starts there. The exact `n`
/// is not stated beyond that range.
#[verifier::external_body]
pub(crate) fn str_from_utf8(bytes: &[u8]) -> (s: Result<&str, (usize, Option<usize>)>)
    ensures
        s is Ok <==> valid_utf8(bytes@),
        s matches Ok(t) ==> encode_utf8(t@) == bytes@,
        s matches Err((valid_up_to, error_len)) ==> {
            &&& longest_valid_prefix(bytes@, valid_up_to as int)
            &&& error_len is None <==> completable(bytes@.skip(valid_up_to as int))
            &&& error_len matches Some(n) ==> 1 <= n <= 3 && valid_up_to + n <= bytes@.len()
        },
{
    std::str::from_utf8(bytes).map_err(|e| (e.valid_up_to(), e.error_len()))
}

/// Whether `c` is one of the ASCII digits `0` to `9`.
pub open spec fn is_digit(c: char) -> bool {
    '0' <= c && c <= '9'
}

/// Value of a string of decimal digits, most significant first.
pub open spec fn decimal_value(digits: Seq<char>) -> nat
    decreases digits.len(),
{
    if digits.len() == 0 {
        0
    } else {
        decimal_value(digits.drop_last()) * 10 + ((digits.last() as int) - ('0' as int)) as nat
    }
}

/// The digits of an unsigned decimal number: the text with one leading `+`
/// removed, if it has one.
pub open spec fn unsigned_digits(text: Seq<char>) -> Seq<char> {
    if text.len() > 0 && text[0] == '+' {
        text.drop_first()
    } else {
        text
    }
}

/// How std reads a `u8` from text: after an optional `+`, one or more ASCII
/// digits (leading zeros allowed) whose value is at most 255.
pub open spec fn parse_u8_spec(text: Seq<char>) -> Option<u8> {
    let digits = unsigned_digits(text);
    if digits.len() > 0 && (forall|i: int| 0 <= i < digits.len() ==> is_digit(#[trigger] digits[i]))
        && decimal_value(digits) <= 255 {
        Some(decimal_value(digits) as u8)
    } else {
        None
    }
}

/// Calls `str::parse::<u8>`. Claimed: it succeeds exactly on an optional `+`
/// followed by one or more ASCII digits of value at most 255, and returns that
/// value (std's `from_str_radix` with radix 10 for an unsigned type).
#[verifier::external_body]
pub(crate) fn parse_u8(text: &str) -> (n: Option<u8>)
    ensures
        n == parse_u8_spec(text@),
{
    text.parse::<u8>().ok()
}

/// One octet of a dotted quad: one to three ASCII digits, no leading zero
/// unless the octet is `0` itself, value at most 255.
pub open spec fn octet_text(text: Seq<char>) -> Option<u8> {
    if 1 <= text.len() <= 3 && (forall|i: int| 0 <= i < text.len() ==> is_digit(#[trigger] text[i]))
        && !(text.len() > 1 && text[0] == '0') && decimal_value(text) <= 255 {
        Some(decimal_value(text) as u8)
    } else {
        None
    }
}

/// The text before the first `.`, and the text after it.
pub open spec fn split_at_dot(text: Seq<char>) -> Option<(Seq<char>, Seq<char>)> {
    match text.index_of_first('.') {
        Some(i) => Some((text.take(i), text.skip(i + 1))),
        None => None,
    }
}

/// An IPv4 address in dot-decimal notation: four octets separated by `.`,
/// as its 32-bit value (first octet most significant).
pub open spec fn dotted_quad(text: Seq<char>) -> Option<u32> {
    match split_at_dot(text) {
        None => None,
        Some((a, r1)) => match split_at_dot(r1) {
            None => None,
            Some((b, r2)) => match split_at_dot(r2) {
                None => None,
                Some((c, d)) => match (octet_text(a), octet_text(b), octet_text(c), octet_text(d)) {
                    (Some(x), Some(y), Some(z), Some(w)) => Some(
                        (x as int * 0x1000000 + y as int * 0x10000 + z as int * 0x100 + w as int) as u32,
                    ),
                    _ => None,
                },
            },
        },
    }
}

/// Calls `str::parse::<core::net::Ipv4Addr>` and converts the address with
/// `u32::from` (first octet most significant). Claimed: it accepts exactly
/// dot-decimal notation, four decimal octets divided by `.`, with no leading
/// zero (std's documentation of the `FromStr` impl refuses octal notation),
/// and returns that address.
#[verifier::external_body]
pub(crate) fn parse_ipv4(text: &str) -> (addr: Option<u32>)
    ensures
        addr == dotted_quad(text@),
{
    text.parse::<core::net::Ipv4Addr>().ok().map(u32::from)
}

} // verus!
