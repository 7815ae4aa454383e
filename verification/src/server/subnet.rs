use crate::common::ipv4::{lemma_octets_value, octets_of, value_of_octets, Ipv4Address};
use crate::common::text::{
    decimal_value, dotted_quad, is_digit, octet_text, parse_ipv4, parse_u8, parse_u8_spec,
    split_at_dot,
};
use vstd::prelude::*;
use vstd::string::*;
use vstd::utf8::*;

verus! {

/// The byte `/` that separates address and prefix length in CIDR notation.
pub const SLASH: u8 = 47u8;

/// Why a subnet given in CIDR notation was refused.
#[derive(Clone, Copy, Debug, PartialEq, Eq, Structural)]
pub enum SubnetError {
    /// There is no `/` in the text.
    NotCidr,
    /// What precedes the first `/` is not an IPv4 address.
    InvalidAddress,
    /// What follows the first `/` is not a number from 0 to 255.
    InvalidPrefix,
}

/// The subnet made of an address and a prefix length read separately; the
/// address is checked first.
pub open spec fn subnet_from_parsed_spec(address: Option<u32>, prefix: Option<u8>) -> Result<
    (Ipv4Address, u8),
    SubnetError,
> {
    match address {
        None => Err(SubnetError::InvalidAddress),
        Some(a) => match prefix {
            None => Err(SubnetError::InvalidPrefix),
            Some(p) => Ok((Ipv4Address { value: a }, p)),
        },
    }
}

/// The subnet written in `text` as `address/prefix`: the text is cut at its
/// first `/`, the left part read as an IPv4 address, the right part as a `u8`.
pub open spec fn parse_subnet_spec(text: Seq<char>) -> Result<(Ipv4Address, u8), SubnetError> {
    let b = encode_utf8(text);
    match b.index_of_first(SLASH) {
        None => Err(SubnetError::NotCidr),
        Some(p) => subnet_from_parsed_spec(
            dotted_quad(decode_utf8(b.take(p))),
            parse_u8_spec(decode_utf8(b.skip(p + 1))),
        ),
    }
}

/// Combines an address and a prefix length that were read separately.
pub fn subnet_from_parsed(address: Option<u32>, prefix: Option<u8>) -> (res: Result<
    (Ipv4Address, u8),
    SubnetError,
>)
    ensures
        res == subnet_from_parsed_spec(address, prefix),
        address is None ==> res == Err::<(Ipv4Address, u8), SubnetError>(SubnetError::InvalidAddress),
        address is Some && prefix is None ==> res == Err::<(Ipv4Address, u8), SubnetError>(
            SubnetError::InvalidPrefix,
        ),
        address is Some && prefix is Some ==> res == Ok::<(Ipv4Address, u8), SubnetError>(
            (Ipv4Address { value: address->0 }, prefix->0),
        ),
{
    match address {
        None => Err(SubnetError::InvalidAddress),
        Some(a) => match prefix {
            None => Err(SubnetError::InvalidPrefix),
            Some(p) => Ok((Ipv4Address { value: a }, p)),
        },
    }
}

/// Reads a subnet in CIDR notation, such as `10.0.0.0/24`.
pub fn parse_subnet(subnet: &str) -> (res: Result<(Ipv4Address, u8), SubnetError>)
    ensures
        res == parse_subnet_spec(subnet@),
{
    let bytes = subnet.as_bytes();
    let ghost b = encode_utf8(subnet@);
    assert(bytes@ == b);
    let n = bytes.len();
    let mut pos: usize = 0;
    while pos < n && bytes[pos] != SLASH
        invariant
            pos <= n,
            n == b.len(),
            bytes@ == b,
            forall|j: int| 0 <= j < pos ==> b[j] != SLASH,
        decreases n - pos,
    {
        pos += 1;
    }
    proof {
        b.index_of_first_ensures(SLASH);
    }
    if pos == n {
        proof {
            if b.contains(SLASH) {
                let k = choose|k: int| 0 <= k < b.len() && b[k] == SLASH;
                assert(b[k] != SLASH);
            }
        }
        return Err(SubnetError::NotCidr);
    }
    proof {
        let p = b.index_of_first(SLASH)->0;
        assert(b[pos as int] == SLASH);
        if p < pos {
            assert(b[p] != SLASH);
        }
        assert(p == pos);
        encode_utf8_valid_utf8(subnet@);
        is_char_boundary_iff_not_is_continuation_byte(b, pos as int);
        assert(!is_continuation_byte(SLASH)) by (bit_vector);
    }
    let (address_text, rest) = subnet.split_at(pos);
    let ghost r = b.subrange(pos as int, b.len() as int);
    proof {
        valid_utf8_split(b, pos as int);
        assert(rest.spec_bytes() =~= r);
        assert(r[0] == SLASH);
        if r.len() == 1 {
            is_char_boundary_start_end_of_seq(r);
        } else {
            assert(is_leading_byte_width_1(SLASH)) by (bit_vector);
            assert(length_of_first_scalar(r) == 1);
            reveal_with_fuel(is_char_boundary, 2);
            assert(is_char_boundary(r, 1));
        }
    }
    let (_slash, prefix_text) = rest.split_at(1);
    proof {
        assert(address_text.spec_bytes() =~= b.take(pos as int));
        assert(prefix_text.spec_bytes() =~= b.skip(pos + 1));
        encode_utf8_decode_utf8(address_text@);
        encode_utf8_decode_utf8(prefix_text@);
    }
    let address = parse_ipv4(address_text);
    let prefix = parse_u8(prefix_text);
    subnet_from_parsed(address, prefix)
}

/// The character of the decimal digit `d`.
pub open spec fn digit_char(d: int) -> char {
    (48 + d) as char
}

/// A byte written in decimal, without leading zeros.
pub open spec fn decimal_text(n: u8) -> Seq<char> {
    if n < 10 {
        seq![digit_char(n as int)]
    } else if n < 100 {
        seq![digit_char((n / 10) as int), digit_char((n % 10) as int)]
    } else {
        seq![
            digit_char((n / 100) as int),
            digit_char(((n / 10) % 10) as int),
            digit_char((n % 10) as int),
        ]
    }
}

/// A subnet in CIDR notation: the four octets of the address in decimal,
/// separated by `.`, then `/` and the prefix length in decimal.
pub open spec fn subnet_text_spec(base: u32, prefix: u8) -> Seq<char> {
    let o = octets_of(base);
    decimal_text(o[0]) + seq!['.'] + decimal_text(o[1]) + seq!['.'] + decimal_text(o[2]) + seq![
        '.',
    ] + decimal_text(o[3]) + seq!['/'] + decimal_text(prefix)
}

/// The one-character text of a decimal digit.
fn digit_text(d: u8) -> (t: &'static str)
    requires
        d < 10,
    ensures
        t@ == seq![digit_char(d as int)],
{
    match d {
        0 => {
            proof {
                reveal_strlit("0");
            }
            "0"
        },
        1 => {
            proof {
                reveal_strlit("1");
            }
            "1"
        },
        2 => {
            proof {
                reveal_strlit("2");
            }
            "2"
        },
        3 => {
            proof {
                reveal_strlit("3");
            }
            "3"
        },
        4 => {
            proof {
                reveal_strlit("4");
            }
            "4"
        },
        5 => {
            proof {
                reveal_strlit("5");
            }
            "5"
        },
        6 => {
            proof {
                reveal_strlit("6");
            }
            "6"
        },
        7 => {
            proof {
                reveal_strlit("7");
            }
            "7"
        },
        8 => {
            proof {
                reveal_strlit("8");
            }
            "8"
        },
        _ => {
            proof {
                reveal_strlit("9");
            }
            "9"
        },
    }
}

/// Appends `n` in decimal to `text`.
fn push_decimal(text: &mut String, n: u8)
    ensures
        final(text)@ == old(text)@ + decimal_text(n),
{
    if n >= 100 {
        text.append(digit_text(n / 100));
        text.append(digit_text((n / 10) % 10));
    } else if n >= 10 {
        text.append(digit_text(n / 10));
    }
    text.append(digit_text(n % 10));
}

/// Appends a one-character text to `text`.
fn push_separator(text: &mut String, dot: bool)
    ensures
        final(text)@ == old(text)@ + (if dot { seq!['.'] } else { seq!['/'] }),
{
    if dot {
        proof {
            reveal_strlit(".");
        }
        text.append(".");
    } else {
        proof {
            reveal_strlit("/");
        }
        text.append("/");
    }
}

/// The subnet `base/prefix` in CIDR notation, such as `10.0.0.0/24`.
pub fn subnet_text(base: Ipv4Address, prefix: u8) -> (text: String)
    ensures
        text@ == subnet_text_spec(base.value, prefix),
        parse_subnet_spec(text@) == Ok::<(Ipv4Address, u8), SubnetError>((base, prefix)),
{
    proof {
        lemma_subnet_text_round_trip(base.value, prefix);
    }
    let o = base.octets();
    let mut text = String::new();
    push_decimal(&mut text, o[0]);
    push_separator(&mut text, true);
    push_decimal(&mut text, o[1]);
    push_separator(&mut text, true);
    push_decimal(&mut text, o[2]);
    push_separator(&mut text, true);
    push_decimal(&mut text, o[3]);
    push_separator(&mut text, false);
    push_decimal(&mut text, prefix);
    assert(text@ =~= subnet_text_spec(base.value, prefix));
    text
}

/// Reading a CIDR text: without a `/` it is refused; otherwise it gives
/// exactly the address that the part before the first `/` reads as and the
/// prefix length that the part after it reads as, and where one of them does
/// not read, the error names the first that fails.
pub proof fn lemma_parse_subnet_parts(text: Seq<char>)
    ensures
        ({
            let b = encode_utf8(text);
            match b.index_of_first(SLASH) {
                None => parse_subnet_spec(text) == Err::<(Ipv4Address, u8), SubnetError>(
                    SubnetError::NotCidr,
                ),
                Some(i) => {
                    let address = dotted_quad(decode_utf8(b.take(i)));
                    let prefix = parse_u8_spec(decode_utf8(b.skip(i + 1)));
                    &&& address is None ==> parse_subnet_spec(text) == Err::<
                        (Ipv4Address, u8),
                        SubnetError,
                    >(SubnetError::InvalidAddress)
                    &&& address is Some && prefix is None ==> parse_subnet_spec(text) == Err::<
                        (Ipv4Address, u8),
                        SubnetError,
                    >(SubnetError::InvalidPrefix)
                    &&& address is Some && prefix is Some ==> parse_subnet_spec(text) == Ok::<
                        (Ipv4Address, u8),
                        SubnetError,
                    >((Ipv4Address { value: address->0 }, prefix->0))
                },
            }
        }),
{
}

/// The decimal text of a byte is one to three digits, has no leading zero
/// (but for `0` itself), and reads back as that byte, both as an octet of a
/// dotted quad and as a `u8`.
pub proof fn lemma_decimal_text(n: u8)
    ensures
        1 <= decimal_text(n).len() <= 3,
        forall|i: int| 0 <= i < decimal_text(n).len() ==> is_digit(#[trigger] decimal_text(n)[i]),
        decimal_text(n).len() > 1 ==> decimal_text(n)[0] != '0',
        decimal_value(decimal_text(n)) == n,
        octet_text(decimal_text(n)) == Some(n),
        parse_u8_spec(decimal_text(n)) == Some(n),
{
    let t = decimal_text(n);
    reveal_with_fuel(decimal_value, 4);
    assert(t.drop_last().drop_last().drop_last().len() == 0 || t.len() < 3);
    if n < 10 {
        assert(t.drop_last() =~= Seq::<char>::empty());
    } else if n < 100 {
        assert(t.drop_last() =~= seq![digit_char((n / 10) as int)]);
        assert(t.drop_last().drop_last() =~= Seq::<char>::empty());
    } else {
        assert(t.drop_last() =~= seq![digit_char((n / 100) as int), digit_char(((n / 10) % 10) as int)]);
        assert(t.drop_last().drop_last() =~= seq![digit_char((n / 100) as int)]);
        assert(t.drop_last().drop_last().drop_last() =~= Seq::<char>::empty());
    }
    assert(t[0] != '+');
}

/// The first place of `x` in `head + [x] + tail` is just after `head` when
/// `head` holds no `x`.
proof fn lemma_first_index<A>(s: Seq<A>, head: Seq<A>, x: A, tail: Seq<A>)
    requires
        s == head + seq![x] + tail,
        !head.contains(x),
    ensures
        s.index_of_first(x) == Some(head.len() as int),
{
    s.index_of_first_ensures(x);
    assert(s[head.len() as int] == x);
    match s.index_of_first(x) {
        Some(i) => {
            if i < head.len() {
                assert(head[i] == s[i]);
            }
            if i > head.len() {
                assert(s[head.len() as int] != x);
            }
        },
        None => {},
    }
}

/// A text of digits holds neither `.` nor `/`, and is ASCII.
proof fn lemma_digits_plain(t: Seq<char>)
    requires
        forall|i: int| 0 <= i < t.len() ==> is_digit(#[trigger] t[i]),
    ensures
        !t.contains('.'),
        !t.contains('/'),
        is_ascii_chars(t),
{
    if t.contains('.') {
        let k = choose|k: int| 0 <= k < t.len() && t[k] == '.';
        assert(is_digit(t[k]));
    }
    if t.contains('/') {
        let k = choose|k: int| 0 <= k < t.len() && t[k] == '/';
        assert(is_digit(t[k]));
    }
    assert forall|i: int| 0 <= i < t.len() implies '\0' <= #[trigger] t[i] <= '\u{7f}' by {
        assert(is_digit(t[i]));
    }
}

/// The dotted quad part of a subnet text.
spec fn address_text(base: u32) -> Seq<char> {
    let o = octets_of(base);
    decimal_text(o[0]) + seq!['.'] + decimal_text(o[1]) + seq!['.'] + decimal_text(o[2]) + seq![
        '.',
    ] + decimal_text(o[3])
}

/// The dotted quad of an address reads back as that address.
#[verifier::rlimit(60)]
proof fn lemma_address_text(base: u32)
    ensures
        dotted_quad(address_text(base)) == Some(base),
        !address_text(base).contains('/'),
        is_ascii_chars(address_text(base)),
{
    let o = octets_of(base);
    let d0 = decimal_text(o[0]);
    let d1 = decimal_text(o[1]);
    let d2 = decimal_text(o[2]);
    let d3 = decimal_text(o[3]);
    lemma_decimal_text(o[0]);
    lemma_decimal_text(o[1]);
    lemma_decimal_text(o[2]);
    lemma_decimal_text(o[3]);
    lemma_digits_plain(d0);
    lemma_digits_plain(d1);
    lemma_digits_plain(d2);
    lemma_digits_plain(d3);
    let r2 = d2 + seq!['.'] + d3;
    let r1 = d1 + seq!['.'] + r2;
    let a = d0 + seq!['.'] + r1;
    assert(a =~= address_text(base));
    lemma_first_index(a, d0, '.', r1);
    lemma_first_index(r1, d1, '.', r2);
    lemma_first_index(r2, d2, '.', d3);
    assert(a.take(d0.len() as int) =~= d0);
    assert(a.skip(d0.len() as int + 1) =~= r1);
    assert(r1.take(d1.len() as int) =~= d1);
    assert(r1.skip(d1.len() as int + 1) =~= r2);
    assert(r2.take(d2.len() as int) =~= d2);
    assert(r2.skip(d2.len() as int + 1) =~= d3);
    assert(split_at_dot(a) == Some((d0, r1)));
    assert(split_at_dot(r1) == Some((d1, r2)));
    assert(split_at_dot(r2) == Some((d2, d3)));
    lemma_octets_value(base);
    assert(value_of_octets(o[0], o[1], o[2], o[3]) == base);
    assert(!a.contains('/')) by {
        if a.contains('/') {
            let k = choose|k: int| 0 <= k < a.len() && a[k] == '/';
            if k < d0.len() {
                assert(d0[k] == a[k]);
            } else if k == d0.len() {
            } else {
                let k1 = k - d0.len() - 1;
                assert(r1[k1] == a[k]);
                if k1 < d1.len() {
                    assert(d1[k1] == r1[k1]);
                } else if k1 == d1.len() {
                } else {
                    let k2 = k1 - d1.len() - 1;
                    assert(r2[k2] == r1[k1]);
                    if k2 < d2.len() {
                        assert(d2[k2] == r2[k2]);
                    } else if k2 == d2.len() {
                    } else {
                        assert(d3[k2 - d2.len() - 1] == r2[k2]);
                    }
                }
            }
        }
    }
    assert forall|k: int| 0 <= k < a.len() implies '\0' <= #[trigger] a[k] <= '\u{7f}' by {
        if k < d0.len() {
            assert(d0[k] == a[k]);
        } else if k == d0.len() {
        } else {
            let k1 = k - d0.len() - 1;
            assert(r1[k1] == a[k]);
            if k1 < d1.len() {
                assert(d1[k1] == r1[k1]);
            } else if k1 == d1.len() {
            } else {
                let k2 = k1 - d1.len() - 1;
                assert(r2[k2] == r1[k1]);
                if k2 < d2.len() {
                    assert(d2[k2] == r2[k2]);
                } else if k2 == d2.len() {
                } else {
                    assert(d3[k2 - d2.len() - 1] == r2[k2]);
                }
            }
        }
    }
}

/// The CIDR text of a subnet reads back as that subnet: `parse_subnet` of
/// `subnet_text(base, prefix)` gives `base` and `prefix` again.
#[verifier::rlimit(60)]
pub proof fn lemma_subnet_text_round_trip(base: u32, prefix: u8)
    ensures
        parse_subnet_spec(subnet_text_spec(base, prefix)) == Ok::<(Ipv4Address, u8), SubnetError>(
            (Ipv4Address { value: base }, prefix),
        ),
{
    let a = address_text(base);
    let p = decimal_text(prefix);
    lemma_address_text(base);
    lemma_decimal_text(prefix);
    lemma_digits_plain(p);
    let t = a + seq!['/'] + p;
    assert(t =~= subnet_text_spec(base, prefix));
    assert(is_ascii_chars(t)) by {
        assert forall|k: int| 0 <= k < t.len() implies '\0' <= #[trigger] t[k] <= '\u{7f}' by {
            if k < a.len() {
                assert(a[k] == t[k]);
            } else if k > a.len() {
                assert(p[k - a.len() - 1] == t[k]);
            }
        }
    }
    let b = encode_utf8(t);
    is_ascii_chars_encode_utf8(t);
    is_ascii_chars_encode_utf8(a);
    is_ascii_chars_encode_utf8(p);
    let ea = encode_utf8(a);
    let ep = encode_utf8(p);
    assert(b =~= ea + seq![SLASH] + ep) by {
        assert forall|k: int| 0 <= k < b.len() implies b[k] == (ea + seq![SLASH] + ep)[k] by {
            assert(t[k] as u8 == b[k]);
            if k < a.len() {
                assert(a[k] == t[k]);
                assert(a[k] as u8 == ea[k]);
            } else if k == a.len() {
                assert(t[k] == '/');
            } else {
                assert(p[k - a.len() - 1] == t[k]);
                assert(p[k - a.len() - 1] as u8 == ep[k - a.len() - 1]);
            }
        }
    }
    assert(!ea.contains(SLASH)) by {
        if ea.contains(SLASH) {
            let k = choose|k: int| 0 <= k < ea.len() && ea[k] == SLASH;
            assert(a[k] as u8 == ea[k]);
            assert(a.contains(a[k]));
        }
    }
    lemma_first_index(b, ea, SLASH, ep);
    assert(b.take(ea.len() as int) =~= ea);
    assert(b.skip(ea.len() as int + 1) =~= ep);
    encode_utf8_decode_utf8(a);
    encode_utf8_decode_utf8(p);
}

} // verus!
