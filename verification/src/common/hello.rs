use crate::common::digest::{sha256, sha256_of_pair};
use crate::common::ipv4::{octets_of, value_of_octets, Ipv4Address};
use crate::common::text::{completable, longest_valid_prefix, str_from_utf8};
use vstd::prelude::*;
use vstd::utf8::*;

verus! {

/// Length in bytes of the nonce the server sends to start a handshake.
pub const NONCE_SIZE: usize = 16;

/// Upper bound on the bytes either side reads during a handshake.
pub const MAX_HANDSHAKE_DATA: usize = 512;

/// The byte between the user name and the session secret in a client hello.
pub const SEPARATOR: u8 = 58u8;

/// The session secret that proves knowledge of `secret` for one `nonce`:
/// SHA-256 of the secret's UTF-8 bytes followed by the nonce.
pub open spec fn session_secret_for(secret: Seq<char>, nonce: Seq<u8>) -> Seq<u8> {
    sha256(encode_utf8(secret) + nonce)
}

/// Wire form of a client hello: the user name in UTF-8, `:`, the session secret.
pub open spec fn client_hello_bytes(user: Seq<char>, session_secret: Seq<u8>) -> Seq<u8> {
    encode_utf8(user) + seq![SEPARATOR] + session_secret
}

/// Index of the first separator byte in `bytes` (meaningful when there is one).
pub open spec fn separator_position(bytes: Seq<u8>) -> int {
    bytes.index_of_first(SEPARATOR)->0
}

/// The bytes naming the user in a client hello: everything before the first separator.
pub open spec fn user_part(bytes: Seq<u8>) -> Seq<u8> {
    bytes.take(separator_position(bytes))
}

/// The session secret in a client hello: everything after the first separator.
pub open spec fn secret_part(bytes: Seq<u8>) -> Seq<u8> {
    bytes.skip(separator_position(bytes) + 1)
}

/// Wire form of a server hello: the four octets of the address, then the prefix length.
pub open spec fn server_hello_bytes(addr: u32, prefix: u8) -> Seq<u8> {
    octets_of(addr).push(prefix)
}

/// First message of the client: who it is and a proof that it knows its secret.
pub struct ClientHello {
    pub user: String,
    pub session_secret: Vec<u8>,
}

/// Why a client hello could not be read.
#[derive(Clone, Copy, Debug, PartialEq, Eq, Structural)]
pub enum HelloError {
    /// The user name is not valid UTF-8: its first `valid_up_to` bytes are,
    /// and `error_len` is the length of the invalid sequence after them, or
    /// `None` where the name ends inside a character.
    InvalidUtf8 { valid_up_to: usize, error_len: Option<usize> },
}

/// Reply of the server: the address assigned to the client and the subnet's prefix length.
#[derive(Clone, Copy, Debug, PartialEq, Eq, Structural)]
pub struct ServerHello {
    pub addr: Ipv4Address,
    pub prefix: u8,
}

/// Appends `src` to `dst`.
fn append_bytes(dst: &mut Vec<u8>, src: &[u8])
    ensures
        final(dst)@ == old(dst)@ + src@,
{
    let n = src.len();
    for i in 0..n
        invariant
            n == src@.len(),
            dst@ == old(dst)@ + src@.take(i as int),
    {
        dst.push(src[i]);
        assert(src@.take(i + 1) =~= src@.take(i as int).push(src@[i as int]));
    }
    assert(src@.take(n as int) =~= src@);
}

/// The bytes `src[start..end]` as a new vector.
fn copy_range(src: &Vec<u8>, start: usize, end: usize) -> (out: Vec<u8>)
    requires
        start <= end <= src@.len(),
    ensures
        out@ == src@.subrange(start as int, end as int),
{
    let mut out: Vec<u8> = Vec::new();
    let mut i = start;
    while i < end
        invariant
            start <= i <= end <= src@.len(),
            out@ == src@.subrange(start as int, i as int),
        decreases end - i,
    {
        out.push(src[i]);
        assert(src@.subrange(start as int, i + 1) =~= src@.subrange(start as int, i as int).push(
            src@[i as int],
        ));
        i += 1;
    }
    out
}

impl ClientHello {
    /// A hello for `user` that answers `nonce` with knowledge of `secret`.
    pub fn from_secret(user: String, secret: &str, nonce: &[u8]) -> (hello: Self)
        ensures
            hello.user@ == user@,
            hello.session_secret@ == session_secret_for(secret@, nonce@),
            session_secret_for(secret@, nonce@).len() == 32,
    {
        let session_secret = sha256_of_pair(secret.as_bytes(), nonce);
        ClientHello { user, session_secret }
    }

    /// Whether this hello answers `nonce` with knowledge of `secret`.
    pub fn verify(&self, secret: &str, nonce: &[u8]) -> (ok: bool)
        ensures
            ok == (self.session_secret@ == session_secret_for(secret@, nonce@)),
            session_secret_for(secret@, nonce@).len() == 32,
    {
        let expected = sha256_of_pair(secret.as_bytes(), nonce);
        let n = self.session_secret.len();
        if n != expected.len() {
            proof {
                if self.session_secret@ == expected@ {
                    assert(self.session_secret@.len() == expected@.len());
                }
            }
            return false;
        }
        for i in 0..n
            invariant
                n == self.session_secret@.len(),
                n == expected@.len(),
                expected@ == session_secret_for(secret@, nonce@),
                expected@.len() == 32,
                forall|j: int| 0 <= j < i ==> self.session_secret@[j] == expected@[j],
        {
            if self.session_secret[i] != expected[i] {
                proof {
                    if self.session_secret@ == expected@ {
                        assert(self.session_secret@[i as int] == expected@[i as int]);
                    }
                }
                return false;
            }
        }
        assert(self.session_secret@ =~= expected@);
        true
    }

    /// The wire form of this hello.
    pub fn into_bytes(self) -> (bytes: Vec<u8>)
        ensures
            bytes@ == client_hello_bytes(self.user@, self.session_secret@),
    {
        let mut result: Vec<u8> = Vec::new();
        append_bytes(&mut result, self.user.as_str().as_bytes());
        result.push(SEPARATOR);
        append_bytes(&mut result, self.session_secret.as_slice());
        result
    }

    /// Reads a hello from its wire form: the user name is what precedes the
    /// first `:`, the session secret what follows it.
    pub fn from_vec(value: Vec<u8>) -> (res: Result<Self, HelloError>)
        requires
            value@.contains(SEPARATOR),
        ensures
            res is Ok <==> valid_utf8(user_part(value@)),
            res matches Ok(hello) ==> {
                &&& hello.user@ == decode_utf8(user_part(value@))
                &&& hello.session_secret@ == secret_part(value@)
            },
            res matches Err(HelloError::InvalidUtf8 { valid_up_to, error_len }) ==> {
                &&& longest_valid_prefix(user_part(value@), valid_up_to as int)
                &&& error_len is None <==> completable(user_part(value@).skip(valid_up_to as int))
                &&& error_len matches Some(n) ==> 1 <= n <= 3 && valid_up_to + n <= user_part(
                    value@,
                ).len()
            },
    {
        let len = value.len();
        let mut pos: usize = 0;
        while pos < len && value[pos] != SEPARATOR
            invariant
                pos <= len,
                len == value@.len(),
                value@.contains(SEPARATOR),
                forall|j: int| 0 <= j < pos ==> value@[j] != SEPARATOR,
            decreases len - pos,
        {
            pos += 1;
        }
        proof {
            value@.index_of_first_ensures(SEPARATOR);
            if pos == len {
                let k = choose|k: int| 0 <= k < value@.len() && value@[k] == SEPARATOR;
                assert(value@[k] != SEPARATOR);
            }
            let p = separator_position(value@);
            if p < pos {
                assert(value@[p] != SEPARATOR);
            }
            if pos < p {
                assert(value@[pos as int] == SEPARATOR);
            }
            assert(p == pos);
        }
        let user_bytes = copy_range(&value, 0, pos);
        let session_secret = copy_range(&value, pos + 1, len);
        assert(user_bytes@ =~= user_part(value@));
        assert(session_secret@ =~= secret_part(value@));
        match str_from_utf8(user_bytes.as_slice()) {
            Ok(s) => {
                let user = s.to_owned();
                proof {
                    encode_utf8_decode_utf8(s@);
                }
                Ok(ClientHello { user, session_secret })
            },
            Err((valid_up_to, error_len)) => Err(HelloError::InvalidUtf8 { valid_up_to, error_len }),
        }
    }
}

impl ServerHello {
    /// The wire form of this hello.
    pub fn into_bytes(self) -> (bytes: Vec<u8>)
        ensures
            bytes@ == server_hello_bytes(self.addr.value, self.prefix),
    {
        let o = self.addr.octets();
        let bytes = vec![o[0], o[1], o[2], o[3], self.prefix];
        assert(bytes@ =~= server_hello_bytes(self.addr.value, self.prefix));
        bytes
    }

    /// Reads a hello from its wire form: four address octets, then the prefix length.
    pub fn from_bytes(value: Vec<u8>) -> (hello: Self)
        requires
            value@.len() >= 5,
        ensures
            hello.addr.value == value_of_octets(value@[0], value@[1], value@[2], value@[3]),
            hello.prefix == value@[4],
    {
        ServerHello {
            addr: Ipv4Address::from_octets(value[0], value[1], value[2], value[3]),
            prefix: value[4],
        }
    }
}

/// A character other than `:` has no `:` byte in its UTF-8 encoding.
proof fn lemma_scalar_has_no_separator(x: u32)
    requires
        is_scalar(x),
        x != 58,
    ensures
        !encode_scalar(x).contains(SEPARATOR),
{
    let e = encode_scalar(x);
    assert(has_width_1_encoding(x) && x != 58 ==> leading_byte_width_1(x) != 58u8) by (bit_vector);
    assert(leading_byte_width_2(x) != 58u8) by (bit_vector);
    assert(leading_byte_width_3(x) != 58u8) by (bit_vector);
    assert(leading_byte_width_4(x) != 58u8) by (bit_vector);
    assert(last_continuation_byte(x) != 58u8) by (bit_vector);
    assert(second_last_continuation_byte(x) != 58u8) by (bit_vector);
    assert(third_last_continuation_byte(x) != 58u8) by (bit_vector);
    assert forall|i: int| 0 <= i < e.len() implies e[i] != SEPARATOR by {}
}

/// A string without `:` has no `:` byte in its UTF-8 encoding.
proof fn lemma_utf8_has_no_separator(chars: Seq<char>)
    requires
        !chars.contains(':'),
    ensures
        !encode_utf8(chars).contains(SEPARATOR),
    decreases chars.len(),
{
    if chars.len() > 0 {
        let rest = chars.drop_first();
        assert(!rest.contains(':')) by {
            if rest.contains(':') {
                let k = choose|k: int| 0 <= k < rest.len() && rest[k] == ':';
                assert(chars[k + 1] == ':');
            }
        }
        lemma_utf8_has_no_separator(rest);
        char_is_scalar(chars[0]);
        assert(chars[0] != ':');
        assert(':' as u32 == 58);
        if chars[0] as u32 == 58 {
            char_u32_cast(chars[0], 58);
            char_u32_cast(':', 58);
        }
        lemma_scalar_has_no_separator(chars[0] as u32);
        let head = encode_scalar(chars[0] as u32);
        let tail = encode_utf8(rest);
        assert(encode_utf8(chars) == head + tail);
        assert forall|i: int| 0 <= i < (head + tail).len() implies (head + tail)[i] != SEPARATOR by {
            if i < head.len() {
                assert(head[i] == (head + tail)[i]);
            } else {
                assert(tail[i - head.len()] == (head + tail)[i]);
            }
        }
    }
}

/// Reading back the wire form of a client hello gives the same user and
/// session secret, provided the user name holds no `:`.
pub proof fn lemma_client_hello_roundtrip(user: Seq<char>, session_secret: Seq<u8>)
    requires
        !user.contains(':'),
    ensures
        client_hello_bytes(user, session_secret).contains(SEPARATOR),
        valid_utf8(user_part(client_hello_bytes(user, session_secret))),
        decode_utf8(user_part(client_hello_bytes(user, session_secret))) == user,
        secret_part(client_hello_bytes(user, session_secret)) == session_secret,
{
    let u = encode_utf8(user);
    let b = client_hello_bytes(user, session_secret);
    lemma_utf8_has_no_separator(user);
    assert(b[u.len() as int] == SEPARATOR);
    b.index_of_first_ensures(SEPARATOR);
    let p = separator_position(b);
    if p < u.len() {
        assert(b[p] == u[p]);
    }
    if p > u.len() {
        assert(b[u.len() as int] != SEPARATOR);
    }
    assert(p == u.len());
    assert(user_part(b) =~= u);
    assert(secret_part(b) =~= session_secret);
    encode_utf8_valid_utf8(user);
    encode_utf8_decode_utf8(user);
}

/// Reading back the wire form of a server hello gives the same address and prefix.
pub proof fn lemma_server_hello_roundtrip(addr: u32, prefix: u8)
    ensures
        server_hello_bytes(addr, prefix).len() == 5,
        value_of_octets(
            server_hello_bytes(addr, prefix)[0],
            server_hello_bytes(addr, prefix)[1],
            server_hello_bytes(addr, prefix)[2],
            server_hello_bytes(addr, prefix)[3],
        ) == addr,
        server_hello_bytes(addr, prefix)[4] == prefix,
{
    crate::common::ipv4::lemma_octets_value(addr);
}

} // verus!
