use crate::common::hello::{
    client_hello_bytes, lemma_client_hello_roundtrip, lemma_server_hello_roundtrip, separator_position, secret_part, server_hello_bytes,
    session_secret_for, user_part, ClientHello, HelloError, ServerHello, SEPARATOR,
};
use crate::common::ipv4::{value_of_octets, Ipv4Address};
use crate::server::ip::{is_client_address, PoolState};
use crate::common::text::{completable, longest_valid_prefix};
use crate::server::users::UserTable;
use vstd::prelude::*;
use vstd::utf8::*;

verus! {

/// How the server judges a client hello.
#[derive(Clone, Copy, Debug, PartialEq, Eq, Structural)]
pub enum Verdict {
    /// The user name is not valid UTF-8.
    InvalidUtf8,
    /// No user has that name.
    UnknownClient,
    /// The session secret does not answer the nonce with the user's secret.
    AuthenticationFailed,
    /// The client proved it knows its secret.
    Accepted,
}

/// The verdict on the client hello `hello` for the nonce `nonce`, given the
/// users the server knows.
pub open spec fn verdict(users: Map<Seq<char>, Seq<char>>, nonce: Seq<u8>, hello: Seq<u8>) -> Verdict {
    let name = decode_utf8(user_part(hello));
    if !valid_utf8(user_part(hello)) {
        Verdict::InvalidUtf8
    } else if !users.contains_key(name) {
        Verdict::UnknownClient
    } else if secret_part(hello) != session_secret_for(users[name], nonce) {
        Verdict::AuthenticationFailed
    } else {
        Verdict::Accepted
    }
}

/// Why the server refused a client.
#[derive(Debug)]
pub enum HandshakeError {
    /// The user name is not valid UTF-8: its first `valid_up_to` bytes are,
    /// and `error_len` is the length of the invalid sequence after them, or
    /// `None` where the name ends inside a character.
    InvalidUtf8 { valid_up_to: usize, error_len: Option<usize> },
    /// No user has that name.
    UnknownClient,
    /// The named user did not prove knowledge of its secret.
    AuthenticationFailed { user: String },
}

/// An accepted client: its user name, and the server hello to send it.
pub struct Accepted {
    pub user: String,
    pub reply: Vec<u8>,
}

/// Answers a client hello: checks the user and its session secret against
/// `nonce`, and on success builds the server hello that assigns `ip` in a
/// subnet of prefix length `prefix`.
pub fn answer_client_hello(
    users: &UserTable,
    nonce: &[u8],
    hello: Vec<u8>,
    ip: Ipv4Address,
    prefix: u8,
) -> (res: Result<Accepted, HandshakeError>)
    requires
        hello@.contains(SEPARATOR),
    ensures
        match verdict(users@, nonce@, hello@) {
            Verdict::InvalidUtf8 => res matches Err(
                HandshakeError::InvalidUtf8 { valid_up_to, error_len },
            ) && longest_valid_prefix(user_part(hello@), valid_up_to as int) && (error_len is None
                <==> completable(user_part(hello@).skip(valid_up_to as int))) && (
            error_len matches Some(n) ==> 1 <= n <= 3 && valid_up_to + n <= user_part(hello@).len()),
            Verdict::UnknownClient => res matches Err(HandshakeError::UnknownClient),
            Verdict::AuthenticationFailed => res matches Err(
                HandshakeError::AuthenticationFailed { user },
            ) && user@ == decode_utf8(user_part(hello@)),
            Verdict::Accepted => res matches Ok(a) && a.user@ == decode_utf8(user_part(hello@))
                && a.reply@ == server_hello_bytes(ip.value, prefix),
        },
        res is Ok ==> secret_part(hello@).len() == 32,
        forall|user: Seq<char>, old_nonce: Seq<u8>|
            #![trigger client_hello_bytes(user, session_secret_for(users@[user], old_nonce))]
            users@.contains_key(user) && hello@ == client_hello_bytes(
                user,
                session_secret_for(users@[user], old_nonce),
            ) && session_secret_for(users@[user], old_nonce).len() == 32 && session_secret_for(
                users@[user],
                nonce@,
            ) != session_secret_for(users@[user], old_nonce) ==> res is Err,
{
    let ghost bytes = hello@;
    let client_hello = match ClientHello::from_vec(hello) {
        Ok(h) => h,
        Err(HelloError::InvalidUtf8 { valid_up_to, error_len }) => {
            return Err(HandshakeError::InvalidUtf8 { valid_up_to, error_len });
        },
    };
    let secret = match users.get(&client_hello.user) {
        Some(s) => s,
        None => {
            return Err(HandshakeError::UnknownClient);
        },
    };
    if !client_hello.verify(secret.as_str(), nonce) {
        return Err(HandshakeError::AuthenticationFailed { user: client_hello.user });
    }
    proof {
        assert(secret_part(bytes).len() == 32);
        assert forall|user: Seq<char>, old_nonce: Seq<u8>|
            users@.contains_key(user) && bytes == #[trigger] client_hello_bytes(
                user,
                session_secret_for(users@[user], old_nonce),
            ) && session_secret_for(users@[user], old_nonce).len() == 32 && session_secret_for(
                users@[user],
                nonce@,
            ) != session_secret_for(users@[user], old_nonce) implies false by {
            lemma_replay_needs_other_length(users@, user, users@[user], old_nonce, nonce@);
        }
    }
    let reply = ServerHello { addr: ip, prefix }.into_bytes();
    Ok(Accepted { user: client_hello.user, reply })
}

/// A client and a server that share a secret agree: the hello a client builds
/// from its secret and the server's nonce is accepted by a server that knows
/// the user with that secret, provided the user name holds no `:`.
pub proof fn lemma_handshake_accepts_shared_secret(
    users: Map<Seq<char>, Seq<char>>,
    user: Seq<char>,
    secret: Seq<char>,
    nonce: Seq<u8>,
)
    requires
        !user.contains(':'),
        users.contains_key(user),
        users[user] == secret,
    ensures
        client_hello_bytes(user, session_secret_for(secret, nonce)).contains(SEPARATOR),
        decode_utf8(user_part(client_hello_bytes(user, session_secret_for(secret, nonce)))) == user,
        verdict(users, nonce, client_hello_bytes(user, session_secret_for(secret, nonce)))
            == Verdict::Accepted,
{
    lemma_client_hello_roundtrip(user, session_secret_for(secret, nonce));
}

/// A hello from a name the server does not know is refused as an unknown
/// client, whatever its session secret, provided the name holds no `:`.
pub proof fn lemma_handshake_refuses_unknown_user(
    users: Map<Seq<char>, Seq<char>>,
    user: Seq<char>,
    session_secret: Seq<u8>,
    nonce: Seq<u8>,
)
    requires
        !user.contains(':'),
        !users.contains_key(user),
    ensures
        verdict(users, nonce, client_hello_bytes(user, session_secret)) == Verdict::UnknownClient,
{
    lemma_client_hello_roundtrip(user, session_secret);
}

/// The server hello sent to a client carries the address the pool hands out
/// next and the subnet's prefix length: the client reads back an address of
/// the subnet that is neither its network, gateway nor broadcast address.
pub proof fn lemma_assigned_address_in_subnet(pool: PoolState)
    requires
        pool.wf(),
        pool.available.len() > 0,
    ensures
        ({
            let b = server_hello_bytes(pool.available[0].value, pool.prefix);
            &&& value_of_octets(b[0], b[1], b[2], b[3]) == pool.available[0].value
            &&& b[4] == pool.prefix
            &&& is_client_address(pool.base, pool.prefix, pool.available[0].value)
        }),
{
    lemma_server_hello_roundtrip(pool.available[0].value, pool.prefix);
}

/// A client hello recorded during one handshake, for a user whose name holds
/// no `:`, is refused as an authentication failure during a later one whose
/// nonce gives the user another session secret.
pub proof fn lemma_handshake_refuses_replay(
    users: Map<Seq<char>, Seq<char>>,
    user: Seq<char>,
    secret: Seq<char>,
    old_nonce: Seq<u8>,
    nonce: Seq<u8>,
)
    requires
        !user.contains(':'),
        users.contains_key(user),
        users[user] == secret,
        session_secret_for(secret, nonce) != session_secret_for(secret, old_nonce),
    ensures
        verdict(users, nonce, client_hello_bytes(user, session_secret_for(secret, old_nonce)))
            == Verdict::AuthenticationFailed,
{
    lemma_client_hello_roundtrip(user, session_secret_for(secret, old_nonce));
}

/// A client hello recorded during one handshake, whatever the user name, can
/// be judged accepted during a later one whose nonce gives the user another
/// session secret only with a session secret that is not 32 bytes long. The
/// recorded secret is 32 bytes, as `ClientHello::from_secret` ensures, and an
/// accepted one is too, as `answer_client_hello` ensures: so the replay is
/// refused.
pub proof fn lemma_replay_needs_other_length(
    users: Map<Seq<char>, Seq<char>>,
    user: Seq<char>,
    secret: Seq<char>,
    old_nonce: Seq<u8>,
    nonce: Seq<u8>,
)
    requires
        users.contains_key(user),
        users[user] == secret,
        session_secret_for(secret, nonce) != session_secret_for(secret, old_nonce),
        session_secret_for(secret, old_nonce).len() == 32,
    ensures
        verdict(users, nonce, client_hello_bytes(user, session_secret_for(secret, old_nonce)))
            == Verdict::Accepted ==> secret_part(
            client_hello_bytes(user, session_secret_for(secret, old_nonce)),
        ).len() != 32,
{
    let old = session_secret_for(secret, old_nonce);
    let e = encode_utf8(user);
    let b = client_hello_bytes(user, old);
    assert(b[e.len() as int] == SEPARATOR);
    b.index_of_first_ensures(SEPARATOR);
    let p = separator_position(b);
    if p > e.len() {
        assert(b[e.len() as int] != SEPARATOR);
    }
    if p == e.len() {
        assert(user_part(b) =~= e);
        assert(secret_part(b) =~= old);
        encode_utf8_valid_utf8(user);
        encode_utf8_decode_utf8(user);
    } else {
        assert(secret_part(b).len() == e.len() + 32 - p);
    }
}

} // verus!
