use crate::client::config::UserConfig;
use crate::common::hello::{client_hello_bytes, session_secret_for, ClientHello};
use vstd::prelude::*;

verus! {

/// The client hello that answers the server's `nonce` as `user`.
pub fn hello_message(user: &UserConfig, nonce: &[u8]) -> (bytes: Vec<u8>)
    ensures
        bytes@ == client_hello_bytes(user.name@, session_secret_for(user.secret@, nonce@)),
{
    let hello = ClientHello::from_secret(user.name.clone(), user.secret.as_str(), nonce);
    hello.into_bytes()
}

} // verus!
