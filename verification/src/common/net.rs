use vstd::prelude::*;

verus! {

/// A socket address, carried through configuration as it is; nothing in this
/// library looks inside it.
#[verifier::external_type_specification]
#[verifier::external_body]
pub struct ExSocketAddr(core::net::SocketAddr);

} // verus!
