use vstd::prelude::*;

verus! {

/// A store of trusted root certificates, from rustls; only its trust anchors
/// (`store_roots`) are spoken of.
#[verifier::external_type_specification]
#[verifier::external_body]
pub struct ExRootCertStore(rustls::RootCertStore);

/// An error of rustls, carried through as it is.
#[verifier::external_type_specification]
#[verifier::external_body]
pub struct ExRustlsError(rustls::Error);

/// The trust anchor that webpki's `anchor_from_trusted_cert` takes from a
/// DER certificate: its subject, its subject public key info and its name
/// constraints, each in DER; `None` where it refuses the certificate.
pub uninterp spec fn webpki_anchor(der: Seq<u8>) -> Option<(Seq<u8>, Seq<u8>, Option<Seq<u8>>)>;

/// The trust anchors a store holds, in the order they were added.
pub uninterp spec fn store_roots(store: rustls::RootCertStore) -> Seq<
    (Seq<u8>, Seq<u8>, Option<Seq<u8>>),
>;

/// The anchors of those certificates that webpki accepts, in order.
pub open spec fn parsable_anchors(ders: Seq<Seq<u8>>) -> Seq<(Seq<u8>, Seq<u8>, Option<Seq<u8>>)>
    decreases ders.len(),
{
    if ders.len() == 0 {
        seq![]
    } else {
        let rest = parsable_anchors(ders.drop_last());
        match webpki_anchor(ders.last()) {
            Some(anchor) => rest.push(anchor),
            None => rest,
        }
    }
}

/// Calls `rustls::RootCertStore::empty`. Claimed: the store holds no anchor.
#[verifier::external_body]
fn empty_store() -> (store: rustls::RootCertStore)
    ensures
        store_roots(store) == Seq::<(Seq<u8>, Seq<u8>, Option<Seq<u8>>)>::empty(),
{
    rustls::RootCertStore::empty()
}

/// Calls `rustls::RootCertStore::add`. Claimed (rustls' `anchors.rs`): it
/// succeeds exactly when webpki takes an anchor from the certificate, and
/// then appends that anchor; on failure the store is unchanged.
#[verifier::external_body]
fn add_root(store: &mut rustls::RootCertStore, der: Vec<u8>) -> (r: Result<(), rustls::Error>)
    ensures
        r is Ok <==> webpki_anchor(der@) is Some,
        r is Ok ==> store_roots(*final(store)) == store_roots(*old(store)).push(
            webpki_anchor(der@)->0,
        ),
        r is Err ==> store_roots(*final(store)) == store_roots(*old(store)),
{
    store.add(rustls::pki_types::CertificateDer::from(der))
}

/// Calls `rustls::RootCertStore::add_parsable_certificates`. Claimed
/// (rustls' `anchors.rs`): it appends, in order, the anchor of each
/// certificate that webpki accepts, and skips the others.
#[verifier::external_body]
fn add_parsable_roots(store: &mut rustls::RootCertStore, ders: Vec<Vec<u8>>)
    ensures
        store_roots(*final(store)) == store_roots(*old(store)) + parsable_anchors(
            ders@.map_values(|d: Vec<u8>| d@),
        ),
{
    store.add_parsable_certificates(ders.into_iter().map(rustls::pki_types::CertificateDer::from));
}

/// Why the client's trust store could not be built.
#[derive(Debug)]
pub enum TrustError {
    /// Loading the system's certificates reported errors.
    NativeCertErrors,
    /// rustls refused the configured server certificate.
    BadServerCert(rustls::Error),
}

/// The store of trusted roots before the server certificate is added: when
/// `load_native` is set, the system certificates that rustls can read, unless
/// loading them reported errors; otherwise empty.
pub fn native_root_store(load_native: bool, native_errors: usize, native: Vec<Vec<u8>>) -> (r:
    Result<rustls::RootCertStore, TrustError>)
    ensures
        r is Err <==> load_native && native_errors > 0,
        r matches Err(e) ==> e is NativeCertErrors,
        r matches Ok(store) ==> store_roots(store) == if load_native {
            parsable_anchors(native@.map_values(|d: Vec<u8>| d@))
        } else {
            Seq::<(Seq<u8>, Seq<u8>, Option<Seq<u8>>)>::empty()
        },
{
    let mut store = empty_store();
    if load_native {
        if native_errors > 0 {
            return Err(TrustError::NativeCertErrors);
        }
        add_parsable_roots(&mut store, native);
        assert(store_roots(store) =~= parsable_anchors(native@.map_values(|d: Vec<u8>| d@)));
    }
    Ok(store)
}

/// Adds the configured server certificate to the trusted roots; fails where
/// rustls refuses it.
pub fn add_server_cert(store: &mut rustls::RootCertStore, der: Vec<u8>) -> (r: Result<(), TrustError>)
    ensures
        r is Ok <==> webpki_anchor(der@) is Some,
        r matches Err(e) ==> e is BadServerCert,
        r is Ok ==> store_roots(*final(store)) == store_roots(*old(store)).push(
            webpki_anchor(der@)->0,
        ),
        r is Err ==> store_roots(*final(store)) == store_roots(*old(store)),
{
    match add_root(store, der) {
        Ok(()) => Ok(()),
        Err(e) => Err(TrustError::BadServerCert(e)),
    }
}

} // verus!
