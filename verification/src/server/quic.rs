use crate::common::ipv4::octets_of;
use crate::common::text::dotted_quad;
use vstd::prelude::*;
use vstd::utf8::*;

verus! {

/// An error of rcgen, carried through as it is.
#[verifier::external_type_specification]
#[verifier::external_body]
pub struct ExRcgenError(rcgen::Error);

/// Whether `pattern` occurs somewhere in `bytes`.
pub open spec fn occurs_in(pattern: Seq<u8>, bytes: Seq<u8>) -> bool {
    exists|i: int|
        0 <= i && i + pattern.len() <= bytes.len() && #[trigger] bytes.subrange(
            i,
            i + pattern.len(),
        ) == pattern
}

/// The subject alternative name entry that rcgen writes for `name`: an IPv4
/// address (context tag 7, the four octets) when the name reads as one,
/// otherwise a DNS name (context tag 2, the name's bytes). The length byte is
/// the DER length for names shorter than 128 bytes.
pub open spec fn san_entry(name: Seq<char>) -> Seq<u8> {
    match dotted_quad(name) {
        Some(v) => seq![0x87u8, 4u8] + octets_of(v),
        None => seq![0x82u8, encode_utf8(name).len() as u8] + encode_utf8(name),
    }
}

/// Calls `rcgen::generate_simple_self_signed` for the one name, then takes the
/// certificate's DER and the key pair's PKCS#8 DER. Claimed (rcgen's
/// `CertificateParams::new` and its writer of subject alternative names):
/// neither is empty, and the certificate holds the subject alternative name
/// entry for `server_name`, stated for names without `:` (which could read as
/// IPv6 addresses) shorter than 128 bytes. The key is drawn at random, so
/// nothing else is stated of the bytes; when generation fails (no random key,
/// a name that is not ASCII) is not stated either.
#[verifier::external_body]
fn generate_self_signed(server_name: String) -> (r: Result<(Vec<u8>, Vec<u8>), rcgen::Error>)
    ensures
        r matches Ok((cert, key)) ==> {
            &&& cert@.len() > 0
            &&& key@.len() > 0
            &&& !server_name@.contains(':') && encode_utf8(server_name@).len() < 128 ==> occurs_in(
                san_entry(server_name@),
                cert@,
            )
        },
{
    rcgen::generate_simple_self_signed(vec![server_name]).map(
        |c| (c.cert.der().to_vec(), c.signing_key.serialize_der()),
    )
}

/// Where the server's certificate and key come from.
pub enum CertSource {
    /// Both files exist: load them.
    Load,
    /// At least one is missing: a new self-signed certificate and its key.
    Generated { cert: Vec<u8>, key: Vec<u8> },
}

/// Why no certificate could be had.
#[derive(Debug)]
pub enum CertError {
    /// rcgen could not generate a self-signed certificate.
    Generation(rcgen::Error),
}

/// Decides between loading the existing certificate and key, which happens
/// when both files exist, and generating a self-signed certificate for
/// `server_name`, which is then done.
pub fn prepare_certificate(cert_exists: bool, key_exists: bool, server_name: String) -> (r: Result<
    CertSource,
    CertError,
>)
    ensures
        r matches Ok(CertSource::Load) <==> cert_exists && key_exists,
        r matches Ok(CertSource::Generated { cert, key }) ==> {
            &&& cert@.len() > 0
            &&& key@.len() > 0
            &&& !server_name@.contains(':') && encode_utf8(server_name@).len() < 128 ==> occurs_in(
                san_entry(server_name@),
                cert@,
            )
        },
{
    if cert_exists && key_exists {
        return Ok(CertSource::Load);
    }
    match generate_self_signed(server_name) {
        Ok((cert, key)) => Ok(CertSource::Generated { cert, key }),
        Err(e) => Err(CertError::Generation(e)),
    }
}

} // verus!
