//! Ephemeral TLS identities: one self-signed certificate/key pair per
//! listener, bound to that listener's address string, held only in
//! memory.  Generation itself is rcgen's; everything around the call is
//! verified.
use vstd::prelude::*;

verus! {

/// An in-memory self-signed identity for exactly one hostname: the
/// certificate and the private key, both DER-encoded.
pub struct EphemeralCertificate {
    pub hostname: Vec<u8>,
    pub cert_der: Vec<u8>,
    pub key_der: Vec<u8>,
}

/// Certificate generation failed; fatal for the listener that asked,
/// and by design for the whole process — never a silent fall back to
/// plaintext.
#[derive(Clone, Copy, PartialEq, Eq, Structural, Debug)]
pub enum CertGenerationError {
    GenerationFailed,
}

/// Relies on rcgen::generate_simple_self_signed for a self-signed
/// certificate whose subject alternative names cover exactly the one
/// given hostname/IP string, on rcgen::Certificate::serialize_der for
/// its DER encoding, and on rcgen::KeyPair::serialize_der for the
/// private key's.  Key generation is random, so nothing is promised of
/// the returned bytes.
#[verifier::external_body]
fn rcgen_self_signed_der(hostname: &Vec<u8>) -> (r: Option<(Vec<u8>, Vec<u8>)>) {
    let host = String::from_utf8_lossy(hostname).into_owned();
    let cert = match rcgen::generate_simple_self_signed(vec![host]) {
        Ok(c) => c,
        Err(_) => return None,
    };
    let cert_der = match cert.serialize_der() {
        Ok(d) => d,
        Err(_) => return None,
    };
    let key_der = cert.get_key_pair().serialize_der();
    Some((cert_der, key_der))
}

/// Binds generated DER material to the hostname it was requested for.
pub fn certificate_from_parts(hostname: Vec<u8>, cert_der: Vec<u8>, key_der: Vec<u8>) -> (c:
    EphemeralCertificate)
    ensures
        c.hostname@ == hostname@,
        c.cert_der@ == cert_der@,
        c.key_der@ == key_der@,
{
    EphemeralCertificate { hostname, cert_der, key_der }
}

/// Provisions one ephemeral identity for one hostname.  Whatever material
/// generation hands back, the identity returned is bound to exactly the
/// requested hostname; when generation fails the error is surfaced, never
/// swallowed.
pub fn provision(hostname: Vec<u8>) -> (r: Result<EphemeralCertificate, CertGenerationError>)
    ensures
        (match r {
            Ok(c) => c.hostname@ == hostname@,
            Err(e) => e is GenerationFailed,
        }),
{
    match rcgen_self_signed_der(&hostname) {
        Some((cert_der, key_der)) => Ok(certificate_from_parts(hostname, cert_der, key_der)),
        None => Err(CertGenerationError::GenerationFailed),
    }
}

} // verus!
