//! Verification against a public key that still is a COSE_Key.
//!
//! The signature check itself works on DER keys. A caller that holds the key
//! as CBOR gets it converted here first, by `coset` and
//! `passkey_authenticator`.

use coset::CborSerializable;
use vstd::prelude::*;

use crate::bytes::opt_bytes;
use crate::signature::{webauthn_verdict, webauthn_verify};

verus! {

/// The SEC1 point that `coset` reads out of a CBOR-encoded EC2 key, if it
/// reads one.
pub uninterp spec fn cose_key_point(cbor: Seq<u8>) -> Option<Seq<u8>>;

/// The DER SubjectPublicKeyInfo that `passkey_authenticator` makes of a
/// CBOR-encoded COSE_Key, if it makes one.
pub uninterp spec fn cose_key_as_der(cbor: Seq<u8>) -> Option<Seq<u8>>;

/// An uncompressed SEC1 point with two 32-byte coordinates.
pub open spec fn is_p256_point(point: Seq<u8>) -> bool {
    point.len() == 65 && point[0] == 4
}

/// Whether a response is valid under a COSE key, given what the two
/// conversions made of that key.
pub open spec fn response_is_valid(
    authenticator_data: Seq<u8>,
    client_data: Seq<u8>,
    signature_der: Seq<u8>,
    point: Option<Seq<u8>>,
    key_der: Option<Seq<u8>>,
) -> bool {
    &&& point matches Some(p) && is_p256_point(p)
    &&& key_der matches Some(der) && webauthn_verdict(
        authenticator_data,
        client_data,
        signature_der,
        der,
    ) is Ok
}

/// Calls `CoseKey::from_slice`, then `CoseKey::to_sec1_octet_string` on the
/// key. Trusted: the point that comes out, or that none does, depends on the
/// bytes alone.
#[verifier::external_body]
fn cose_key_sec1_point(cbor: &[u8]) -> (point: Option<Vec<u8>>)
    ensures
        opt_bytes(point) == cose_key_point(cbor@),
{
    coset::CoseKey::from_slice(cbor).ok()?.to_sec1_octet_string().ok()
}

/// Calls `CoseKey::from_slice`, then
/// `passkey_authenticator::public_key_der_from_cose_key` on the key.
/// Trusted: the DER bytes that come out, or that none do, depend on the bytes
/// alone. The second call indexes both coordinates as 32-byte arrays, so the
/// key must hold an uncompressed point of that size.
#[verifier::external_body]
fn cose_key_to_der(cbor: &[u8]) -> (der: Option<Vec<u8>>)
    requires
        cose_key_point(cbor@) matches Some(p) && is_p256_point(p),
    ensures
        opt_bytes(der) == cose_key_as_der(cbor@),
{
    let key = coset::CoseKey::from_slice(cbor).ok()?;
    passkey_authenticator::public_key_der_from_cose_key(&key).ok().map(Vec::from)
}

/// Whether the point is uncompressed with 32-byte coordinates.
pub fn has_p256_coordinates(point: &Option<Vec<u8>>) -> (ok: bool)
    ensures
        ok == (opt_bytes(*point) matches Some(p) && is_p256_point(p)),
{
    match point {
        Some(p) => p.len() == 65 && p[0] == 4,
        None => false,
    }
}

/// Verifies a response under the key that a COSE conversion gave, if it gave
/// one.
pub fn verify_with_converted_key(
    authenticator_data: &[u8],
    client_data_json: &[u8],
    signature_der: &[u8],
    key_der: &Option<Vec<u8>>,
) -> (ok: bool)
    ensures
        ok == (opt_bytes(*key_der) matches Some(der) && webauthn_verdict(
            authenticator_data@,
            client_data_json@,
            signature_der@,
            der,
        ) is Ok),
{
    match key_der {
        Some(der) => webauthn_verify(
            authenticator_data,
            client_data_json,
            signature_der,
            der.as_slice(),
        ).is_ok(),
        None => false,
    }
}

/// Verifies the signature of a WebAuthn response against a public key in
/// COSE format. A key that is no COSE_Key, or no P-256 key with two 32-byte
/// coordinates, is refused.
pub fn verify_webauthn_response(
    authenticator_data: &[u8],
    client_data_json: &[u8],
    signature_der: &[u8],
    credential_public_key_cbor: &[u8],
) -> (ok: bool)
    ensures
        ok == response_is_valid(
            authenticator_data@,
            client_data_json@,
            signature_der@,
            cose_key_point(credential_public_key_cbor@),
            cose_key_as_der(credential_public_key_cbor@),
        ),
{
    let point = cose_key_sec1_point(credential_public_key_cbor);
    if !has_p256_coordinates(&point) {
        return false;
    }
    let key_der = cose_key_to_der(credential_public_key_cbor);
    verify_with_converted_key(authenticator_data, client_data_json, signature_der, &key_der)
}

} // verus!
