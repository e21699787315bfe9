//! ECDSA P-256 verification of the WebAuthn signed message.
//!
//! The signed message is the authenticator data followed by the SHA-256 hash
//! of the client data, with nothing in between. The cryptography itself is
//! done by the `sha2` and `p256` crates; what this module proves is which
//! bytes reach them and which verdict each of their answers leads to.

use p256::ecdsa::signature::Verifier;
use p256::pkcs8::DecodePublicKey;
use sha2::Digest;
use vstd::prelude::*;

verus! {

/// Why a signature check was refused.
#[derive(Debug, Clone, Copy, PartialEq, Eq, Structural)]
pub enum VerifyError {
    /// The public key bytes are not a P-256 key in DER SubjectPublicKeyInfo form.
    ExtractPublicKey,
    /// The signature bytes are not a DER ECDSA signature.
    ParseSignature,
    /// Key and signature decoded, but the signature does not validate.
    VerifySignature,
}

/// The SHA-256 digest of `data`, as `sha2` computes it.
pub uninterp spec fn sha256_digest(data: Seq<u8>) -> Seq<u8>;

/// Whether `der` decodes as a P-256 public key in SubjectPublicKeyInfo form.
pub uninterp spec fn p256_public_key_decodes(der: Seq<u8>) -> bool;

/// Whether `der` parses as an ASN.1 DER ECDSA signature for P-256.
pub uninterp spec fn der_signature_parses(der: Seq<u8>) -> bool;

/// Whether ECDSA/P-256/SHA-256 accepts the DER signature over `message`
/// under the DER public key.
pub uninterp spec fn ecdsa_p256_accepts(
    key_der: Seq<u8>,
    message: Seq<u8>,
    signature_der: Seq<u8>,
) -> bool;

/// The bytes an authenticator signs.
pub open spec fn signed_message_of(authenticator_data: Seq<u8>, client_data: Seq<u8>) -> Seq<u8> {
    authenticator_data + sha256_digest(client_data)
}

/// The verdict that follows from the three cryptographic answers. The key is
/// looked at first, then the signature's encoding, then the signature itself.
pub open spec fn verdict_of(key_decodes: bool, signature_parses: bool, accepted: bool) -> Result<
    (),
    VerifyError,
> {
    if !key_decodes {
        Err(VerifyError::ExtractPublicKey)
    } else if !signature_parses {
        Err(VerifyError::ParseSignature)
    } else if !accepted {
        Err(VerifyError::VerifySignature)
    } else {
        Ok(())
    }
}

/// The verdict on a WebAuthn response, as a function of its four byte strings.
pub open spec fn webauthn_verdict(
    authenticator_data: Seq<u8>,
    client_data: Seq<u8>,
    signature_der: Seq<u8>,
    public_key_der: Seq<u8>,
) -> Result<(), VerifyError> {
    verdict_of(
        p256_public_key_decodes(public_key_der),
        der_signature_parses(signature_der),
        ecdsa_p256_accepts(
            public_key_der,
            signed_message_of(authenticator_data, client_data),
            signature_der,
        ),
    )
}

/// Calls `sha2::Sha256::digest`. Trusted: the 32 bytes returned are the
/// SHA-256 digest of `data`, which depends on `data` alone.
#[verifier::external_body]
fn sha256(data: &[u8]) -> (hash: [u8; 32])
    ensures
        hash@ == sha256_digest(data@),
{
    sha2::Sha256::digest(data).into()
}

/// Calls `DecodePublicKey::from_public_key_der` for `PublicKey<NistP256>`.
/// Trusted: whether that call succeeds depends on the bytes alone.
#[verifier::external_body]
fn public_key_decodes(der: &[u8]) -> (ok: bool)
    ensures
        ok == p256_public_key_decodes(der@),
{
    p256::PublicKey::from_public_key_der(der).is_ok()
}

/// Calls `DerSignature::try_from` on the bytes. Trusted: whether that call
/// succeeds depends on the bytes alone.
#[verifier::external_body]
fn signature_parses(der: &[u8]) -> (ok: bool)
    ensures
        ok == der_signature_parses(der@),
{
    p256::ecdsa::DerSignature::try_from(der).is_ok()
}

/// Decodes the key with `DecodePublicKey::from_public_key_der` and the
/// signature with `DerSignature::try_from`, makes the key a
/// `p256::ecdsa::VerifyingKey`, and calls its `Verifier::verify` on the
/// message. Trusted: the answer depends on the three byte strings alone.
/// Where the key or the signature does not decode, the answer is `false`.
#[verifier::external_body]
fn ecdsa_verify(key_der: &[u8], message: &[u8], signature_der: &[u8]) -> (ok: bool)
    ensures
        ok == ecdsa_p256_accepts(key_der@, message@, signature_der@),
{
    let key = p256::PublicKey::from_public_key_der(key_der);
    let signature = p256::ecdsa::DerSignature::try_from(signature_der);
    match (key, signature) {
        (Ok(key), Ok(signature)) => {
            p256::ecdsa::VerifyingKey::from(key).verify(message, &signature).is_ok()
        },
        _ => false,
    }
}

/// Joins the authenticator data and the client data hash into the message
/// that was signed.
pub fn signed_message(authenticator_data: &[u8], client_data_hash: &[u8; 32]) -> (message: Vec<u8>)
    ensures
        message@ == authenticator_data@ + client_data_hash@,
{
    let mut message: Vec<u8> = Vec::new();
    let mut i: usize = 0;
    while i < authenticator_data.len()
        invariant
            i <= authenticator_data.len(),
            message@ == authenticator_data@.subrange(0, i as int),
        decreases authenticator_data.len() - i,
    {
        message.push(authenticator_data[i]);
        i += 1;
    }
    assert(authenticator_data@.subrange(0, i as int) == authenticator_data@);
    let mut j: usize = 0;
    while j < 32
        invariant
            j <= 32,
            message@ == authenticator_data@ + client_data_hash@.subrange(0, j as int),
        decreases 32 - j,
    {
        message.push(client_data_hash[j]);
        j += 1;
    }
    assert(client_data_hash@.subrange(0, 32) == client_data_hash@);
    message
}

/// Turns the three cryptographic answers into the verdict.
pub fn verdict(key_decodes: bool, signature_parses: bool, accepted: bool) -> (r: Result<
    (),
    VerifyError,
>)
    ensures
        r == verdict_of(key_decodes, signature_parses, accepted),
{
    if !key_decodes {
        Err(VerifyError::ExtractPublicKey)
    } else if !signature_parses {
        Err(VerifyError::ParseSignature)
    } else if !accepted {
        Err(VerifyError::VerifySignature)
    } else {
        Ok(())
    }
}

/// Verifies the signature of a WebAuthn response against a DER-encoded
/// P-256 public key.
pub fn webauthn_verify(
    authenticator_data: &[u8],
    client_data_json: &[u8],
    signature_der: &[u8],
    credential_public_key_der: &[u8],
) -> (r: Result<(), VerifyError>)
    ensures
        r == webauthn_verdict(
            authenticator_data@,
            client_data_json@,
            signature_der@,
            credential_public_key_der@,
        ),
{
    let client_data_hash = sha256(client_data_json);
    let message = signed_message(authenticator_data, &client_data_hash);
    let key_decodes = public_key_decodes(credential_public_key_der);
    let parses = key_decodes && signature_parses(signature_der);
    let accepted = parses && ecdsa_verify(
        credential_public_key_der,
        message.as_slice(),
        signature_der,
    );
    verdict(key_decodes, parses, accepted)
}

} // verus!
