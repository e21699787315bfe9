//! Verification core for WebAuthn-style attestations and assertions.
//!
//! Given the raw bytes that an authenticator and a client produced, the
//! library decides whether the signature is valid and says which challenge
//! and which relying party were signed for. The host that issued the
//! challenge compares; the library never issues or stores anything.
//!
//! - [`signature`]: the ECDSA P-256 check of the signed message.
//! - [`cose`]: the same check for a key that still is a COSE_Key.
//! - [`scan`] and [`client_data`]: the challenge and the authority, read
//!   from client data that is not trusted to be JSON.
//! - [`envelope`]: attestation and assertion, and what each answers.
//! - [`binding`]: the order of a host's checks.
//! - [`laws`]: what holds for every input, proved.

pub mod binding;
pub mod bytes;
pub mod client_data;
pub mod cose;
pub mod envelope;
pub mod laws;
pub mod scan;
pub mod signature;

pub use binding::Rejection;
pub use client_data::{
    find_authority_id_from_client_data, find_challenge_from_client_data, get_from_json_then_map,
    AuthorityId, Challenge,
};
pub use cose::verify_webauthn_response;
pub use envelope::{
    Assertion, AssertionMeta, Attestation, AttestationMeta, Credential, DeviceId, HashedUserId,
};
pub use signature::{webauthn_verify, VerifyError};
