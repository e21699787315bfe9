//! The two proofs that a host receives: an attestation when a device is
//! registered, an assertion when a user logs in.
//!
//! An envelope carries the raw bytes together with what the host supplied
//! when it asked for the proof. The challenge and the authority are always
//! read from the signed client data and never from a copy beside it, so an
//! envelope cannot state one thing and have signed another.

use vstd::prelude::*;

use crate::client_data::{
    authority_in, challenge_in, find_authority_id_from_client_data,
    find_challenge_from_client_data, opt_id, AuthorityId, Challenge,
};
use crate::signature::{webauthn_verdict, webauthn_verify};

verus! {

/// Identifies one registered authenticator.
pub type DeviceId = [u8; 32];

/// Identifies one enrolled user.
pub type HashedUserId = [u8; 32];

/// The identifier that stands in where client data yields none. No host
/// expects it, so a comparison with it fails.
pub open spec fn default_id() -> Seq<u8> {
    Seq::new(32, |i: int| 0u8)
}

/// What was extracted, or the default.
pub open spec fn id_or_default(id: Option<Seq<u8>>) -> Seq<u8> {
    match id {
        Some(bytes) => bytes,
        None => default_id(),
    }
}

/// What the host supplied for an attestation.
#[derive(Debug, PartialEq, Eq, Clone, Copy)]
pub struct AttestationMeta<Cx> {
    pub device_id: DeviceId,
    pub context: Cx,
}

/// Proof that a new authenticator holds the private key of the public key it
/// presents.
#[derive(Debug, PartialEq, Eq, Clone)]
pub struct Attestation<Cx> {
    pub meta: AttestationMeta<Cx>,
    pub authenticator_data: Vec<u8>,
    pub client_data: Vec<u8>,
    pub signature: Vec<u8>,
    pub public_key: Vec<u8>,
}

/// What the host supplied for an assertion.
#[derive(Debug, PartialEq, Eq, Clone, Copy)]
pub struct AssertionMeta<Cx> {
    pub user_id: HashedUserId,
    pub context: Cx,
}

/// Proof that a user holds a registered authenticator. It carries no key:
/// the host verifies it with the key it stored at registration.
#[derive(Debug, PartialEq, Eq, Clone)]
pub struct Assertion<Cx> {
    pub meta: AssertionMeta<Cx>,
    pub authenticator_data: Vec<u8>,
    pub client_data: Vec<u8>,
    pub signature: Vec<u8>,
}

/// What a host keeps of a registered device.
#[derive(Debug, PartialEq, Eq, Clone)]
pub struct Credential {
    pub device_id: DeviceId,
    pub public_key: Vec<u8>,
}

/// The identifier extracted from client data, or the default where there is
/// none.
pub fn unwrap_or_default(id: Option<[u8; 32]>) -> (out: [u8; 32])
    ensures
        out@ == id_or_default(opt_id(id)),
{
    match id {
        Some(bytes) => bytes,
        None => {
            let zeros: [u8; 32] = [0u8; 32];
            assert(zeros@ =~= default_id());
            zeros
        },
    }
}

impl<Cx: Copy> Attestation<Cx> {
    /// Puts together what the host supplied and what the authenticator and
    /// the client produced.
    pub fn new(
        meta: AttestationMeta<Cx>,
        authenticator_data: Vec<u8>,
        client_data: Vec<u8>,
        signature: Vec<u8>,
        public_key: Vec<u8>,
    ) -> (attestation: Self)
        ensures
            attestation.meta == meta,
            attestation.authenticator_data == authenticator_data,
            attestation.client_data == client_data,
            attestation.signature == signature,
            attestation.public_key == public_key,
    {
        Self { meta, authenticator_data, client_data, signature, public_key }
    }

    /// The context that the host supplied.
    pub fn context(&self) -> (context: Cx)
        ensures
            context == self.meta.context,
    {
        self.meta.context
    }

    /// The challenge that the client signed, or the default.
    pub fn challenge(&self) -> (challenge: Challenge)
        ensures
            challenge@ == id_or_default(challenge_in(self.client_data@)),
    {
        unwrap_or_default(find_challenge_from_client_data(self.client_data.clone()))
    }

    /// Whether the signature is valid under the public key that the
    /// attestation itself presents.
    pub fn is_valid(&self) -> (valid: bool)
        ensures
            valid == (webauthn_verdict(
                self.authenticator_data@,
                self.client_data@,
                self.signature@,
                self.public_key@,
            ) is Ok),
    {
        webauthn_verify(
            self.authenticator_data.as_slice(),
            self.client_data.as_slice(),
            self.signature.as_slice(),
            self.public_key.as_slice(),
        ).is_ok()
    }

    /// The context, and the challenge that the client signed for it.
    pub fn used_challenge(&self) -> (used: (Cx, Challenge))
        ensures
            used.0 == self.meta.context,
            used.1@ == id_or_default(challenge_in(self.client_data@)),
    {
        (self.context(), self.challenge())
    }

    /// The relying party that the client signed for, or the default.
    pub fn authority(&self) -> (authority: AuthorityId)
        ensures
            authority@ == id_or_default(authority_in(self.client_data@)),
    {
        unwrap_or_default(find_authority_id_from_client_data(self.client_data.clone()))
    }

    /// The identifier to register the device under.
    pub fn device_id(&self) -> (device_id: &DeviceId)
        ensures
            *device_id == self.meta.device_id,
    {
        &self.meta.device_id
    }
}

impl<Cx: Copy> Assertion<Cx> {
    /// The challenge that the client signed, or the default.
    pub fn challenge(&self) -> (challenge: Challenge)
        ensures
            challenge@ == id_or_default(challenge_in(self.client_data@)),
    {
        unwrap_or_default(find_challenge_from_client_data(self.client_data.clone()))
    }

    /// Whether the signature is valid under the public key that the host
    /// stored for the device.
    pub fn is_valid(&self, public_key: &[u8]) -> (valid: bool)
        ensures
            valid == (webauthn_verdict(
                self.authenticator_data@,
                self.client_data@,
                self.signature@,
                public_key@,
            ) is Ok),
    {
        webauthn_verify(
            self.authenticator_data.as_slice(),
            self.client_data.as_slice(),
            self.signature.as_slice(),
            public_key,
        ).is_ok()
    }

    /// The context, and the challenge that the client signed for it.
    pub fn used_challenge(&self) -> (used: (Cx, Challenge))
        ensures
            used.0 == self.meta.context,
            used.1@ == id_or_default(challenge_in(self.client_data@)),
    {
        (self.meta.context, self.challenge())
    }

    /// The relying party that the client signed for, or the default.
    pub fn authority(&self) -> (authority: AuthorityId)
        ensures
            authority@ == id_or_default(authority_in(self.client_data@)),
    {
        unwrap_or_default(find_authority_id_from_client_data(self.client_data.clone()))
    }

    /// The user that the assertion is for.
    pub fn user_id(&self) -> (user_id: HashedUserId)
        ensures
            user_id == self.meta.user_id,
    {
        self.meta.user_id
    }
}

impl Credential {
    /// The record of a device and its DER-encoded public key.
    pub fn new(device_id: DeviceId, public_key: Vec<u8>) -> (credential: Self)
        ensures
            credential.device_id == device_id,
            credential.public_key == public_key,
    {
        Self { device_id, public_key }
    }

    /// The record to store for the device that an attestation registers.
    pub fn from_attestation<Cx: Copy>(attestation: Attestation<Cx>) -> (credential: Self)
        ensures
            credential.device_id == attestation.meta.device_id,
            credential.public_key == attestation.public_key,
    {
        Self { device_id: attestation.meta.device_id, public_key: attestation.public_key }
    }

    /// Verifies an assertion with the stored public key.
    pub fn verify<Cx: Copy>(&self, credential: &Assertion<Cx>) -> (verified: Option<()>)
        ensures
            verified is Some <==> webauthn_verdict(
                credential.authenticator_data@,
                credential.client_data@,
                credential.signature@,
                self.public_key@,
            ) is Ok,
    {
        if credential.is_valid(self.public_key.as_slice()) {
            Some(())
        } else {
            None
        }
    }

    /// The identifier that the device is registered under.
    pub fn device_id(&self) -> (device_id: &DeviceId)
        ensures
            *device_id == self.device_id,
    {
        &self.device_id
    }
}

} // verus!
