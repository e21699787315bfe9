//! The order in which a host checks a proof.
//!
//! A proof is accepted when its signature is valid, its challenge is the one
//! the host issued for the context, its authority is the host's own, and the
//! host knows the identity it names. The checks are made in that order and
//! the first that fails gives the reason. What the host expects comes from
//! the host: this module compares, it does not issue challenges.

use vstd::prelude::*;

use crate::client_data::{authority_in, challenge_in, AuthorityId, Challenge};
use crate::envelope::{id_or_default, Assertion, Attestation};
use crate::signature::{webauthn_verdict, webauthn_verify, VerifyError};

verus! {

/// Why a proof was rejected. The reason is for diagnostics: a host answers
/// every rejection alike.
#[derive(Debug, Clone, Copy, PartialEq, Eq, Structural)]
pub enum Rejection {
    /// The signature check failed, for the reason given.
    Signature(VerifyError),
    /// The challenge signed is not the one expected for the context.
    Challenge,
    /// The proof was made for another relying party.
    Authority,
    /// The host does not know the device or user that the proof names.
    Identity,
}

/// The outcome of the four checks, the first failure first.
pub open spec fn acceptance_of(
    signature: Result<(), VerifyError>,
    challenge: Seq<u8>,
    expected_challenge: Seq<u8>,
    authority: Seq<u8>,
    expected_authority: Seq<u8>,
    identity_known: bool,
) -> Result<(), Rejection> {
    match signature {
        Err(reason) => Err(Rejection::Signature(reason)),
        Ok(_) => if challenge != expected_challenge {
            Err(Rejection::Challenge)
        } else if authority != expected_authority {
            Err(Rejection::Authority)
        } else if !identity_known {
            Err(Rejection::Identity)
        } else {
            Ok(())
        },
    }
}

/// The outcome for raw proof material.
pub open spec fn proof_acceptance(
    authenticator_data: Seq<u8>,
    client_data: Seq<u8>,
    signature: Seq<u8>,
    public_key: Seq<u8>,
    expected_challenge: Seq<u8>,
    expected_authority: Seq<u8>,
    identity_known: bool,
) -> Result<(), Rejection> {
    acceptance_of(
        webauthn_verdict(authenticator_data, client_data, signature, public_key),
        id_or_default(challenge_in(client_data)),
        expected_challenge,
        id_or_default(authority_in(client_data)),
        expected_authority,
        identity_known,
    )
}

/// Whether two identifiers are the same, byte for byte.
pub fn same_id(left: &[u8; 32], right: &[u8; 32]) -> (same: bool)
    ensures
        same == (left@ == right@),
{
    let mut i: usize = 0;
    while i < 32
        invariant
            i <= 32,
            forall|j: int| 0 <= j < i ==> left@[j] == right@[j],
        decreases 32 - i,
    {
        if left[i] != right[i] {
            return false;
        }
        i += 1;
    }
    assert(left@ =~= right@);
    true
}

/// Makes the checks that follow the signature check, in their order.
pub fn accept(
    signature: Result<(), VerifyError>,
    challenge: &Challenge,
    expected_challenge: &Challenge,
    authority: &AuthorityId,
    expected_authority: &AuthorityId,
    identity_known: bool,
) -> (outcome: Result<(), Rejection>)
    ensures
        outcome == acceptance_of(
            signature,
            challenge@,
            expected_challenge@,
            authority@,
            expected_authority@,
            identity_known,
        ),
{
    match signature {
        Err(reason) => Err(Rejection::Signature(reason)),
        Ok(_) => {
            if !same_id(challenge, expected_challenge) {
                Err(Rejection::Challenge)
            } else if !same_id(authority, expected_authority) {
                Err(Rejection::Authority)
            } else if !identity_known {
                Err(Rejection::Identity)
            } else {
                Ok(())
            }
        },
    }
}

impl<Cx: Copy> Attestation<Cx> {
    /// Checks the attestation against what the host expects for its context.
    pub fn check(
        &self,
        expected_challenge: &Challenge,
        expected_authority: &AuthorityId,
        identity_known: bool,
    ) -> (outcome: Result<(), Rejection>)
        ensures
            outcome == proof_acceptance(
                self.authenticator_data@,
                self.client_data@,
                self.signature@,
                self.public_key@,
                expected_challenge@,
                expected_authority@,
                identity_known,
            ),
    {
        let signature = webauthn_verify(
            self.authenticator_data.as_slice(),
            self.client_data.as_slice(),
            self.signature.as_slice(),
            self.public_key.as_slice(),
        );
        let challenge = self.challenge();
        let authority = self.authority();
        accept(
            signature,
            &challenge,
            expected_challenge,
            &authority,
            expected_authority,
            identity_known,
        )
    }
}

impl<Cx: Copy> Assertion<Cx> {
    /// Checks the assertion, under the public key stored for the device,
    /// against what the host expects for its context.
    pub fn check(
        &self,
        public_key: &[u8],
        expected_challenge: &Challenge,
        expected_authority: &AuthorityId,
        identity_known: bool,
    ) -> (outcome: Result<(), Rejection>)
        ensures
            outcome == proof_acceptance(
                self.authenticator_data@,
                self.client_data@,
                self.signature@,
                public_key@,
                expected_challenge@,
                expected_authority@,
                identity_known,
            ),
    {
        let signature = webauthn_verify(
            self.authenticator_data.as_slice(),
            self.client_data.as_slice(),
            self.signature.as_slice(),
            public_key,
        );
        let challenge = self.challenge();
        let authority = self.authority();
        accept(
            signature,
            &challenge,
            expected_challenge,
            &authority,
            expected_authority,
            identity_known,
        )
    }
}

} // verus!
