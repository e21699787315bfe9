use base64::prelude::BASE64_URL_SAFE_NO_PAD;
use base64::Engine;
use p256::ecdsa::signature::Signer;
use p256::ecdsa::{Signature, SigningKey};
use p256::pkcs8::EncodePublicKey;
use pass_webauthn::binding::{accept, same_id};
use pass_webauthn::envelope::unwrap_or_default;
use pass_webauthn::{
    Assertion, AssertionMeta, Attestation, AttestationMeta, AuthorityId, Challenge, Credential,
    DeviceId, HashedUserId, Rejection, VerifyError,
};
use rand::rngs::OsRng;
use sha2::{Digest, Sha256};

fn padded(text: &[u8]) -> [u8; 32] {
    let mut out = [0u8; 32];
    out[..text.len()].copy_from_slice(text);
    out
}

/// The host's challenge for a context.
fn generate(context: u64) -> Challenge {
    Sha256::digest(context.to_le_bytes()).into()
}

fn host_authority() -> AuthorityId {
    padded(b"pass_web")
}

fn user() -> HashedUserId {
    padded(b"the_user")
}

/// Stands in for an authenticator and the client in front of it.
struct Client {
    origin: String,
    key: SigningKey,
    credential_id: Vec<u8>,
}

impl Client {
    fn new(origin: &str, key: SigningKey) -> Self {
        let credential_id = Sha256::digest(key.verifying_key().to_sec1_bytes()).to_vec();
        Self { origin: origin.to_string(), key, credential_id }
    }

    fn random(origin: &str) -> Self {
        Self::new(origin, SigningKey::random(&mut OsRng))
    }

    fn fixed(origin: &str) -> Self {
        Self::new(origin, SigningKey::from_slice(&[7u8; 32]).unwrap())
    }

    fn public_key(&self) -> Vec<u8> {
        self.key.verifying_key().to_public_key_der().unwrap().as_bytes().to_vec()
    }

    fn device_id(&self) -> DeviceId {
        Sha256::digest(&self.credential_id).into()
    }

    fn respond(&self, ceremony: &str, challenge: &Challenge) -> (Vec<u8>, Vec<u8>, Vec<u8>) {
        let domain = self.origin.split_once("//").unwrap().1;
        let mut authenticator_data = Sha256::digest(domain.as_bytes()).to_vec();
        authenticator_data.push(0x05);
        authenticator_data.extend_from_slice(&[0, 0, 0, 1]);
        let client_data = format!(
            "{{\"type\":\"webauthn.{}\",\"challenge\":\"{}\",\"origin\":\"{}\",\"crossOrigin\":false}}",
            ceremony,
            BASE64_URL_SAFE_NO_PAD.encode(challenge),
            self.origin
        )
        .into_bytes();
        let mut message = authenticator_data.clone();
        message.extend_from_slice(&Sha256::digest(&client_data));
        let signature: Signature = self.key.sign(&message);
        (authenticator_data, client_data, signature.to_der().as_bytes().to_vec())
    }

    fn attestation(&self, context: u64) -> (Vec<u8>, Attestation<u64>) {
        let (authenticator_data, client_data, signature) =
            self.respond("create", &generate(context));
        (
            self.credential_id.clone(),
            Attestation::new(
                AttestationMeta { device_id: self.device_id(), context },
                authenticator_data,
                client_data,
                signature,
                self.public_key(),
            ),
        )
    }

    fn assertion(&self, user_id: HashedUserId, context: u64) -> Assertion<u64> {
        let (authenticator_data, client_data, signature) = self.respond("get", &generate(context));
        Assertion {
            meta: AssertionMeta { user_id, context },
            authenticator_data,
            client_data,
            signature,
        }
    }
}

/// What a host does on registration: it issues the challenge for the context
/// that the attestation names, and checks the attestation against it.
fn register(attestation: &Attestation<u64>) -> Result<Credential, Rejection> {
    let (context, _) = attestation.used_challenge();
    attestation.check(&generate(context), &host_authority(), true)?;
    Ok(Credential::from_attestation(attestation.clone()))
}

/// What a host does on login.
fn authenticate(
    devices: &[Credential],
    device_id: &DeviceId,
    assertion: &Assertion<u64>,
) -> Result<(), Rejection> {
    let device = devices.iter().find(|device| device.device_id() == device_id);
    let (context, _) = assertion.used_challenge();
    let public_key = device.map(|device| device.public_key.clone()).unwrap_or_default();
    assertion.check(&public_key, &generate(context), &host_authority(), device.is_some())
}

#[test]
fn registration_fails_if_attestation_is_invalid() {
    let client = Client::random("https://pass_web.pass.int");
    let (_, mut attestation) = client.attestation(1);

    // Alters "challenge", so this will fail
    attestation.client_data = String::from_utf8(attestation.client_data)
        .map(|client_data| {
            client_data
                .replace("challenge", "chellang")
                .as_bytes()
                .to_vec()
        })
        .expect("`client_data` is a buffer representation of a utf-8 encoded json");

    assert!(register(&attestation).is_err());
    assert_eq!(attestation.used_challenge(), (1, [0u8; 32]));
}

#[test]
fn registration_works_if_attestation_is_valid() {
    let client = Client::random("https://pass_web.pass.int");
    assert!(register(&client.attestation(1).1).is_ok());
}

#[test]
fn authentication_fails_if_credentials_are_invalid() {
    let client = Client::random("https://pass_web.pass.int");
    let (_, attestation) = client.attestation(1);

    let device = register(&attestation).expect("registration");

    let mut assertion = client.assertion(user(), 1);
    assertion.signature = [assertion.signature, b"Whoops".to_vec()].concat();

    assert_eq!(
        authenticate(&[device.clone()], attestation.device_id(), &assertion),
        Err(Rejection::Signature(VerifyError::ParseSignature))
    );
    assert_eq!(device.verify(&assertion), None);
}

#[test]
fn authentication_works_if_credentials_are_valid() {
    let client = Client::random("https://pass_web.pass.int");
    let (_, attestation) = client.attestation(1);

    let device = register(&attestation).expect("registration");

    let assertion = client.assertion(user(), 1);
    assert_eq!(authenticate(&[device.clone()], attestation.device_id(), &assertion), Ok(()));
    assert_eq!(device.verify(&assertion), Some(()));
}

#[test]
fn attestation_for_a_context_is_accepted() {
    let client = Client::fixed("https://svc.example.org");
    let challenge = generate(1);
    let (_, attestation) = client.attestation(1);
    assert!(attestation.is_valid());
    assert_eq!(attestation.used_challenge(), (1, challenge));
    assert_eq!(attestation.context(), 1);
    assert_eq!(attestation.challenge(), challenge);
    assert_eq!(attestation.authority(), padded(b"svc"));
    assert_eq!(attestation.device_id(), &client.device_id());
    assert_eq!(attestation.check(&challenge, &padded(b"svc"), true), Ok(()));
}

#[test]
fn assertion_for_a_context_is_accepted() {
    let client = Client::fixed("https://svc.example.org");
    let challenge = generate(1);
    let assertion = client.assertion(user(), 1);
    assert!(assertion.is_valid(&client.public_key()));
    assert_eq!(assertion.used_challenge(), (1, challenge));
    assert_eq!(assertion.challenge(), challenge);
    assert_eq!(assertion.authority(), padded(b"svc"));
    assert_eq!(assertion.user_id(), user());
    assert_eq!(
        assertion.check(&client.public_key(), &challenge, &padded(b"svc"), true),
        Ok(())
    );
}

#[test]
fn challenge_that_spells_a_key_changes_nothing() {
    let client = Client::fixed("https://svc.example.org");
    let mut challenge = [0x5au8; 32];
    challenge[..6].copy_from_slice(&[0xa2, 0xb8, 0xa0, 0x8a, 0x70, 0x00]);
    assert!(BASE64_URL_SAFE_NO_PAD.encode(challenge).starts_with("origin"));
    let (authenticator_data, client_data, signature) = client.respond("create", &challenge);
    let attestation = Attestation::new(
        AttestationMeta { device_id: client.device_id(), context: 1u64 },
        authenticator_data.clone(),
        client_data.clone(),
        signature.clone(),
        client.public_key(),
    );
    assert!(attestation.is_valid());
    assert_eq!(attestation.used_challenge(), (1, challenge));
    assert_eq!(attestation.authority(), padded(b"svc"));
    assert_eq!(attestation.check(&challenge, &padded(b"svc"), true), Ok(()));
    let assertion = Assertion {
        meta: AssertionMeta { user_id: user(), context: 1u64 },
        authenticator_data,
        client_data,
        signature,
    };
    assert_eq!(assertion.used_challenge(), (1, challenge));
    assert_eq!(assertion.authority(), padded(b"svc"));
    assert_eq!(
        assertion.check(&client.public_key(), &challenge, &padded(b"svc"), true),
        Ok(())
    );
}

#[test]
fn other_authority_is_rejected_at_the_authority_step() {
    let client = Client::fixed("https://svc.example.org");
    let challenge = generate(1);
    let (_, attestation) = client.attestation(1);
    assert!(attestation.is_valid());
    assert_eq!(attestation.used_challenge(), (1, challenge));
    assert_eq!(
        attestation.check(&challenge, &padded(b"other"), true),
        Err(Rejection::Authority)
    );
    let assertion = client.assertion(user(), 1);
    assert!(assertion.is_valid(&client.public_key()));
    assert_eq!(
        assertion.check(&client.public_key(), &challenge, &padded(b"other"), true),
        Err(Rejection::Authority)
    );
}

#[test]
fn tampered_signature_is_invalid_whatever_else_holds() {
    let client = Client::fixed("https://svc.example.org");
    let challenge = generate(1);
    let (_, attestation) = client.attestation(1);
    for at in 0..attestation.signature.len() {
        let mut tampered = attestation.clone();
        tampered.signature[at] ^= 0xff;
        assert!(!tampered.is_valid());
        assert_eq!(tampered.used_challenge(), (1, challenge));
        assert_eq!(tampered.authority(), padded(b"svc"));
        assert!(matches!(
            tampered.check(&challenge, &padded(b"svc"), true),
            Err(Rejection::Signature(_))
        ));
    }
    let mut assertion = client.assertion(user(), 1);
    assertion.signature[8] ^= 0x01;
    assert!(!assertion.is_valid(&client.public_key()));
    assert_eq!(
        assertion.check(&client.public_key(), &challenge, &padded(b"svc"), true),
        Err(Rejection::Signature(VerifyError::VerifySignature))
    );
}

#[test]
fn challenge_of_another_context_is_rejected() {
    let client = Client::fixed("https://svc.example.org");
    let (_, attestation) = client.attestation(1);
    assert_eq!(
        attestation.check(&generate(2), &padded(b"svc"), true),
        Err(Rejection::Challenge)
    );
    // A mismatch of the challenge is named before one of the authority.
    assert_eq!(
        attestation.check(&generate(2), &padded(b"other"), true),
        Err(Rejection::Challenge)
    );
}

#[test]
fn unknown_identity_is_rejected_last() {
    let client = Client::fixed("https://svc.example.org");
    let assertion = client.assertion(user(), 3);
    assert_eq!(
        assertion.check(&client.public_key(), &generate(3), &padded(b"svc"), false),
        Err(Rejection::Identity)
    );
    assert_eq!(
        assertion.check(&client.public_key(), &generate(3), &padded(b"other"), false),
        Err(Rejection::Authority)
    );
    assert_eq!(
        authenticate(&[], &client.device_id(), &assertion),
        Err(Rejection::Signature(VerifyError::ExtractPublicKey))
    );
}

#[test]
fn assertion_is_verified_with_the_stored_key_only() {
    let client = Client::fixed("https://svc.example.org");
    let other = Client::new("https://svc.example.org", SigningKey::from_slice(&[9u8; 32]).unwrap());
    let assertion = client.assertion(user(), 1);
    assert!(assertion.is_valid(&client.public_key()));
    assert!(!assertion.is_valid(&other.public_key()));
    assert!(!assertion.is_valid(b""));
    let stored = Credential::new(other.device_id(), other.public_key());
    assert_eq!(stored.verify(&assertion), None);
    assert_eq!(stored.device_id(), &other.device_id());
}

#[test]
fn envelope_without_challenge_or_origin_yields_the_default() {
    let attestation = Attestation::new(
        AttestationMeta { device_id: padded(b"device"), context: 5u32 },
        b"auth".to_vec(),
        b"{\"type\":\"webauthn.create\"}".to_vec(),
        Vec::new(),
        Vec::new(),
    );
    assert!(!attestation.is_valid());
    assert_eq!(attestation.used_challenge(), (5, [0u8; 32]));
    assert_eq!(attestation.authority(), [0u8; 32]);
    assert_eq!(attestation.device_id(), &padded(b"device"));
    let assertion = Assertion {
        meta: AssertionMeta { user_id: user(), context: 5u32 },
        authenticator_data: Vec::new(),
        client_data: vec![0xff, 0xff],
        signature: Vec::new(),
    };
    assert_eq!(assertion.used_challenge(), (5, [0u8; 32]));
    assert_eq!(assertion.authority(), [0u8; 32]);
}

#[test]
fn credential_keeps_the_device_and_its_key() {
    let client = Client::fixed("https://svc.example.org");
    let (_, attestation) = client.attestation(1);
    let credential = Credential::from_attestation(attestation.clone());
    assert_eq!(credential, Credential::new(client.device_id(), client.public_key()));
    assert_eq!(credential.public_key, attestation.public_key);
}

#[test]
fn accept_names_the_first_failure() {
    let a = padded(b"a");
    let b = padded(b"b");
    let bad = Err(VerifyError::VerifySignature);
    assert_eq!(accept(Ok(()), &a, &a, &b, &b, true), Ok(()));
    assert_eq!(accept(Ok(()), &a, &a, &b, &b, false), Err(Rejection::Identity));
    assert_eq!(accept(Ok(()), &a, &a, &b, &a, true), Err(Rejection::Authority));
    assert_eq!(accept(Ok(()), &a, &b, &b, &b, true), Err(Rejection::Challenge));
    assert_eq!(accept(Ok(()), &a, &b, &b, &a, false), Err(Rejection::Challenge));
    assert_eq!(
        accept(bad, &a, &a, &b, &b, true),
        Err(Rejection::Signature(VerifyError::VerifySignature))
    );
    assert_eq!(
        accept(Err(VerifyError::ExtractPublicKey), &a, &b, &b, &a, false),
        Err(Rejection::Signature(VerifyError::ExtractPublicKey))
    );
    assert_eq!(
        accept(Err(VerifyError::ParseSignature), &a, &a, &b, &b, true),
        Err(Rejection::Signature(VerifyError::ParseSignature))
    );
}

#[test]
fn same_id_compares_every_byte() {
    let a = [1u8; 32];
    let mut b = a;
    assert!(same_id(&a, &b));
    b[31] = 2;
    assert!(!same_id(&a, &b));
    b[31] = 1;
    b[0] = 0;
    assert!(!same_id(&a, &b));
}

#[test]
fn unwrap_or_default_is_all_zeros_for_nothing() {
    assert_eq!(unwrap_or_default(None), [0u8; 32]);
    assert_eq!(unwrap_or_default(Some([4u8; 32])), [4u8; 32]);
}
