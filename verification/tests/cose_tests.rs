use coset::iana::{Algorithm, EllipticCurve};
use coset::{CborSerializable, CoseKeyBuilder};
use p256::ecdsa::signature::Signer;
use p256::ecdsa::{Signature, SigningKey};
use p256::pkcs8::EncodePublicKey;
use pass_webauthn::cose::{has_p256_coordinates, verify_with_converted_key};
use pass_webauthn::verify_webauthn_response;
use rand::rngs::OsRng;
use sha2::{Digest, Sha256};

#[test]
fn test_verify_registration_webauthn_response_with_replicated_data() {
    let authenticator_data = b"dKbqkhPJnC90siSSsyDPQCYqlMGpUKA5fyklC2CEHvBFAAAAAQAAAAAAAAAAAAAAAAAAAAAAIK1-GLJEntO1EGz7VIEmTzktMEcucNozCVY5w-r1zzbKpQECAyYgASFYIME615EvcyE68YdSKzkIxhy0DGN1da1_WvI1AEeagOHoIlggu6X6IegkSRbcyLzZbFg3rzMjBwa4C3DfMlStM9rf4Po";
    let client_data_json = b"eyJ0eXBlIjoid2ViYXV0aG4uY3JlYXRlIiwiY2hhbGxlbmdlIjoiRUFVdHF5clRadUpKVEx3emRVOVRBaDltYjZnTU02cldXRUVGV0FkMTJvV0FBS216Mk4zYWdKLW1VUm0zWk1yQkMxYklWNnFLTTNzMGtLLWxrYjhJalEiLCJvcmlnaW4iOiJodHRwczovL3dlYmF1dGhuLmlvIiwiY3Jvc3NPcmlnaW4iOmZhbHNlLCJvdGhlcl9rZXlzX2Nhbl9iZV9hZGRlZF9oZXJlIjoiZG8gbm90IGNvbXBhcmUgY2xpZW50RGF0YUpTT04gYWdhaW5zdCBhIHRlbXBsYXRlLiBTZWUgaHR0cHM6Ly9nb28uZ2wveWFiUGV4In0";

    let public_key_cbor = b"MFkwEwYHKoZIzj0CAQYIKoZIzj0DAQcDQgAEwTrXkS9zITrxh1IrOQjGHLQMY3V1rX9a8jUAR5qA4ei7pfoh6CRJFtzIvNlsWDevMyMHBrgLcN8yVK0z2t_g-g";

    let signature_der = b"o2NmbXRkbm9uZWdhdHRTdG10oGhhdXRoRGF0YVikdKbqkhPJnC90siSSsyDPQCYqlMGpUKA5fyklC2CEHvBFAAAAAQAAAAAAAAAAAAAAAAAAAAAAIK1-GLJEntO1EGz7VIEmTzktMEcucNozCVY5w-r1zzbKpQECAyYgASFYIME615EvcyE68YdSKzkIxhy0DGN1da1_WvI1AEeagOHoIlggu6X6IegkSRbcyLzZbFg3rzMjBwa4C3DfMlStM9rf4Po";

    let is_valid = verify_webauthn_response(
        authenticator_data,
        client_data_json,
        signature_der,
        public_key_cbor,
    );

    // The key and the signature are still base64 text: neither is CBOR or
    // DER, so the response is refused.
    assert!(!is_valid);
}

#[test]
fn lib_test_verify_webauthn_response_with_generated_data() {
    let authenticator_data = b"example authenticator data";
    let client_data_json = br#"{
            "challenge": "test-challenge",
            "origin": "https://example.com",
            "type": "webauthn.get"
        }"#;

    let private_key = SigningKey::random(&mut OsRng);
    let public_key = private_key.verifying_key().to_encoded_point(false);

    let x = public_key.x().unwrap().as_slice().to_vec();
    let y = public_key.y().unwrap().as_slice().to_vec();

    let public_key_cose = CoseKeyBuilder::new_ec2_pub_key(EllipticCurve::P_256, x, y)
        .algorithm(Algorithm::ES256)
        .build();

    let public_key_cbor = public_key_cose
        .to_vec()
        .expect("Failed to serialize COSE key");

    let client_data_hash = Sha256::digest(client_data_json);
    let mut message = Vec::with_capacity(authenticator_data.len() + client_data_hash.len());
    message.extend_from_slice(authenticator_data);
    message.extend_from_slice(&client_data_hash);

    let signature: Signature = private_key.sign(&message);
    let signature_der = signature.to_der();

    let is_valid = verify_webauthn_response(
        authenticator_data,
        client_data_json,
        signature_der.as_bytes(),
        public_key_cbor.as_slice(),
    );

    assert!(
        is_valid,
        "The signature should be valid with the generated sample data."
    );
}

#[test]
fn lib_test_verify_webauthn_response_with_invalid_signature() {
    let authenticator_data = b"example authenticator data";
    let client_data_json = br#"{
            "challenge": "test-challenge",
            "origin": "https://example.com",
            "type": "webauthn.get"
        }"#;

    let private_key = SigningKey::random(&mut OsRng);
    let public_key = private_key.verifying_key().to_encoded_point(false);

    let x = public_key.x().unwrap().as_slice().to_vec();
    let y = public_key.y().unwrap().as_slice().to_vec();

    let public_key_cose = CoseKeyBuilder::new_ec2_pub_key(EllipticCurve::P_256, x, y)
        .algorithm(Algorithm::ES256)
        .build();

    let public_key_cbor = public_key_cose
        .to_vec()
        .expect("Failed to serialize COSE key");

    let client_data_hash = Sha256::digest(client_data_json);
    let mut message = Vec::with_capacity(authenticator_data.len() + client_data_hash.len());
    message.extend_from_slice(authenticator_data);
    message.extend_from_slice(&client_data_hash);

    let signature: Signature = private_key.sign(&message);
    let signature_der = signature.to_der();

    let mut tampered_signature_der = signature_der.as_bytes().to_vec();
    tampered_signature_der[0] ^= 0xFF;

    let is_valid = verify_webauthn_response(
        authenticator_data,
        client_data_json,
        &tampered_signature_der,
        public_key_cbor.as_slice(),
    );

    assert!(
        !is_valid,
        "The signature verification should fail with an invalid signature."
    );
}

fn fixed_key() -> SigningKey {
    SigningKey::from_slice(&[7u8; 32]).unwrap()
}

fn coordinates(key: &SigningKey) -> (Vec<u8>, Vec<u8>) {
    let point = key.verifying_key().to_encoded_point(false);
    (point.x().unwrap().as_slice().to_vec(), point.y().unwrap().as_slice().to_vec())
}

fn sign(key: &SigningKey, authenticator_data: &[u8], client_data: &[u8]) -> Vec<u8> {
    let mut message = authenticator_data.to_vec();
    message.extend_from_slice(&Sha256::digest(client_data));
    let signature: Signature = key.sign(&message);
    signature.to_der().as_bytes().to_vec()
}

#[test]
fn cose_key_of_the_signer_verifies() {
    let key = fixed_key();
    let (x, y) = coordinates(&key);
    let cbor = CoseKeyBuilder::new_ec2_pub_key(EllipticCurve::P_256, x, y)
        .algorithm(Algorithm::ES256)
        .build()
        .to_vec()
        .unwrap();
    let signature = sign(&key, b"auth", b"client");
    assert!(verify_webauthn_response(b"auth", b"client", &signature, &cbor));
    assert!(!verify_webauthn_response(b"auth", b"other", &signature, &cbor));
    assert!(!verify_webauthn_response(b"other", b"client", &signature, &cbor));
}

#[test]
fn cose_key_of_another_signer_is_refused() {
    let key = fixed_key();
    let (x, y) = coordinates(&SigningKey::from_slice(&[9u8; 32]).unwrap());
    let cbor = CoseKeyBuilder::new_ec2_pub_key(EllipticCurve::P_256, x, y)
        .algorithm(Algorithm::ES256)
        .build()
        .to_vec()
        .unwrap();
    let signature = sign(&key, b"auth", b"client");
    assert!(!verify_webauthn_response(b"auth", b"client", &signature, &cbor));
}

#[test]
fn der_key_is_no_cose_key() {
    let key = fixed_key();
    let der = key.verifying_key().to_public_key_der().unwrap().as_bytes().to_vec();
    let signature = sign(&key, b"auth", b"client");
    assert!(!verify_webauthn_response(b"auth", b"client", &signature, &der));
    assert!(!verify_webauthn_response(b"auth", b"client", &signature, b""));
    assert!(!verify_webauthn_response(b"auth", b"client", &signature, b"\x01"));
}

#[test]
fn cose_key_without_algorithm_is_refused() {
    let key = fixed_key();
    let (x, y) = coordinates(&key);
    let cbor = CoseKeyBuilder::new_ec2_pub_key(EllipticCurve::P_256, x, y)
        .build()
        .to_vec()
        .unwrap();
    let signature = sign(&key, b"auth", b"client");
    assert!(!verify_webauthn_response(b"auth", b"client", &signature, &cbor));
}

#[test]
fn cose_key_with_short_or_long_coordinates_is_refused() {
    let key = fixed_key();
    let (x, y) = coordinates(&key);
    let signature = sign(&key, b"auth", b"client");
    let cases = [
        (x[..31].to_vec(), y[..31].to_vec()),
        (x[..31].to_vec(), y.clone()),
        (x.clone(), y[..16].to_vec()),
        ([x.clone(), vec![0]].concat(), [y.clone(), vec![0]].concat()),
        (Vec::new(), Vec::new()),
    ];
    for (x, y) in cases {
        let cbor = CoseKeyBuilder::new_ec2_pub_key(EllipticCurve::P_256, x, y)
            .algorithm(Algorithm::ES256)
            .build()
            .to_vec()
            .unwrap();
        assert!(!verify_webauthn_response(b"auth", b"client", &signature, &cbor));
    }
}

#[test]
fn cose_key_with_compressed_point_is_refused() {
    let key = fixed_key();
    let (x, _) = coordinates(&key);
    let signature = sign(&key, b"auth", b"client");
    let cbor = CoseKeyBuilder::new_ec2_pub_key_y_sign(EllipticCurve::P_256, x, true)
        .algorithm(Algorithm::ES256)
        .build()
        .to_vec()
        .unwrap();
    assert!(!verify_webauthn_response(b"auth", b"client", &signature, &cbor));
}

#[test]
fn cose_key_off_the_curve_is_refused() {
    let key = fixed_key();
    let (x, mut y) = coordinates(&key);
    y[31] ^= 1;
    let signature = sign(&key, b"auth", b"client");
    let cbor = CoseKeyBuilder::new_ec2_pub_key(EllipticCurve::P_256, x, y)
        .algorithm(Algorithm::ES256)
        .build()
        .to_vec()
        .unwrap();
    assert!(!verify_webauthn_response(b"auth", b"client", &signature, &cbor));
}

#[test]
fn p256_coordinates_are_two_times_32_bytes() {
    let mut point = vec![4u8];
    point.extend_from_slice(&[1u8; 64]);
    assert!(has_p256_coordinates(&Some(point.clone())));
    point[0] = 2;
    assert!(!has_p256_coordinates(&Some(point.clone())));
    point[0] = 4;
    point.push(0);
    assert!(!has_p256_coordinates(&Some(point.clone())));
    point.truncate(64);
    assert!(!has_p256_coordinates(&Some(point)));
    assert!(!has_p256_coordinates(&Some(Vec::new())));
    assert!(!has_p256_coordinates(&None));
}

#[test]
fn converted_key_is_verified_against() {
    let key = fixed_key();
    let der = key.verifying_key().to_public_key_der().unwrap().as_bytes().to_vec();
    let signature = sign(&key, b"auth", b"client");
    assert!(verify_with_converted_key(b"auth", b"client", &signature, &Some(der.clone())));
    assert!(!verify_with_converted_key(b"auth", b"other", &signature, &Some(der)));
    assert!(!verify_with_converted_key(b"auth", b"client", &signature, &Some(Vec::new())));
    assert!(!verify_with_converted_key(b"auth", b"client", &signature, &None));
}
