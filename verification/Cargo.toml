[package]
name = "pass-webauthn"
version = "0.1.0"
edition = "2021"
publish = false

[dependencies]
base64 = "=0.21.7"
coset = "=0.4.2"
fc-traits-authn = { version = "*", default-features = false }
p256 = "=0.13.2"
parity-scale-codec = { version = "*", default-features = false, features = ["derive", "max-encoded-len"] }
passkey-authenticator = "=0.5.0"
rand = "=0.8.8"
scale-info = { version = "*", default-features = false, features = ["derive"] }
sha2 = "=0.10.9"
