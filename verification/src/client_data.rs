//! Extraction of the challenge and the authority from client data.
//!
//! Client data is expected to be a flat JSON object in UTF-8, but it comes
//! from the client and nothing is assumed of it. The text is cut at commas
//! and each piece at its first colon. What stands before the colon names a
//! key, in double quotes; what follows it is the value, less the whitespace
//! and quotes around it. The first piece that names the key gives the
//! value. The key's text inside a value names nothing. This is no JSON
//! parser and is not meant to become one.

use vstd::prelude::*;
use vstd::slice::{slice_subrange, slice_to_vec};
use vstd::string::*;
use vstd::utf8::*;

use crate::bytes::opt_bytes;
use crate::scan::{
    find_last, lemma_find_last, lemma_find_sub, rfind, same_bytes, split_at_first, split_once,
    trim_pads, trimmed,
};

verus! {

/// A one-time value that the host issues for a context.
pub type Challenge = [u8; 32];

/// The relying party, as a fixed-size identifier.
pub type AuthorityId = [u8; 32];

/// The pattern that separates the fields of client data.
pub open spec fn comma() -> Seq<u8> {
    seq![0x2cu8]
}

/// The pattern that separates a key from its value.
pub open spec fn colon() -> Seq<u8> {
    seq![0x3au8]
}

/// The key that the part before a piece's first colon names: the text
/// between the last two double quotes of that part.
pub open spec fn named_key(name: Seq<u8>) -> Option<Seq<u8>> {
    match find_last(name, 0x22u8) {
        Some(close) => match find_last(name.subrange(0, close), 0x22u8) {
            Some(open) => Some(name.subrange(open + 1, close)),
            None => None,
        },
        None => None,
    }
}

/// The value that one piece of client data gives for `key`: what follows its
/// first colon, trimmed, where what stands before that colon names the key.
pub open spec fn segment_value(segment: Seq<u8>, key: Seq<u8>) -> Option<Seq<u8>> {
    match split_once(segment, colon()) {
        Some((name, value)) => if named_key(name) == Some(key) {
            Some(trimmed(value))
        } else {
            None
        },
        None => None,
    }
}

/// The value that client data gives for `key`: that of the first piece
/// between commas that names the key.
pub open spec fn field_value(text: Seq<u8>, key: Seq<u8>) -> Option<Seq<u8>>
    decreases text.len(),
    via field_value_decreases
{
    match split_once(text, comma()) {
        None => segment_value(text, key),
        Some((segment, rest)) => match segment_value(segment, key) {
            Some(value) => Some(value),
            None => field_value(rest, key),
        },
    }
}

#[via_fn]
proof fn field_value_decreases(text: Seq<u8>, key: Seq<u8>) {
    lemma_find_sub(text, comma());
}

/// The first 32 bytes of `bytes`, with zeros where `bytes` ends before.
pub open spec fn zero_extended(bytes: Seq<u8>) -> Seq<u8> {
    Seq::new(32, |i: int| if i < bytes.len() { bytes[i] } else { 0u8 })
}

/// The bytes of an optional fixed-size identifier.
pub open spec fn opt_id(id: Option<[u8; 32]>) -> Option<Seq<u8>> {
    match id {
        Some(bytes) => Some(bytes@),
        None => None,
    }
}

/// The identifier that an optional byte string decodes to.
pub open spec fn decoded_id(mapped: Option<Seq<u8>>) -> Option<Seq<u8>> {
    match mapped {
        Some(bytes) => Some(zero_extended(bytes)),
        None => None,
    }
}

/// Calls `core::str::from_utf8`. Trusted: it succeeds on exactly the byte
/// strings that are well-formed UTF-8.
#[verifier::external_body]
fn is_utf8(bytes: &[u8]) -> (ok: bool)
    ensures
        ok == valid_utf8(bytes@),
{
    core::str::from_utf8(bytes).is_ok()
}

/// Decodes a fixed-size identifier from `bytes`: the bytes are taken in
/// order, zeros stand in for those that are missing, and what comes after
/// the 32nd is ignored.
pub fn decode_trailing_zero(bytes: &[u8]) -> (out: [u8; 32])
    ensures
        out@ == zero_extended(bytes@),
{
    let mut out: [u8; 32] = [0u8; 32];
    let mut i: usize = 0;
    while i < 32
        invariant
            i <= 32,
            forall|j: int| 0 <= j < i ==> out@[j] == zero_extended(bytes@)[j],
            forall|j: int| i <= j < 32 ==> out@[j] == 0u8,
        decreases 32 - i,
    {
        if i < bytes.len() {
            out[i] = bytes[i];
        }
        i += 1;
    }
    assert(out@ =~= zero_extended(bytes@));
    out
}

/// Reads the key that the part before a piece's first colon names.
pub fn key_named<'a>(name: &'a [u8]) -> (key: Option<&'a [u8]>)
    ensures
        match key {
            Some(k) => named_key(name@) == Some(k@),
            None => named_key(name@) is None,
        },
{
    let close = match rfind(name, 0x22u8) {
        Some(at) => at,
        None => {
            return None;
        },
    };
    proof {
        lemma_find_last(name@, 0x22u8);
    }
    let before = slice_subrange(name, 0, close);
    let open = match rfind(before, 0x22u8) {
        Some(at) => at,
        None => {
            return None;
        },
    };
    proof {
        lemma_find_last(before@, 0x22u8);
    }
    Some(slice_subrange(name, open + 1, close))
}

/// Finds in one piece of client data the value it gives for `key`.
pub fn find_in_segment<'a>(segment: &'a [u8], key: &[u8]) -> (value: Option<&'a [u8]>)
    ensures
        match value {
            Some(v) => segment_value(segment@, key@) == Some(v@),
            None => segment_value(segment@, key@) is None,
        },
{
    let pattern: [u8; 1] = [0x3au8];
    assert(pattern@ =~= colon());
    let (name, after_colon) = match split_at_first(segment, pattern.as_slice()) {
        Some(parts) => parts,
        None => {
            return None;
        },
    };
    match key_named(name) {
        Some(named) => {
            if same_bytes(named, key) {
                Some(trim_pads(after_colon))
            } else {
                None
            }
        },
        None => None,
    }
}

/// Finds the value that client data gives for `key`.
pub fn find_field<'a>(text: &'a [u8], key: &[u8]) -> (value: Option<&'a [u8]>)
    ensures
        match value {
            Some(v) => field_value(text@, key@) == Some(v@),
            None => field_value(text@, key@) is None,
        },
{
    let pattern: [u8; 1] = [0x2cu8];
    assert(pattern@ =~= comma());
    let mut rest: &'a [u8] = text;
    loop
        invariant
            pattern@ == comma(),
            field_value(text@, key@) == field_value(rest@, key@),
        decreases rest.len(),
    {
        proof {
            lemma_find_sub(rest@, comma());
        }
        match split_at_first(rest, pattern.as_slice()) {
            None => {
                return find_in_segment(rest, key);
            },
            Some((segment, after)) => {
                let value = find_in_segment(segment, key);
                if value.is_some() {
                    return value;
                }
                rest = after;
            },
        }
    }
}

/// What base64url without padding decodes `text` to, as `base64` decodes
/// it, where it does.
pub uninterp spec fn base64url_decoded(text: Seq<u8>) -> Option<Seq<u8>>;

/// Calls `Engine::decode` of `base64`, on its engine
/// `BASE64_URL_SAFE_NO_PAD`. Trusted: the bytes that come out, or that none
/// do, depend on the text alone.
#[verifier::external_body]
fn base64url_decode(text: &[u8]) -> (out: Option<Vec<u8>>)
    ensures
        opt_bytes(out) == base64url_decoded(text@),
{
    base64::Engine::decode(&base64::prelude::BASE64_URL_SAFE_NO_PAD, text).ok()
}

/// The pattern that ends the scheme of an origin.
pub open spec fn slashes() -> Seq<u8> {
    seq![0x2fu8, 0x2fu8]
}

/// The pattern that ends the first label of a domain.
pub open spec fn dot() -> Seq<u8> {
    seq![0x2eu8]
}

/// The first label of the domain of `origin`: what stands between the first
/// `//` and the first `.` after it.
pub open spec fn origin_label_of(origin: Seq<u8>) -> Option<Seq<u8>> {
    match split_once(origin, slashes()) {
        Some((_, domain)) => match split_once(domain, dot()) {
            Some((label, _)) => Some(label),
            None => None,
        },
        None => None,
    }
}

/// The challenge that client data holds: the value of its `challenge` field,
/// decoded from base64url into the fixed size.
pub open spec fn challenge_in(client_data: Seq<u8>) -> Option<Seq<u8>> {
    if valid_utf8(client_data) {
        match field_value(client_data, "challenge".spec_bytes()) {
            Some(value) => decoded_id(base64url_decoded(value)),
            None => None,
        }
    } else {
        None
    }
}

/// The authority that client data holds: the first label of the domain in
/// its `origin` field, in the fixed size.
pub open spec fn authority_in(client_data: Seq<u8>) -> Option<Seq<u8>> {
    if valid_utf8(client_data) {
        match field_value(client_data, "origin".spec_bytes()) {
            Some(value) => decoded_id(origin_label_of(value)),
            None => None,
        }
    } else {
        None
    }
}

/// The first label of the domain of an origin.
pub fn origin_label(origin: &[u8]) -> (label: Option<Vec<u8>>)
    ensures
        opt_bytes(label) == origin_label_of(origin@),
{
    let slashes: [u8; 2] = [0x2fu8, 0x2fu8];
    let dot: [u8; 1] = [0x2eu8];
    assert(slashes@ =~= self::slashes());
    assert(dot@ =~= self::dot());
    match split_at_first(origin, slashes.as_slice()) {
        Some((_, domain)) => match split_at_first(domain, dot.as_slice()) {
            Some((label, _)) => Some(slice_to_vec(label)),
            None => None,
        },
        None => None,
    }
}

/// Decodes what was made of a field's value into a fixed-size identifier.
pub fn decode_mapped(mapped: Option<Vec<u8>>) -> (id: Option<[u8; 32]>)
    ensures
        opt_id(id) == decoded_id(opt_bytes(mapped)),
{
    match mapped {
        Some(bytes) => Some(decode_trailing_zero(bytes.as_slice())),
        None => None,
    }
}

/// Takes the value that `json` gives for `key`, hands it to `map`, and
/// decodes what `map` made of it into a fixed-size identifier. There is no
/// result where `json` is not UTF-8, where no piece of it gives a value for
/// the key, or where `map` gives none.
pub fn get_from_json_then_map<F>(json: Vec<u8>, key: &str, map: F) -> (id: Option<[u8; 32]>) where
    F: FnOnce(&[u8]) -> Option<Vec<u8>>,

    requires
        forall|value: &[u8]| call_requires(map, (value,)),
    ensures
        !valid_utf8(json@) || field_value(json@, key.spec_bytes()) is None ==> id is None,
        valid_utf8(json@) && field_value(json@, key.spec_bytes()) is Some ==> exists|
            value: &[u8],
            mapped: Option<Vec<u8>>,
        |
            Some(value@) == field_value(json@, key.spec_bytes()) && call_ensures(
                map,
                (value,),
                mapped,
            ) && opt_id(id) == decoded_id(opt_bytes(mapped)),
{
    if !is_utf8(json.as_slice()) {
        return None;
    }
    match find_field(json.as_slice(), key.as_bytes()) {
        Some(value) => {
            let mapped = map(value);
            decode_mapped(mapped)
        },
        None => None,
    }
}

/// Finds the challenge in client data.
pub fn find_challenge_from_client_data(client_data: Vec<u8>) -> (challenge: Option<Challenge>)
    ensures
        opt_id(challenge) == challenge_in(client_data@),
{
    let map = |value: &[u8]| -> (out: Option<Vec<u8>>)
        ensures
            opt_bytes(out) == base64url_decoded(value@),
        { base64url_decode(value) };
    get_from_json_then_map(client_data, "challenge", map)
}

/// Finds the authority in client data.
pub fn find_authority_id_from_client_data(client_data: Vec<u8>) -> (authority: Option<AuthorityId>)
    ensures
        opt_id(authority) == authority_in(client_data@),
{
    let map = |value: &[u8]| -> (out: Option<Vec<u8>>)
        ensures
            opt_bytes(out) == origin_label_of(value@),
        { origin_label(value) };
    get_from_json_then_map(client_data, "origin", map)
}

} // verus!
