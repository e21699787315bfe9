//! What holds of the library for every input: of the extraction for every
//! client data, of the verdict for every response, of the acceptance for
//! every proof.

use vstd::prelude::*;
use vstd::string::*;
use vstd::utf8::*;

use crate::binding::{proof_acceptance, Rejection};
use crate::client_data::{
    authority_in, base64url_decoded, challenge_in, colon, comma, dot, field_value, named_key,
    origin_label_of, segment_value, slashes, zero_extended,
};
use crate::envelope::{default_id, id_or_default};
use crate::scan::{
    contains_sub, find_last, find_sub, is_pad, lemma_absent_in_part, lemma_find_last,
    lemma_find_last_is, lemma_find_sub, lemma_find_sub_is, lemma_occurs_at_byte,
    lemma_trimmed_is, occurs_at, trim_end, trimmed,
};
use crate::signature::{
    der_signature_parses, ecdsa_p256_accepts, p256_public_key_decodes, sha256_digest,
    signed_message_of, webauthn_verdict, VerifyError,
};

verus! {

/// A double quote.
pub open spec fn quote() -> Seq<u8> {
    seq![0x22u8]
}

/// A member as a client writes it: the name in quotes, a colon, and the
/// value as it is written, quotes included.
pub open spec fn member(name: Seq<u8>, raw: Seq<u8>) -> Seq<u8> {
    quote() + name + quote() + colon() + raw
}

/// What may follow a member: a comma, or the end of the data.
pub open spec fn ends_piece(rest: Seq<u8>) -> bool {
    rest.len() == 0 || rest[0] == 0x2cu8
}

/// `text` holds `byte` nowhere.
pub open spec fn free_of(text: Seq<u8>, byte: u8) -> bool {
    forall|i: int| 0 <= i < text.len() ==> text[i] != byte
}

/// A member that is written after `before` starts a piece of its own or
/// follows only what holds no colon: every colon in `before` has a comma
/// after it.
pub open spec fn leaves_piece_open(before: Seq<u8>) -> bool {
    forall|i: int|
        0 <= i < before.len() && before[i] == 0x3au8 ==> exists|j: int|
            i < j < before.len() && before[j] == 0x2cu8
}

/// A letter, a digit, `-` or `_`.
pub open spec fn is_base64url_byte(byte: u8) -> bool {
    ||| 0x41 <= byte <= 0x5a
    ||| 0x61 <= byte <= 0x7a
    ||| 0x30 <= byte <= 0x39
    ||| byte == 0x2d
    ||| byte == 0x5f
}

/// Text in the alphabet of base64url, without padding.
pub open spec fn is_base64url_text(text: Seq<u8>) -> bool {
    forall|i: int| 0 <= i < text.len() ==> is_base64url_byte(#[trigger] text[i])
}

/// The bytes of the key under which client data holds the challenge.
pub open spec fn challenge_key() -> Seq<u8> {
    seq![0x63u8, 0x68u8, 0x61u8, 0x6cu8, 0x6cu8, 0x65u8, 0x6eu8, 0x67u8, 0x65u8]
}

/// The bytes of the key under which client data holds the origin.
pub open spec fn origin_key() -> Seq<u8> {
    seq![0x6fu8, 0x72u8, 0x69u8, 0x67u8, 0x69u8, 0x6eu8]
}

/// The two keys are the ASCII bytes of their names.
pub proof fn lemma_keys()
    ensures
        "challenge".spec_bytes() == challenge_key(),
        "origin".spec_bytes() == origin_key(),
{
    reveal_strlit("challenge");
    reveal_strlit("origin");
    let challenge = "challenge";
    let origin = "origin";
    assert(is_ascii(challenge));
    assert(is_ascii(origin));
    is_ascii_spec_bytes(challenge);
    is_ascii_spec_bytes(origin);
    assert(challenge.spec_bytes() =~= challenge_key());
    assert(origin.spec_bytes() =~= origin_key());
}

/// The key that a piece names stands in that piece.
pub proof fn lemma_named_key_occurs(name: Seq<u8>, key: Seq<u8>)
    requires
        named_key(name) == Some(key),
    ensures
        contains_sub(name, key),
{
    lemma_find_last(name, 0x22u8);
    let close = find_last(name, 0x22u8)->0;
    let head = name.subrange(0, close);
    lemma_find_last(head, 0x22u8);
    let open = find_last(head, 0x22u8)->0;
    assert(name.subrange(open + 1, open + 1 + key.len()) =~= key);
    assert(occurs_at(name, key, open + 1));
    lemma_find_sub(name, key);
}

/// A piece that holds the key nowhere gives no value for it.
pub proof fn lemma_segment_value_needs_key(segment: Seq<u8>, key: Seq<u8>)
    requires
        !contains_sub(segment, key),
    ensures
        segment_value(segment, key) is None,
{
    lemma_find_sub(segment, colon());
    if let Some(at) = find_sub(segment, colon()) {
        let name = segment.subrange(0, at);
        lemma_absent_in_part(segment, 0, at, key);
        if named_key(name) == Some(key) {
            lemma_named_key_occurs(name, key);
        }
    }
}

/// Client data that holds the key nowhere gives no value for it.
pub proof fn lemma_field_value_needs_key(text: Seq<u8>, key: Seq<u8>)
    requires
        !contains_sub(text, key),
    ensures
        field_value(text, key) is None,
    decreases text.len(),
{
    lemma_find_sub(text, comma());
    match find_sub(text, comma()) {
        None => {
            lemma_segment_value_needs_key(text, key);
        },
        Some(at) => {
            lemma_absent_in_part(text, 0, at, key);
            lemma_absent_in_part(text, at + 1, text.len() as int, key);
            lemma_segment_value_needs_key(text.subrange(0, at), key);
            lemma_field_value_needs_key(text.subrange(at + 1, text.len() as int), key);
        },
    }
}

/// The first occurrence of a byte in a text, where the text is written out
/// in two parts and the first part is free of the byte.
proof fn lemma_first_byte_after(head: Seq<u8>, tail: Seq<u8>, byte: u8, at: int)
    requires
        free_of(head, byte),
        0 <= at < tail.len(),
        tail[at] == byte,
        forall|i: int| 0 <= i < at ==> tail[i] != byte,
    ensures
        find_sub(head + tail, seq![byte]) == Some(head.len() + at),
{
    let text = head + tail;
    assert forall|j: int| 0 <= j < head.len() + at implies !occurs_at(text, seq![byte], j) by {
        lemma_occurs_at_byte(text, byte, j);
        if j >= head.len() {
            assert(text[j] == tail[j - head.len()]);
        } else {
            assert(text[j] == head[j]);
        }
    }
    lemma_occurs_at_byte(text, byte, head.len() + at);
    assert(text[head.len() + at] == tail[at]);
    lemma_find_sub_is(text, seq![byte], head.len() + at);
}

/// A text that is free of a byte holds no occurrence of it.
proof fn lemma_free_of_finds_none(text: Seq<u8>, byte: u8)
    requires
        free_of(text, byte),
    ensures
        find_sub(text, seq![byte]) is None,
{
    assert forall|j: int| 0 <= j <= text.len() implies !occurs_at(text, seq![byte], j) by {
        lemma_occurs_at_byte(text, byte, j);
    }
    lemma_find_sub(text, seq![byte]);
}

/// What a piece gives that is written as a member: the trimmed value where
/// the member's name is the key, and nothing where it is another, whatever
/// the value holds.
pub proof fn lemma_member_in_piece(head: Seq<u8>, name: Seq<u8>, raw: Seq<u8>, key: Seq<u8>)
    requires
        free_of(head, 0x3au8),
        free_of(name, 0x3au8),
        free_of(name, 0x22u8),
    ensures
        segment_value(head + member(name, raw), key) == if name == key {
            Some(trimmed(raw))
        } else {
            None
        },
{
    let n = name.len() as int;
    let h = head.len() as int;
    let named = head + quote() + name + quote();
    let piece = head + member(name, raw);
    assert(piece =~= named + (colon() + raw));
    assert(free_of(named, 0x3au8)) by {
        assert forall|i: int| 0 <= i < named.len() implies named[i] != 0x3au8 by {
            if h < i <= h + n {
                assert(named[i] == name[i - h - 1]);
            } else if i < h {
                assert(named[i] == head[i]);
            }
        }
    }
    lemma_first_byte_after(named, colon() + raw, 0x3au8, 0);
    assert(piece.subrange(0, named.len() as int) =~= named);
    let d = named.len() as int;
    assert(piece.subrange(d + 1, piece.len() as int) =~= raw);
    // The name stands between the last two quotes.
    assert(named[h + n + 1] == 0x22u8);
    lemma_find_last_is(named, 0x22u8, h + n + 1);
    let opened = named.subrange(0, h + n + 1);
    assert(opened[h] == 0x22u8);
    assert forall|j: int| h < j < opened.len() implies opened[j] != 0x22u8 by {
        assert(opened[j] == name[j - h - 1]);
    }
    lemma_find_last_is(opened, 0x22u8, h);
    assert(named.subrange(h + 1, h + n + 1) =~= name);
}

/// What client data gives for a key where a member is written into it:
/// the member's trimmed value where its name is the key; where it is
/// another, what the data behind the member gives. Before the member no
/// piece gives a value for the key, the member starts a piece, and a comma
/// or the end of the data follows it.
pub proof fn lemma_member_in_data(
    before: Seq<u8>,
    name: Seq<u8>,
    raw: Seq<u8>,
    rest: Seq<u8>,
    key: Seq<u8>,
)
    requires
        field_value(before, key) is None,
        leaves_piece_open(before),
        free_of(name, 0x2cu8),
        free_of(name, 0x3au8),
        free_of(name, 0x22u8),
        free_of(raw, 0x2cu8),
        ends_piece(rest),
    ensures
        field_value(before + member(name, raw) + rest, key) == if name == key {
            Some(trimmed(raw))
        } else if rest.len() == 0 {
            None
        } else {
            field_value(rest.drop_first(), key)
        },
    decreases before.len(),
{
    let written = member(name, raw);
    let text = before + written + rest;
    let n = name.len() as int;
    assert(written.len() == n + 3 + raw.len());
    assert forall|i: int| 0 <= i < written.len() implies written[i] != 0x2cu8 by {
        if 1 <= i <= n {
            assert(written[i] == name[i - 1]);
        } else if i >= n + 3 {
            assert(written[i] == raw[i - n - 3]);
        }
    }
    lemma_find_sub(before, comma());
    match find_sub(before, comma()) {
        Some(at) => {
            lemma_occurs_at_byte(before, 0x2cu8, at);
            let piece = before.subrange(0, at);
            let later = before.subrange(at + 1, before.len() as int);
            let tail = later + written + rest;
            assert(text =~= piece + (comma() + tail));
            assert forall|i: int| 0 <= i < at implies piece[i] != 0x2cu8 by {
                lemma_occurs_at_byte(before, 0x2cu8, i);
            }
            lemma_first_byte_after(piece, comma() + tail, 0x2cu8, 0);
            assert(text.subrange(0, at) =~= piece);
            assert(text.subrange(at + 1, text.len() as int) =~= tail);
            assert forall|i: int|
                0 <= i < later.len() && later[i] == 0x3au8 implies exists|j: int|
                i < j < later.len() && later[j] == 0x2cu8 by {
                assert(before[at + 1 + i] == 0x3au8);
                let j = choose|j: int| at + 1 + i < j < before.len() && before[j] == 0x2cu8;
                assert(later[j - at - 1] == 0x2cu8);
            }
            lemma_member_in_data(later, name, raw, rest, key);
        },
        None => {
            assert forall|i: int| 0 <= i < before.len() implies before[i] != 0x2cu8 by {
                lemma_occurs_at_byte(before, 0x2cu8, i);
            }
            assert(free_of(before, 0x3au8));
            let piece = before + written;
            assert(free_of(piece, 0x2cu8)) by {
                assert forall|i: int| 0 <= i < piece.len() implies piece[i] != 0x2cu8 by {
                    if i >= before.len() {
                        assert(piece[i] == written[i - before.len()]);
                    }
                }
            }
            lemma_member_in_piece(before, name, raw, key);
            if rest.len() == 0 {
                assert(text =~= piece);
                lemma_free_of_finds_none(piece, 0x2cu8);
            } else {
                assert(rest =~= comma() + rest.drop_first());
                assert(text =~= piece + (comma() + rest.drop_first()));
                lemma_first_byte_after(piece, comma() + rest.drop_first(), 0x2cu8, 0);
                assert(text.subrange(0, piece.len() as int) =~= piece);
                let p = piece.len() as int;
                assert(text.subrange(p + 1, text.len() as int) =~= rest.drop_first());
            }
        },
    }
}

/// `trim_end` leaves a start of the text, behind which all is quotes and
/// whitespace and which does not end in either.
proof fn lemma_trim_end_shape(text: Seq<u8>)
    ensures
        trim_end(text).len() <= text.len(),
        trim_end(text) == text.subrange(0, trim_end(text).len() as int),
        forall|i: int| trim_end(text).len() <= i < text.len() ==> is_pad(text[i]),
        trim_end(text).len() > 0 ==> !is_pad(text[trim_end(text).len() - 1]),
    decreases text.len(),
{
    if text.len() > 0 && is_pad(text.last()) {
        let head = text.drop_last();
        lemma_trim_end_shape(head);
        let kept = trim_end(head).len() as int;
        assert(head.subrange(0, kept) =~= text.subrange(0, kept));
        assert forall|i: int| kept <= i < text.len() implies is_pad(text[i]) by {
            if i < head.len() {
                assert(head[i] == text[i]);
            }
        }
        if kept > 0 {
            assert(head[kept - 1] == text[kept - 1]);
        }
    } else {
        assert(text.subrange(0, text.len() as int) =~= text);
    }
}

/// Trimming a value that opens with a quote keeps what follows the quote,
/// up to the quotes and whitespace at its end.
proof fn lemma_trimmed_after_quote(core: Seq<u8>, tail: Seq<u8>)
    requires
        core.len() > 0,
        !is_pad(core.first()),
        !is_pad(core.last()),
    ensures
        trimmed(quote() + core + tail) == core + trim_end(tail),
{
    let raw = quote() + core + tail;
    lemma_trim_end_shape(tail);
    let kept = trim_end(tail).len() as int;
    let c = core.len() as int;
    assert forall|i: int| 1 + c + kept <= i < raw.len() implies is_pad(raw[i]) by {
        assert(raw[i] == tail[i - 1 - c]);
    }
    assert(raw[1] == core[0]);
    if kept > 0 {
        assert(raw[c + kept] == tail[kept - 1]);
    } else {
        assert(raw[c] == core[c - 1]);
    }
    lemma_trimmed_is(raw, 1, 1 + c + kept);
    assert(raw.subrange(1, 1 + c + kept) =~= core + tail.subrange(0, kept));
}

/// A challenge comes back out of the client data it was put in: where the
/// member `challenge` holds base64url text that decodes to 32 bytes, those
/// bytes are the challenge found. The member may stand anywhere in the
/// object, as long as a comma or the end of the data follows it and no
/// piece before it gives a value for the key.
pub proof fn law_challenge_round_trip(
    before: Seq<u8>,
    encoded: Seq<u8>,
    rest: Seq<u8>,
    challenge: Seq<u8>,
)
    requires
        challenge.len() == 32,
        is_base64url_text(encoded),
        base64url_decoded(encoded) == Some(challenge),
        field_value(before, challenge_key()) is None,
        leaves_piece_open(before),
        ends_piece(rest),
        valid_utf8(before + member(challenge_key(), quote() + encoded + quote()) + rest),
    ensures
        challenge_in(before + member(challenge_key(), quote() + encoded + quote()) + rest)
            == Some(challenge),
{
    lemma_keys();
    let raw = quote() + encoded + quote();
    assert forall|i: int| 0 <= i < encoded.len() implies encoded[i] != 0x2cu8 && !is_pad(
        encoded[i],
    ) by {
        assert(is_base64url_byte(encoded[i]));
    }
    assert forall|i: int| 0 <= i < raw.len() implies raw[i] != 0x2cu8 by {
        if 1 <= i <= encoded.len() {
            assert(raw[i] == encoded[i - 1]);
        }
    }
    lemma_member_in_data(before, challenge_key(), raw, rest, challenge_key());
    let e = encoded.len() as int;
    lemma_trimmed_is(raw, 1, 1 + e);
    assert(raw.subrange(1, 1 + e) =~= encoded);
    assert(zero_extended(challenge) =~= challenge);
}

/// The authority is the first label of the origin's domain: where the
/// member `origin` holds a scheme, `//`, a label and a dot, the label in the
/// fixed size is the authority found, whatever follows the dot up to the
/// next comma or the end of the data. So the member may be the last of the
/// object.
pub proof fn law_authority_is_first_label(
    before: Seq<u8>,
    scheme: Seq<u8>,
    label: Seq<u8>,
    tail: Seq<u8>,
    rest: Seq<u8>,
)
    requires
        free_of(scheme, 0x2fu8),
        free_of(scheme, 0x2cu8),
        scheme.len() > 0 ==> !is_pad(scheme.first()),
        free_of(label, 0x2eu8),
        free_of(label, 0x2cu8),
        free_of(tail, 0x2cu8),
        field_value(before, origin_key()) is None,
        leaves_piece_open(before),
        ends_piece(rest),
        valid_utf8(
            before + member(origin_key(), quote() + scheme + slashes() + label + dot() + tail)
                + rest,
        ),
    ensures
        authority_in(
            before + member(origin_key(), quote() + scheme + slashes() + label + dot() + tail)
                + rest,
        ) == Some(zero_extended(label)),
{
    lemma_keys();
    let core = scheme + slashes() + label + dot();
    let raw = quote() + scheme + slashes() + label + dot() + tail;
    let s = scheme.len() as int;
    let l = label.len() as int;
    assert(raw =~= quote() + core + tail);
    assert(core.len() == s + l + 3);
    assert(core[s] == 0x2fu8);
    assert(core[s + 1] == 0x2fu8);
    assert(core[s + l + 2] == 0x2eu8);
    assert forall|i: int| 0 <= i < s implies core[i] == scheme[i] by {}
    assert forall|i: int| s + 2 <= i < s + 2 + l implies core[i] == label[i - s - 2] by {}
    assert forall|i: int| 0 <= i < raw.len() implies raw[i] != 0x2cu8 by {
        if 1 <= i <= core.len() {
            assert(raw[i] == core[i - 1]);
        } else if i > core.len() {
            assert(raw[i] == tail[i - 1 - core.len()]);
        }
    }
    lemma_member_in_data(before, origin_key(), raw, rest, origin_key());
    lemma_trimmed_after_quote(core, tail);
    let origin = core + trim_end(tail);
    // The first `//` of the origin is the one behind the scheme.
    let domain = label + dot() + trim_end(tail);
    assert(origin =~= scheme + (slashes() + domain));
    assert(origin.subrange(s, s + 2) =~= slashes());
    assert forall|j: int| 0 <= j < s implies !occurs_at(origin, slashes(), j) by {
        if occurs_at(origin, slashes(), j) {
            assert(origin.subrange(j, j + 2)[0] == 0x2fu8);
            assert(origin[j] == scheme[j]);
        }
    }
    lemma_find_sub_is(origin, slashes(), s);
    assert(origin.subrange(s + 2, origin.len() as int) =~= domain);
    // The first dot of the domain is the one behind the label.
    assert(domain =~= label + (dot() + trim_end(tail)));
    lemma_first_byte_after(label, dot() + trim_end(tail), 0x2eu8, 0);
    assert(domain.subrange(0, l) =~= label);
}

/// The key's text inside a value is not taken for the key: a member of
/// another name is passed over, whatever its value holds, and the key is
/// looked for in what follows it.
pub proof fn law_member_of_another_name_is_passed_over(
    before: Seq<u8>,
    name: Seq<u8>,
    raw: Seq<u8>,
    after: Seq<u8>,
    key: Seq<u8>,
)
    requires
        name != key,
        free_of(name, 0x2cu8),
        free_of(name, 0x3au8),
        free_of(name, 0x22u8),
        free_of(raw, 0x2cu8),
        field_value(before, key) is None,
        leaves_piece_open(before),
    ensures
        field_value(before + member(name, raw) + comma() + after, key) == field_value(after, key),
        field_value(before + member(name, raw), key) is None,
{
    lemma_member_in_data(before, name, raw, comma() + after, key);
    assert((comma() + after).drop_first() =~= after);
    assert(before + member(name, raw) + (comma() + after) =~= before + member(name, raw)
        + comma() + after);
    lemma_member_in_data(before, name, raw, Seq::<u8>::empty(), key);
    assert(before + member(name, raw) + Seq::<u8>::empty() =~= before + member(name, raw));
}

/// An opening brace.
pub open spec fn brace() -> Seq<u8> {
    seq![0x7bu8]
}

/// What ends in a comma leaves the next piece open.
proof fn lemma_comma_leaves_piece_open(text: Seq<u8>)
    ensures
        leaves_piece_open(text + comma()),
{
    let all = text + comma();
    assert forall|i: int| 0 <= i < all.len() && all[i] == 0x3au8 implies exists|j: int|
        i < j < all.len() && all[j] == 0x2cu8 by {
        assert(all[all.len() - 1] == 0x2cu8);
    }
}

/// Client data as a browser writes it: an object whose first member has
/// another name, whose second is the challenge and whose third is the
/// origin. The challenge found is the one encoded and the authority found is
/// the first label of the origin, for every challenge and whatever the first
/// member holds: that the text of one key stands inside the value of
/// another changes nothing.
pub proof fn law_challenge_then_origin(
    first: Seq<u8>,
    first_raw: Seq<u8>,
    encoded: Seq<u8>,
    challenge: Seq<u8>,
    scheme: Seq<u8>,
    label: Seq<u8>,
    tail: Seq<u8>,
    rest: Seq<u8>,
)
    requires
        first != challenge_key(),
        first != origin_key(),
        free_of(first, 0x2cu8),
        free_of(first, 0x3au8),
        free_of(first, 0x22u8),
        free_of(first_raw, 0x2cu8),
        challenge.len() == 32,
        is_base64url_text(encoded),
        base64url_decoded(encoded) == Some(challenge),
        free_of(scheme, 0x2fu8),
        free_of(scheme, 0x2cu8),
        scheme.len() > 0 ==> !is_pad(scheme.first()),
        free_of(label, 0x2eu8),
        free_of(label, 0x2cu8),
        free_of(tail, 0x2cu8),
        ends_piece(rest),
        valid_utf8(
            brace() + member(first, first_raw) + comma() + member(
                challenge_key(),
                quote() + encoded + quote(),
            ) + comma() + member(
                origin_key(),
                quote() + scheme + slashes() + label + dot() + tail,
            ) + rest,
        ),
    ensures
        challenge_in(
            brace() + member(first, first_raw) + comma() + member(
                challenge_key(),
                quote() + encoded + quote(),
            ) + comma() + member(
                origin_key(),
                quote() + scheme + slashes() + label + dot() + tail,
            ) + rest,
        ) == Some(challenge),
        authority_in(
            brace() + member(first, first_raw) + comma() + member(
                challenge_key(),
                quote() + encoded + quote(),
            ) + comma() + member(
                origin_key(),
                quote() + scheme + slashes() + label + dot() + tail,
            ) + rest,
        ) == Some(zero_extended(label)),
{
    lemma_keys();
    let none = Seq::<u8>::empty();
    let challenge_raw = quote() + encoded + quote();
    let challenge_member = member(challenge_key(), challenge_raw);
    let origin_raw = quote() + scheme + slashes() + label + dot() + tail;
    let origin_member = member(origin_key(), origin_raw);
    let opened = brace() + member(first, first_raw);
    let before_challenge = opened + comma();
    let before_origin = before_challenge + challenge_member + comma();
    let text = before_origin + origin_member + rest;
    assert forall|i: int| 0 <= i < encoded.len() implies encoded[i] != 0x2cu8 by {
        assert(is_base64url_byte(encoded[i]));
    }
    assert forall|i: int| 0 <= i < challenge_raw.len() implies challenge_raw[i] != 0x2cu8 by {
        if 1 <= i <= encoded.len() {
            assert(challenge_raw[i] == encoded[i - 1]);
        }
    }
    // The brace alone gives nothing, and leaves its piece open.
    lemma_free_of_finds_none(brace(), 0x2cu8);
    lemma_free_of_finds_none(brace(), 0x3au8);
    assert(leaves_piece_open(brace()));
    lemma_free_of_finds_none(none, 0x2cu8);
    lemma_free_of_finds_none(none, 0x3au8);
    // Neither key is given before the challenge.
    law_member_of_another_name_is_passed_over(brace(), first, first_raw, none, challenge_key());
    law_member_of_another_name_is_passed_over(brace(), first, first_raw, none, origin_key());
    assert(opened + comma() + none =~= before_challenge);
    lemma_comma_leaves_piece_open(opened);
    // The origin is not given by the challenge, whatever its text holds.
    law_member_of_another_name_is_passed_over(
        before_challenge,
        challenge_key(),
        challenge_raw,
        none,
        origin_key(),
    );
    assert(before_challenge + challenge_member + comma() + none =~= before_origin);
    lemma_comma_leaves_piece_open(before_challenge + challenge_member);
    // The challenge is the second member, the origin the third.
    let after_challenge = comma() + origin_member + rest;
    assert(before_challenge + challenge_member + after_challenge =~= text);
    law_challenge_round_trip(before_challenge, encoded, after_challenge, challenge);
    law_authority_is_first_label(before_origin, scheme, label, tail, rest);
}

/// Client data that is not UTF-8, or that holds the key nowhere, yields
/// nothing.
pub proof fn law_malformed_client_data_yields_nothing(client_data: Seq<u8>)
    ensures
        !valid_utf8(client_data) || !contains_sub(client_data, challenge_key()) ==> challenge_in(
            client_data,
        ) is None,
        !valid_utf8(client_data) || !contains_sub(client_data, origin_key()) ==> authority_in(
            client_data,
        ) is None,
{
    lemma_keys();
    if !contains_sub(client_data, challenge_key()) {
        lemma_field_value_needs_key(client_data, challenge_key());
    }
    if !contains_sub(client_data, origin_key()) {
        lemma_field_value_needs_key(client_data, origin_key());
    }
}

/// When the challenge is absent: exactly where the client data is not UTF-8,
/// gives no value for the key, or gives one that is not base64url.
pub proof fn law_challenge_absent_iff(client_data: Seq<u8>)
    ensures
        challenge_in(client_data) is None <==> {
            ||| !valid_utf8(client_data)
            ||| field_value(client_data, challenge_key()) is None
            ||| base64url_decoded(field_value(client_data, challenge_key())->0) is None
        },
{
    lemma_keys();
}

/// When the authority is absent: exactly where the client data is not UTF-8,
/// gives no value for the key, or gives one without `//` or without a dot
/// after it.
pub proof fn law_authority_absent_iff(client_data: Seq<u8>)
    ensures
        authority_in(client_data) is None <==> {
            ||| !valid_utf8(client_data)
            ||| field_value(client_data, origin_key()) is None
            ||| origin_label_of(field_value(client_data, origin_key())->0) is None
        },
{
    lemma_keys();
}

/// Each verdict has its inputs. A response is valid exactly where the key
/// decodes, the signature parses, and the signature is accepted over the
/// authenticator data followed by the hash of the client data. Each error
/// comes exactly where the step it names is the first to fail.
pub proof fn law_each_verdict_has_its_inputs(
    authenticator_data: Seq<u8>,
    client_data: Seq<u8>,
    signature: Seq<u8>,
    public_key: Seq<u8>,
)
    ensures
        ({
            let verdict = webauthn_verdict(authenticator_data, client_data, signature, public_key);
            let decodes = p256_public_key_decodes(public_key);
            let parses = der_signature_parses(signature);
            let accepted = ecdsa_p256_accepts(
                public_key,
                authenticator_data + sha256_digest(client_data),
                signature,
            );
            &&& verdict is Ok <==> decodes && parses && accepted
            &&& verdict == Err::<(), VerifyError>(VerifyError::ExtractPublicKey) <==> !decodes
            &&& verdict == Err::<(), VerifyError>(VerifyError::ParseSignature) <==> decodes
                && !parses
            &&& verdict == Err::<(), VerifyError>(VerifyError::VerifySignature) <==> decodes
                && parses && !accepted
        }),
{
}

/// Where the signature is refused over the signed message, the verdict is
/// the signature error and never `Ok`, whichever of the inputs it was that
/// made it so.
pub proof fn law_refused_signature_is_invalid(
    authenticator_data: Seq<u8>,
    client_data: Seq<u8>,
    signature: Seq<u8>,
    public_key: Seq<u8>,
)
    requires
        p256_public_key_decodes(public_key),
        der_signature_parses(signature),
        !ecdsa_p256_accepts(
            public_key,
            signed_message_of(authenticator_data, client_data),
            signature,
        ),
    ensures
        webauthn_verdict(authenticator_data, client_data, signature, public_key) == Err::<
            (),
            VerifyError,
        >(VerifyError::VerifySignature),
{
}

/// A proof is accepted exactly where all four checks hold.
pub proof fn law_acceptance_needs_every_check(
    authenticator_data: Seq<u8>,
    client_data: Seq<u8>,
    signature: Seq<u8>,
    public_key: Seq<u8>,
    expected_challenge: Seq<u8>,
    expected_authority: Seq<u8>,
    identity_known: bool,
)
    ensures
        proof_acceptance(
            authenticator_data,
            client_data,
            signature,
            public_key,
            expected_challenge,
            expected_authority,
            identity_known,
        ) is Ok <==> {
            &&& webauthn_verdict(authenticator_data, client_data, signature, public_key) is Ok
            &&& id_or_default(challenge_in(client_data)) == expected_challenge
            &&& id_or_default(authority_in(client_data)) == expected_authority
            &&& identity_known
        },
{
}

/// Extraction fails closed: a proof whose client data yields no challenge,
/// or no authority, is rejected by every host that expects anything but the
/// default.
pub proof fn law_failed_extraction_is_rejected(
    authenticator_data: Seq<u8>,
    client_data: Seq<u8>,
    signature: Seq<u8>,
    public_key: Seq<u8>,
    expected_challenge: Seq<u8>,
    expected_authority: Seq<u8>,
    identity_known: bool,
)
    requires
        challenge_in(client_data) is None && expected_challenge != default_id()
            || authority_in(client_data) is None && expected_authority != default_id(),
    ensures
        proof_acceptance(
            authenticator_data,
            client_data,
            signature,
            public_key,
            expected_challenge,
            expected_authority,
            identity_known,
        ) is Err,
{
}

/// A valid proof made for another relying party is rejected for its
/// authority.
pub proof fn law_other_authority_is_rejected(
    authenticator_data: Seq<u8>,
    client_data: Seq<u8>,
    signature: Seq<u8>,
    public_key: Seq<u8>,
    expected_authority: Seq<u8>,
    identity_known: bool,
)
    requires
        webauthn_verdict(authenticator_data, client_data, signature, public_key) is Ok,
        id_or_default(authority_in(client_data)) != expected_authority,
    ensures
        proof_acceptance(
            authenticator_data,
            client_data,
            signature,
            public_key,
            id_or_default(challenge_in(client_data)),
            expected_authority,
            identity_known,
        ) == Err::<(), Rejection>(Rejection::Authority),
{
}

/// A proof whose signature check fails is rejected for its signature,
/// whatever its challenge and authority are.
pub proof fn law_invalid_signature_is_rejected(
    authenticator_data: Seq<u8>,
    client_data: Seq<u8>,
    signature: Seq<u8>,
    public_key: Seq<u8>,
    expected_challenge: Seq<u8>,
    expected_authority: Seq<u8>,
    identity_known: bool,
)
    requires
        webauthn_verdict(authenticator_data, client_data, signature, public_key) is Err,
    ensures
        proof_acceptance(
            authenticator_data,
            client_data,
            signature,
            public_key,
            expected_challenge,
            expected_authority,
            identity_known,
        ) == Err::<(), Rejection>(
            Rejection::Signature(
                webauthn_verdict(authenticator_data, client_data, signature, public_key)->Err_0,
            ),
        ),
{
}

} // verus!
