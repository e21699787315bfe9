//! Searching and trimming byte strings.
//!
//! These are the only text operations that the client data scanner uses:
//! the first occurrence of a pattern, the split at it, and the removal of
//! whitespace and double quotes from both ends.

use vstd::prelude::*;
use vstd::slice::slice_subrange;

verus! {

/// `pattern` stands in `text` at index `at`.
pub open spec fn occurs_at(text: Seq<u8>, pattern: Seq<u8>, at: int) -> bool {
    &&& 0 <= at
    &&& at + pattern.len() <= text.len()
    &&& text.subrange(at, at + pattern.len()) == pattern
}

/// The index of the first occurrence of `pattern` in `text`.
pub open spec fn find_sub(text: Seq<u8>, pattern: Seq<u8>) -> Option<int>
    decreases text.len(),
{
    if occurs_at(text, pattern, 0) {
        Some(0)
    } else if text.len() == 0 {
        None
    } else {
        match find_sub(text.drop_first(), pattern) {
            Some(at) => Some(at + 1),
            None => None,
        }
    }
}

/// `text` holds `pattern` somewhere.
pub open spec fn contains_sub(text: Seq<u8>, pattern: Seq<u8>) -> bool {
    find_sub(text, pattern) is Some
}

/// The index of the last occurrence of `byte` in `text`.
pub open spec fn find_last(text: Seq<u8>, byte: u8) -> Option<int>
    decreases text.len(),
{
    if text.len() == 0 {
        None
    } else if text.last() == byte {
        Some(text.len() - 1)
    } else {
        find_last(text.drop_last(), byte)
    }
}

/// The parts of `text` before and after the first occurrence of `pattern`.
pub open spec fn split_once(text: Seq<u8>, pattern: Seq<u8>) -> Option<(Seq<u8>, Seq<u8>)> {
    match find_sub(text, pattern) {
        Some(at) => Some(
            (text.subrange(0, at), text.subrange(at + pattern.len(), text.len() as int)),
        ),
        None => None,
    }
}

/// What is trimmed off a value: a double quote, or the whitespace of JSON
/// (space, tab, line feed, carriage return).
pub open spec fn is_pad(byte: u8) -> bool {
    byte == 0x22 || byte == 0x20 || byte == 0x09 || byte == 0x0a || byte == 0x0d
}

/// `text` without the pads at its start.
pub open spec fn trim_start(text: Seq<u8>) -> Seq<u8>
    decreases text.len(),
{
    if text.len() > 0 && is_pad(text.first()) {
        trim_start(text.drop_first())
    } else {
        text
    }
}

/// `text` without the pads at its end.
pub open spec fn trim_end(text: Seq<u8>) -> Seq<u8>
    decreases text.len(),
{
    if text.len() > 0 && is_pad(text.last()) {
        trim_end(text.drop_last())
    } else {
        text
    }
}

/// `text` without the pads at both ends.
pub open spec fn trimmed(text: Seq<u8>) -> Seq<u8> {
    trim_end(trim_start(text))
}

/// An occurrence in the tail of a text is one in the text, one place on.
pub proof fn lemma_occurs_at_shift(text: Seq<u8>, pattern: Seq<u8>, at: int)
    requires
        text.len() > 0,
        at >= 0,
    ensures
        occurs_at(text.drop_first(), pattern, at) == occurs_at(text, pattern, at + 1),
{
    if at + 1 + pattern.len() <= text.len() {
        assert(text.drop_first().subrange(at, at + pattern.len()) =~= text.subrange(
            at + 1,
            at + 1 + pattern.len(),
        ));
    }
}

/// What `find_sub` finds is an occurrence with none before it, and it finds
/// nothing only where there is none.
pub proof fn lemma_find_sub(text: Seq<u8>, pattern: Seq<u8>)
    ensures
        match find_sub(text, pattern) {
            Some(at) => occurs_at(text, pattern, at) && forall|j: int|
                0 <= j < at ==> !occurs_at(text, pattern, j),
            None => forall|j: int| !occurs_at(text, pattern, j),
        },
    decreases text.len(),
{
    if occurs_at(text, pattern, 0) {
    } else if text.len() == 0 {
        assert forall|j: int| !occurs_at(text, pattern, j) by {
            if occurs_at(text, pattern, j) {
                assert(j == 0);
            }
        }
    } else {
        let tail = text.drop_first();
        lemma_find_sub(tail, pattern);
        assert forall|j: int| j >= 1 implies occurs_at(text, pattern, j) == occurs_at(
            tail,
            pattern,
            j - 1,
        ) by {
            lemma_occurs_at_shift(text, pattern, j - 1);
        }
    }
}

/// The first occurrence is the one that `find_sub` finds.
pub proof fn lemma_find_sub_is(text: Seq<u8>, pattern: Seq<u8>, at: int)
    requires
        occurs_at(text, pattern, at),
        forall|j: int| 0 <= j < at ==> !occurs_at(text, pattern, j),
    ensures
        find_sub(text, pattern) == Some(at),
{
    lemma_find_sub(text, pattern);
}

/// Where the pattern occurs nowhere, `find_sub` finds nothing.
pub proof fn lemma_find_sub_none(text: Seq<u8>, pattern: Seq<u8>)
    requires
        forall|j: int| 0 <= j <= text.len() ==> !occurs_at(text, pattern, j),
    ensures
        find_sub(text, pattern) is None,
{
    lemma_find_sub(text, pattern);
}

/// A pattern of one byte occurs where that byte stands.
pub proof fn lemma_occurs_at_byte(text: Seq<u8>, byte: u8, at: int)
    ensures
        occurs_at(text, seq![byte], at) == (0 <= at < text.len() && text[at] == byte),
{
    if 0 <= at < text.len() {
        let part = text.subrange(at, at + 1);
        assert(part[0] == text[at]);
        if text[at] == byte {
            assert(part =~= seq![byte]);
        }
    }
}

/// An occurrence within a part of a text is an occurrence in the text.
pub proof fn lemma_occurs_in_part(text: Seq<u8>, from: int, to: int, pattern: Seq<u8>, at: int)
    requires
        0 <= from <= to <= text.len(),
        occurs_at(text.subrange(from, to), pattern, at),
    ensures
        occurs_at(text, pattern, from + at),
{
    assert(text.subrange(from, to).subrange(at, at + pattern.len()) =~= text.subrange(
        from + at,
        from + at + pattern.len(),
    ));
}

/// A text that does not hold a pattern holds it in none of its parts.
pub proof fn lemma_absent_in_part(text: Seq<u8>, from: int, to: int, pattern: Seq<u8>)
    requires
        0 <= from <= to <= text.len(),
        !contains_sub(text, pattern),
    ensures
        !contains_sub(text.subrange(from, to), pattern),
{
    let part = text.subrange(from, to);
    lemma_find_sub(text, pattern);
    lemma_find_sub(part, pattern);
    if let Some(at) = find_sub(part, pattern) {
        lemma_occurs_in_part(text, from, to, pattern, at);
    }
}

/// The trimmed text is the part between the pads at its two ends.
pub proof fn lemma_trimmed_is(text: Seq<u8>, start: int, end: int)
    requires
        0 <= start <= end <= text.len(),
        forall|i: int| 0 <= i < start ==> is_pad(text[i]),
        forall|i: int| end <= i < text.len() ==> is_pad(text[i]),
        start < end ==> !is_pad(text[start]) && !is_pad(text[end - 1]),
    ensures
        trimmed(text) == text.subrange(start, end),
{
    if start == end {
        lemma_trim_start_is(text, text.len() as int);
        assert(text.subrange(text.len() as int, text.len() as int) =~= text.subrange(start, end));
    } else {
        lemma_trim_start_is(text, start);
        lemma_trim_end_is(text.subrange(start, text.len() as int), end - start);
        assert(text.subrange(start, text.len() as int).subrange(0, end - start) =~= text.subrange(
            start,
            end,
        ));
    }
}

/// `trim_start` removes the pads that stand before the first byte that is
/// none.
pub proof fn lemma_trim_start_is(text: Seq<u8>, start: int)
    requires
        0 <= start <= text.len(),
        forall|i: int| 0 <= i < start ==> is_pad(text[i]),
        start < text.len() ==> !is_pad(text[start]),
    ensures
        trim_start(text) == text.subrange(start, text.len() as int),
    decreases start,
{
    if start == 0 {
        assert(text.subrange(0, text.len() as int) =~= text);
    } else {
        let tail = text.drop_first();
        assert forall|i: int| 0 <= i < start - 1 implies is_pad(tail[i]) by {
            assert(tail[i] == text[i + 1]);
        }
        lemma_trim_start_is(tail, start - 1);
        assert(tail.subrange(start - 1, tail.len() as int) =~= text.subrange(
            start,
            text.len() as int,
        ));
    }
}

/// `trim_end` removes the pads that stand after the last byte that is none.
pub proof fn lemma_trim_end_is(text: Seq<u8>, end: int)
    requires
        0 <= end <= text.len(),
        forall|i: int| end <= i < text.len() ==> is_pad(text[i]),
        0 < end ==> !is_pad(text[end - 1]),
    ensures
        trim_end(text) == text.subrange(0, end),
    decreases text.len() - end,
{
    if end == text.len() {
        assert(text.subrange(0, end) =~= text);
    } else {
        let head = text.drop_last();
        lemma_trim_end_is(head, end);
        assert(head.subrange(0, end) =~= text.subrange(0, end));
    }
}

/// What `find_last` finds is the byte, with none like it after it, and it
/// finds nothing only where the byte is not there.
pub proof fn lemma_find_last(text: Seq<u8>, byte: u8)
    ensures
        match find_last(text, byte) {
            Some(at) => 0 <= at < text.len() && text[at] == byte && forall|j: int|
                at < j < text.len() ==> text[j] != byte,
            None => forall|j: int| 0 <= j < text.len() ==> text[j] != byte,
        },
    decreases text.len(),
{
    if text.len() > 0 && text.last() != byte {
        let head = text.drop_last();
        lemma_find_last(head, byte);
        assert forall|j: int| 0 <= j < head.len() implies head[j] == text[j] by {}
    }
}

/// The last occurrence is the one that `find_last` finds.
pub proof fn lemma_find_last_is(text: Seq<u8>, byte: u8, at: int)
    requires
        0 <= at < text.len(),
        text[at] == byte,
        forall|j: int| at < j < text.len() ==> text[j] != byte,
    ensures
        find_last(text, byte) == Some(at),
{
    lemma_find_last(text, byte);
}

/// Whether `pattern` stands in `text` at index `at`.
pub fn matches_at(text: &[u8], pattern: &[u8], at: usize) -> (found: bool)
    ensures
        found == occurs_at(text@, pattern@, at as int),
{
    if pattern.len() > text.len() || at > text.len() - pattern.len() {
        return false;
    }
    let mut k: usize = 0;
    while k < pattern.len()
        invariant
            k <= pattern.len(),
            at + pattern.len() <= text.len(),
            forall|j: int| 0 <= j < k ==> text@[at + j] == pattern@[j],
        decreases pattern.len() - k,
    {
        if text[at + k] != pattern[k] {
            proof {
                let part = text@.subrange(at as int, at + pattern.len());
                assert(part[k as int] == text@[at + k]);
            }
            return false;
        }
        k += 1;
    }
    assert(text@.subrange(at as int, at + pattern.len()) =~= pattern@);
    true
}

/// Finds the first occurrence of `pattern` in `text`.
pub fn find(text: &[u8], pattern: &[u8]) -> (found: Option<usize>)
    ensures
        match found {
            Some(at) => find_sub(text@, pattern@) == Some(at as int),
            None => find_sub(text@, pattern@) is None,
        },
{
    let mut at: usize = 0;
    while at < text.len()
        invariant
            at <= text.len(),
            forall|j: int| 0 <= j < at ==> !occurs_at(text@, pattern@, j),
        decreases text.len() - at,
    {
        if matches_at(text, pattern, at) {
            proof {
                lemma_find_sub_is(text@, pattern@, at as int);
            }
            return Some(at);
        }
        at += 1;
    }
    if matches_at(text, pattern, at) {
        proof {
            lemma_find_sub_is(text@, pattern@, at as int);
        }
        return Some(at);
    }
    proof {
        lemma_find_sub_none(text@, pattern@);
    }
    None
}

/// Finds the last occurrence of `byte` in `text`.
pub fn rfind(text: &[u8], byte: u8) -> (found: Option<usize>)
    ensures
        match found {
            Some(at) => find_last(text@, byte) == Some(at as int),
            None => find_last(text@, byte) is None,
        },
{
    let mut end: usize = text.len();
    while end > 0
        invariant
            end <= text.len(),
            forall|j: int| end <= j < text.len() ==> text@[j] != byte,
        decreases end,
    {
        if text[end - 1] == byte {
            proof {
                lemma_find_last_is(text@, byte, end - 1);
            }
            return Some(end - 1);
        }
        end -= 1;
    }
    proof {
        lemma_find_last(text@, byte);
    }
    None
}

/// Whether two byte strings are the same.
pub fn same_bytes(left: &[u8], right: &[u8]) -> (same: bool)
    ensures
        same == (left@ == right@),
{
    if left.len() != right.len() {
        return false;
    }
    let same = matches_at(left, right, 0);
    assert(left@.subrange(0, left@.len() as int) =~= left@);
    same
}

/// Splits `text` at the first occurrence of `pattern`.
pub fn split_at_first<'a>(text: &'a [u8], pattern: &[u8]) -> (parts: Option<(&'a [u8], &'a [u8])>)
    ensures
        match parts {
            Some((before, after)) => split_once(text@, pattern@) == Some((before@, after@)),
            None => split_once(text@, pattern@) is None,
        },
{
    match find(text, pattern) {
        Some(at) => {
            proof {
                lemma_find_sub(text@, pattern@);
                assert(occurs_at(text@, pattern@, at as int));
            }
            let end = text.len();
            let before = slice_subrange(text, 0, at);
            let after = slice_subrange(text, at + pattern.len(), end);
            Some((before, after))
        },
        None => None,
    }
}

/// Whether the byte is a double quote or whitespace.
pub fn is_pad_byte(byte: u8) -> (pad: bool)
    ensures
        pad == is_pad(byte),
{
    byte == 0x22 || byte == 0x20 || byte == 0x09 || byte == 0x0a || byte == 0x0d
}

/// Removes whitespace and double quotes from both ends of `text`.
pub fn trim_pads<'a>(text: &'a [u8]) -> (out: &'a [u8])
    ensures
        out@ == trimmed(text@),
{
    let len = text.len();
    let mut start: usize = 0;
    assert(text@.subrange(0, len as int) =~= text@);
    while start < len && is_pad_byte(text[start])
        invariant
            len == text.len(),
            start <= len,
            trim_start(text@) == trim_start(text@.subrange(start as int, len as int)),
        decreases len - start,
    {
        proof {
            let rest = text@.subrange(start as int, len as int);
            assert(rest.drop_first() =~= text@.subrange(start + 1, len as int));
        }
        start += 1;
    }
    let mut end: usize = len;
    while end > start && is_pad_byte(text[end - 1])
        invariant
            len == text.len(),
            start <= end <= len,
            trimmed(text@) == trim_end(text@.subrange(start as int, end as int)),
        decreases end - start,
    {
        proof {
            let rest = text@.subrange(start as int, end as int);
            assert(rest.drop_last() =~= text@.subrange(start as int, end - 1));
        }
        end -= 1;
    }
    slice_subrange(text, start, end)
}

} // verus!
