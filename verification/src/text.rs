//! Comparing texts and byte strings.

use vstd::prelude::*;
use vstd::string::{StrSliceExecFns, StringSliceAdditionalSpecFns};
use vstd::utf8::encode_utf8_decode_utf8;

verus! {

/// The UTF-8 bytes of a text.
pub open spec fn utf8(text: Seq<char>) -> Seq<u8> {
    vstd::utf8::encode_utf8(text)
}

/// What follows `prefix` in `text`, where `text` begins with `prefix`.
pub open spec fn rest_after(text: Seq<char>, prefix: Seq<char>) -> Option<Seq<char>> {
    if prefix.len() <= text.len() && text.subrange(0, prefix.len() as int) == prefix {
        Some(text.subrange(prefix.len() as int, text.len() as int))
    } else {
        None
    }
}

/// Whether `text` begins with `prefix`.
pub open spec fn begins_with(text: Seq<u8>, prefix: Seq<u8>) -> bool {
    prefix.len() <= text.len() && text.subrange(0, prefix.len() as int) == prefix
}

/// Whether `at` is the first place of `text` that holds `byte`.
pub open spec fn first_at(text: Seq<u8>, byte: u8, at: int) -> bool {
    &&& 0 <= at < text.len()
    &&& text[at] == byte
    &&& forall|k: int| 0 <= k < at ==> text[k] != byte
}

/// The first place of `text` from `from` on that holds `byte`; the length of
/// `text` if there is none.
pub open spec fn index_of(text: Seq<u8>, byte: u8, from: nat) -> nat
    decreases text.len() - from,
{
    if from >= text.len() {
        text.len()
    } else if text[from as int] == byte {
        from
    } else {
        index_of(text, byte, from + 1)
    }
}

/// `index_of` skips the places that do not hold the byte.
pub proof fn lemma_index_of(text: Seq<u8>, byte: u8, from: nat, at: nat)
    requires
        from <= at <= text.len(),
        forall|k: int| from <= k < at ==> text[k] != byte,
        at < text.len() ==> text[at as int] == byte,
    ensures
        index_of(text, byte, from) == at,
    decreases at - from,
{
    if from < at {
        lemma_index_of(text, byte, from + 1, at);
    }
}

/// Texts with the same UTF-8 bytes are the same texts.
pub proof fn lemma_same_bytes_same_text(first: &str, second: &str)
    requires
        first.spec_bytes() == second.spec_bytes(),
    ensures
        first@ == second@,
{
    encode_utf8_decode_utf8(first@);
    encode_utf8_decode_utf8(second@);
}

/// Whether two byte strings are the same.
pub fn same_bytes(first: &[u8], second: &[u8]) -> (same: bool)
    ensures
        same == (first@ == second@),
{
    if first.len() != second.len() {
        return false;
    }
    let mut i: usize = 0;
    while i < first.len()
        invariant
            i <= first@.len() == second@.len(),
            forall|k: int| 0 <= k < i ==> first@[k] == second@[k],
        decreases first@.len() - i,
    {
        if first[i] != second[i] {
            return false;
        }
        i = i + 1;
    }
    proof {
        assert(first@ =~= second@);
    }
    true
}

/// Whether two texts are the same.
pub fn same_text(first: &str, second: &str) -> (same: bool)
    ensures
        same == (first@ == second@),
{
    let same = same_bytes(first.as_bytes(), second.as_bytes());
    proof {
        if same {
            lemma_same_bytes_same_text(first, second);
        }
    }
    same
}

/// Whether `text` begins with `prefix`.
pub fn has_prefix(text: &[u8], prefix: &[u8]) -> (yes: bool)
    ensures
        yes == begins_with(text@, prefix@),
{
    if prefix.len() > text.len() {
        return false;
    }
    let mut i: usize = 0;
    while i < prefix.len()
        invariant
            i <= prefix@.len() <= text@.len(),
            forall|k: int| 0 <= k < i ==> text@[k] == prefix@[k],
        decreases prefix@.len() - i,
    {
        if text[i] != prefix[i] {
            proof {
                assert(text@.subrange(0, prefix@.len() as int)[i as int] == text@[i as int]);
            }
            return false;
        }
        i = i + 1;
    }
    proof {
        assert(text@.subrange(0, prefix@.len() as int) =~= prefix@);
    }
    true
}

/// The first place of `text` that holds `byte`, if there is one.
pub fn find_byte(text: &[u8], byte: u8) -> (found: Option<usize>)
    ensures
        match found {
            Some(at) => first_at(text@, byte, at as int),
            None => forall|k: int| 0 <= k < text@.len() ==> text@[k] != byte,
        },
{
    let mut i: usize = 0;
    while i < text.len()
        invariant
            i <= text@.len(),
            forall|k: int| 0 <= k < i ==> text@[k] != byte,
        decreases text@.len() - i,
    {
        if text[i] == byte {
            return Some(i);
        }
        i = i + 1;
    }
    None
}

/// What follows `prefix` in `text`, if `text` begins with `prefix`.
pub fn strip_prefix<'a>(text: &'a str, prefix: &str) -> (rest: Option<&'a str>)
    ensures
        match rest {
            Some(tail) => rest_after(text@, prefix@) == Some(tail@),
            None => rest_after(text@, prefix@) is None,
        },
{
    let lead: usize = prefix.unicode_len();
    let total: usize = text.unicode_len();
    if lead > total {
        return None;
    }
    if same_text(text.substring_char(0, lead), prefix) {
        Some(text.substring_char(lead, total))
    } else {
        None
    }
}

} // verus!
