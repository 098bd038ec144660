//! Byte-level text primitives: substring search in the bytes of a text.

use vstd::prelude::*;
use vstd::string::*;
use vstd::utf8::*;

verus! {

/// The UTF-8 bytes of a character sequence.
pub open spec fn bytes_of(chars: Seq<char>) -> Seq<u8> {
    encode_utf8(chars)
}

/// `needle` occurs in `haystack` at offset `at`.
pub open spec fn matches_at(haystack: Seq<u8>, needle: Seq<u8>, at: int) -> bool {
    &&& 0 <= at
    &&& at + needle.len() <= haystack.len()
    &&& haystack.subrange(at, at + needle.len()) == needle
}

/// The first offset at or after `from` where `needle` occurs in `haystack`.
pub open spec fn find_from(haystack: Seq<u8>, needle: Seq<u8>, from: int) -> Option<int>
    decreases haystack.len() - from + 1,
{
    if from < 0 || from + needle.len() > haystack.len() {
        None
    } else if matches_at(haystack, needle, from) {
        Some(from)
    } else {
        find_from(haystack, needle, from + 1)
    }
}

/// The first offset where `needle` occurs in `haystack`.
pub open spec fn find_first(haystack: Seq<u8>, needle: Seq<u8>) -> Option<int> {
    find_from(haystack, needle, 0)
}

/// What `find_from` returns is the least matching offset, and it returns
/// nothing only where no offset matches.
pub proof fn lemma_find_from_is_least(haystack: Seq<u8>, needle: Seq<u8>, from: int)
    requires
        0 <= from,
    ensures
        match find_from(haystack, needle, from) {
            Some(at) => {
                &&& from <= at
                &&& matches_at(haystack, needle, at)
                &&& forall|k: int| from <= k < at ==> !matches_at(haystack, needle, k)
            },
            None => forall|k: int| from <= k ==> !matches_at(haystack, needle, k),
        },
    decreases haystack.len() - from + 1,
{
    if from + needle.len() > haystack.len() {
    } else if matches_at(haystack, needle, from) {
    } else {
        lemma_find_from_is_least(haystack, needle, from + 1);
    }
}

/// Whether `needle` occurs in `text` at byte offset `at`.
pub fn occurs_at(text: &[u8], needle: &[u8], at: usize) -> (found: bool)
    ensures
        found == matches_at(text@, needle@, at as int),
{
    if at > text.len() || needle.len() > text.len() - at {
        return false;
    }
    let mut i: usize = 0;
    while i < needle.len()
        invariant
            i <= needle.len(),
            at + needle.len() <= text.len(),
            text@.subrange(at as int, at + i) == needle@.subrange(0, i as int),
        decreases needle.len() - i,
    {
        if text[at + i] != needle[i] {
            assert(text@.subrange(at as int, at + needle.len())[i as int] != needle@[i as int]);
            return false;
        }
        assert(text@.subrange(at as int, at + i + 1) == text@.subrange(at as int, at + i).push(
            text@[at + i],
        ));
        assert(needle@.subrange(0, i + 1) == needle@.subrange(0, i as int).push(needle@[i as int]));
        i += 1;
    }
    assert(needle@.subrange(0, needle.len() as int) == needle@);
    true
}

/// Searches the window `[start, end)` of `text` for the first occurrence of
/// `needle`; the offset returned is relative to `start`.
pub fn find_in(text: &[u8], start: usize, end: usize, needle: &[u8]) -> (found: Option<usize>)
    requires
        start <= end <= text.len(),
    ensures
        match found {
            Some(at) => find_first(text@.subrange(start as int, end as int), needle@) == Some(
                at as int,
            ),
            None => find_first(text@.subrange(start as int, end as int), needle@) is None,
        },
{
    let ghost window = text@.subrange(start as int, end as int);
    if needle.len() > end - start {
        return None;
    }
    let last: usize = end - start - needle.len();
    let mut i: usize = 0;
    while i <= last
        invariant
            start <= end <= text.len(),
            needle.len() <= end - start,
            last == end - start - needle.len(),
            i <= last,
            window == text@.subrange(start as int, end as int),
            find_first(window, needle@) == find_from(window, needle@, i as int),
        decreases last - i,
    {
        let hit = occurs_at(text, needle, start + i);
        proof {
            if matches_at(window, needle@, i as int) {
                assert(text@.subrange(start + i, start + i + needle.len()) == window.subrange(
                    i as int,
                    i + needle.len(),
                ));
            }
            if hit {
                assert(window.subrange(i as int, i + needle.len()) == text@.subrange(
                    start + i,
                    start + i + needle.len(),
                ));
            }
        }
        if hit {
            return Some(i);
        }
        if i == last {
            proof {
                assert(!matches_at(window, needle@, i as int));
                assert(find_from(window, needle@, i + 1) is None);
            }
            return None;
        }
        i += 1;
    }
    None
}

/// Whether two byte strings are equal.
pub fn bytes_eq(a: &[u8], b: &[u8]) -> (same: bool)
    ensures
        same == (a@ == b@),
{
    if a.len() != b.len() {
        return false;
    }
    let same = occurs_at(a, b, 0);
    proof {
        assert(a@.subrange(0, a.len() as int) == a@);
    }
    same
}

/// Two character sequences with the same encoding are the same.
pub proof fn lemma_bytes_of_injective(a: Seq<char>, b: Seq<char>)
    requires
        bytes_of(a) == bytes_of(b),
    ensures
        a == b,
{
    encode_utf8_decode_utf8(a);
    encode_utf8_decode_utf8(b);
}

/// The length of `text` in bytes.
pub fn byte_len(text: &str) -> (len: usize)
    ensures
        len == bytes_of(text@).len(),
{
    text.as_bytes().len()
}

} // verus!
