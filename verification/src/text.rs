//! Byte-level text rules: whitespace-delimited tokens and literal containment.

use vstd::prelude::*;

verus! {

/// The ASCII whitespace bytes: space, tab, line feed, form feed and carriage
/// return.
pub open spec fn is_whitespace(b: u8) -> bool {
    b == 0x20 || b == 0x09 || b == 0x0a || b == 0x0c || b == 0x0d
}

/// Whether `start..end` is a token of `text`: a non-empty run of bytes that
/// are not whitespace, which no neighbouring byte could extend.
pub open spec fn is_token_span(text: Seq<u8>, start: int, end: int) -> bool {
    &&& 0 <= start < end <= text.len()
    &&& forall|i: int| start <= i < end ==> !is_whitespace(#[trigger] text[i])
    &&& (start == 0 || is_whitespace(text[start - 1]))
    &&& (end == text.len() || is_whitespace(text[end]))
}

/// Whether `token` is one of the whitespace-delimited tokens of `text`.
pub open spec fn is_token_of(token: Seq<u8>, text: Seq<u8>) -> bool {
    exists|start: int, end: int| #[trigger]
        is_token_span(text, start, end) && text.subrange(start, end) == token
}

/// Whether every byte of `text` from `from` on is whitespace.
pub open spec fn only_whitespace_from(text: Seq<u8>, from: int) -> bool {
    forall|i: int| from <= i < text.len() ==> is_whitespace(#[trigger] text[i])
}

/// Whether no token runs across `from`: the bytes before and after it are
/// not both part of a token.
pub open spec fn is_token_boundary(text: Seq<u8>, from: int) -> bool {
    &&& 0 <= from <= text.len()
    &&& (from == 0 || from == text.len() || is_whitespace(text[from - 1]) || is_whitespace(
        text[from],
    ))
}

/// Whether `needle` occurs in `hay` as a contiguous run of bytes.
pub open spec fn occurs_in(needle: Seq<u8>, hay: Seq<u8>) -> bool {
    exists|at: int| occurs_at(needle, hay, at)
}

/// Whether `needle` occurs in `hay` at offset `at`.
pub open spec fn occurs_at(needle: Seq<u8>, hay: Seq<u8>, at: int) -> bool {
    0 <= at && at + needle.len() <= hay.len() && hay.subrange(at, at + needle.len()) == needle
}

/// Tells whether a byte is ASCII whitespace.
pub fn whitespace(b: u8) -> (r: bool)
    ensures
        r == is_whitespace(b),
{
    b == 0x20 || b == 0x09 || b == 0x0a || b == 0x0c || b == 0x0d
}

/// Finds the first token of `text` that starts at or after `from`.
///
/// Returns its span, or `None` when only whitespace is left. Where `from`
/// is a token boundary the span is a token of the whole text.
pub fn next_token(text: &[u8], from: usize) -> (r: Option<(usize, usize)>)
    ensures
        match r {
            Some((start, end)) => {
                &&& from <= start < end <= text@.len()
                &&& forall|i: int| from <= i < start ==> is_whitespace(#[trigger] text@[i])
                &&& forall|i: int| start <= i < end ==> !is_whitespace(#[trigger] text@[i])
                &&& (end == text@.len() || is_whitespace(text@[end as int]))
                &&& is_token_boundary(text@, from as int) ==> is_token_span(
                    text@,
                    start as int,
                    end as int,
                )
            },
            None => only_whitespace_from(text@, from as int),
        },
{
    let len = text.len();
    let mut start = from;
    while start < len && whitespace(text[start])
        invariant
            len == text@.len(),
            from <= start,
            forall|i: int| from <= i < start && i < len ==> is_whitespace(#[trigger] text@[i]),
        decreases len - start,
    {
        start = start + 1;
    }
    if start >= len {
        return None;
    }
    let mut end = start + 1;
    while end < len && !whitespace(text[end])
        invariant
            len == text@.len(),
            start < end <= len,
            forall|i: int| start <= i < end ==> !is_whitespace(#[trigger] text@[i]),
        decreases len - end,
    {
        end = end + 1;
    }
    Some((start, end))
}

/// Tells whether `needle` occurs in `hay` at offset `at`.
pub fn matches_at(hay: &[u8], needle: &[u8], at: usize) -> (r: bool)
    ensures
        r == occurs_at(needle@, hay@, at as int),
{
    let n = needle.len();
    let m = hay.len();
    if at > m || n > m - at {
        return false;
    }
    let mut i: usize = 0;
    while i < n
        invariant
            n == needle@.len(),
            m == hay@.len(),
            at + n <= m,
            i <= n,
            forall|j: int| 0 <= j < i ==> hay@[at + j] == needle@[j],
        decreases n - i,
    {
        if hay[at + i] != needle[i] {
            assert(hay@.subrange(at as int, at + n)[i as int] == hay@[at + i]);
            return false;
        }
        i = i + 1;
    }
    assert(hay@.subrange(at as int, at + n) =~= needle@);
    true
}

/// Tells whether `needle` occurs anywhere in `hay`. The empty needle occurs
/// in every text.
pub fn contains_bytes(hay: &[u8], needle: &[u8]) -> (r: bool)
    ensures
        r == occurs_in(needle@, hay@),
{
    let n = needle.len();
    let m = hay.len();
    if n > m {
        assert forall|at: int| !occurs_at(needle@, hay@, at) by {}
        return false;
    }
    let last = m - n;
    let mut at: usize = 0;
    loop
        invariant
            n == needle@.len(),
            m == hay@.len(),
            last == m - n,
            at <= last,
            forall|j: int| 0 <= j < at ==> !occurs_at(needle@, hay@, j),
        decreases last - at,
    {
        if matches_at(hay, needle, at) {
            return true;
        }
        if at == last {
            assert forall|j: int| !occurs_at(needle@, hay@, j) by {}
            return false;
        }
        at = at + 1;
    }
}

} // verus!
