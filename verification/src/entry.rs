//! One registered file: its vocabulary signature and its path.

use crate::signature::{key_bytes, token_positions, BfIndex, HASH_N};
use crate::text::{
    contains_bytes, is_token_boundary, is_token_span, is_whitespace, next_token, occurs_in,
};
use vstd::prelude::*;
use vstd::string::StringSliceAdditionalSpecFns;
use vstd::utf8::encode_utf8;

verus! {

/// The bit positions of the tokens of `text` that end at or before `upto`.
pub open spec fn text_positions_upto(text: Seq<u8>, keys: Seq<Seq<u8>>, upto: int) -> Set<nat> {
    Set::new(
        |p: nat|
            exists|start: int, end: int|
                end <= upto && #[trigger] is_token_span(text, start, end) && token_positions(
                    text.subrange(start, end),
                    keys,
                ).contains(p),
    )
}

/// The vocabulary signature of `text`: the bit positions of all its tokens.
pub open spec fn text_positions(text: Seq<u8>, keys: Seq<Seq<u8>>) -> Set<nat> {
    text_positions_upto(text, keys, text.len() as int)
}

/// The first token after `from` is the only token that ends after `from` and
/// no later than it does.
proof fn lemma_next_token_is_only(text: Seq<u8>, from: int, start: int, end: int, s: int, e: int)
    requires
        0 <= from <= start,
        forall|i: int| from <= i < start ==> is_whitespace(#[trigger] text[i]),
        is_token_span(text, start, end),
        is_token_span(text, s, e),
        from < e <= end,
    ensures
        s == start,
        e == end,
{
    assert(!is_whitespace(text[e - 1]));
    assert(start <= e - 1);
    if e < end {
        assert(!is_whitespace(text[e]));
    }
    if s > start {
        assert(!is_whitespace(text[s - 1]));
    }
    if s < start {
        assert(!is_whitespace(text[start - 1]));
    }
}

/// A registered file.
#[derive(Debug)]
pub struct Entry {
    bfindex: BfIndex,
    path: String,
}

impl Entry {
    /// The vocabulary signature of the file.
    pub closed spec fn spec_signature(&self) -> BfIndex {
        self.bfindex
    }

    /// The path of the file.
    pub closed spec fn spec_path(&self) -> Seq<char> {
        self.path@
    }

    /// The vocabulary signature of the file.
    pub fn signature(&self) -> (r: BfIndex)
        ensures
            r == self.spec_signature(),
    {
        self.bfindex
    }

    /// The path of the file.
    pub fn path(&self) -> (r: &str)
        ensures
            r@ == self.spec_path(),
    {
        self.path.as_str()
    }

    /// Builds the entry of the file at `path` from the outcome of reading it.
    ///
    /// Every whitespace-delimited token of the content is folded into the
    /// signature; a file without tokens has the empty signature. A failed
    /// read is handed back unchanged.
    pub fn new<E>(path: &str, read: Result<String, E>, keys: &[String; HASH_N]) -> (r: Result<
        Self,
        E,
    >)
        ensures
            match read {
                Ok(content) => r matches Ok(entry) && entry.spec_path() == path@
                    && entry.spec_signature()@ == text_positions(
                    encode_utf8(content@),
                    key_bytes(keys),
                ),
                Err(e) => r matches Err(f) && f == e,
            },
    {
        let buf = match read {
            Ok(buf) => buf,
            Err(e) => { return Err(e); },
        };
        let text = buf.as_str().as_bytes();
        let mut bfindex = BfIndex::new();
        let mut from: usize = 0;
        loop
            invariant
                read == Ok::<String, E>(buf),
                text@ == encode_utf8(buf@),
                is_token_boundary(text@, from as int),
                bfindex@ == text_positions_upto(text@, key_bytes(keys), from as int),
            decreases text@.len() - from,
        {
            match next_token(text, from) {
                Some((start, end)) => {
                    let ghost before = bfindex;
                    bfindex.update_bytes(&text[start..end], keys);
                    proof {
                        let ks = key_bytes(keys);
                        let token = text@.subrange(start as int, end as int);
                        assert forall|p: nat|
                            text_positions_upto(text@, ks, end as int).contains(p) <==> (
                            before@.contains(p) || token_positions(token, ks).contains(p)) by {
                            if text_positions_upto(text@, ks, end as int).contains(p) {
                                let (s, e) = choose|s: int, e: int|
                                    e <= end && #[trigger] is_token_span(text@, s, e)
                                        && token_positions(text@.subrange(s, e), ks).contains(p);
                                if e > from {
                                    lemma_next_token_is_only(
                                        text@,
                                        from as int,
                                        start as int,
                                        end as int,
                                        s,
                                        e,
                                    );
                                }
                            }
                            if token_positions(token, ks).contains(p) {
                                assert(is_token_span(text@, start as int, end as int));
                            }
                        }
                        assert(bfindex@ =~= text_positions_upto(text@, ks, end as int));
                    }
                    from = end;
                },
                None => {
                    proof {
                        let ks = key_bytes(keys);
                        assert forall|p: nat|
                            text_positions(text@, ks).contains(p) implies text_positions_upto(
                            text@,
                            ks,
                            from as int,
                        ).contains(p) by {
                            let (s, e) = choose|s: int, e: int|
                                e <= text@.len() && #[trigger] is_token_span(text@, s, e)
                                    && token_positions(text@.subrange(s, e), ks).contains(p);
                            if e > from {
                                assert(!is_whitespace(text@[e - 1]));
                            }
                        }
                        assert(bfindex@ =~= text_positions(text@, ks));
                    }
                    return Ok(Self { bfindex, path: path.to_owned() });
                },
            }
        }
    }

    /// Checks a freshly read copy of the file for a literal occurrence of `s`.
    /// A failed read is handed back unchanged.
    pub fn contains<E>(&self, read: Result<String, E>, s: &str) -> (r: Result<bool, E>)
        ensures
            match read {
                Ok(content) => r matches Ok(found) && found == occurs_in(
                    s.spec_bytes(),
                    encode_utf8(content@),
                ),
                Err(e) => r matches Err(f) && f == e,
            },
    {
        match read {
            Ok(buf) => Ok(contains_bytes(buf.as_str().as_bytes(), s.as_bytes())),
            Err(e) => Err(e),
        }
    }
}

} // verus!
