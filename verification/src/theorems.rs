//! What the index guarantees, stated over its mathematical model.

use crate::entry::{text_positions, text_positions_upto};
use crate::hashing::bit_position;
use crate::search::{
    lemma_next_candidate, lemma_scan_well_formed, resolved, Classification, Pass,
};
use crate::signature::{lemma_positions_determine_signature, token_positions, BfIndex};
use crate::store::Corpus;
use crate::text::{is_token_of, is_token_span, is_whitespace, occurs_in, only_whitespace_from};
use vstd::prelude::*;

verus! {

/// The signature of a text holds every bit of each of its tokens.
pub proof fn lemma_token_bits_in_text(text: Seq<u8>, token: Seq<u8>, keys: Seq<Seq<u8>>)
    requires
        is_token_of(token, text),
    ensures
        token_positions(token, keys).subset_of(text_positions(text, keys)),
{
    let (start, end) = choose|start: int, end: int| #[trigger]
        is_token_span(text, start, end) && text.subrange(start, end) == token;
    assert forall|p: nat| token_positions(token, keys).contains(p) implies text_positions(
        text,
        keys,
    ).contains(p) by {
        assert(is_token_span(text, start, end));
    }
}

/// No false negatives: an entry whose signature was built from a content
/// that has `word` among its tokens is a candidate for `word`, and is never
/// classified as negative, whatever its file holds when it is read again.
pub proof fn lemma_no_false_negative(
    corpus: Corpus,
    i: int,
    content: Seq<u8>,
    word: Seq<u8>,
    reread: Seq<u8>,
)
    requires
        0 <= i < corpus.entries.len(),
        corpus.entries[i].signature == text_positions(content, corpus.keys),
        is_token_of(word, content),
    ensures
        corpus.is_candidate(i, word),
        corpus.classify(i, word, reread) != Classification::Negative,
{
    lemma_token_bits_in_text(content, word, corpus.keys);
}

/// No false negatives, of a search: no state of a search for `word` holds a
/// negative outcome for an entry that was registered with `word` among its
/// tokens.
pub proof fn lemma_search_has_no_false_negative(pass: Pass, i: int, content: Seq<u8>)
    requires
        pass.well_formed(),
        0 <= i < pass.outcomes.len(),
        pass.corpus.entries[i].signature == text_positions(content, pass.corpus.keys),
        is_token_of(pass.word, content),
    ensures
        pass.outcomes[i] != Classification::Negative,
{
    lemma_token_bits_in_text(content, pass.word, pass.corpus.keys);
}

/// Folding grows: the signature of the tokens up to one place holds every
/// bit of the signature of the tokens up to an earlier place.
pub proof fn lemma_folding_grows(text: Seq<u8>, keys: Seq<Seq<u8>>, earlier: int, later: int)
    requires
        earlier <= later,
    ensures
        text_positions_upto(text, keys, earlier).subset_of(text_positions_upto(text, keys, later)),
{
    assert forall|p: nat| text_positions_upto(text, keys, earlier).contains(p) implies
        text_positions_upto(text, keys, later).contains(p) by {
        let (s, e) = choose|s: int, e: int|
            e <= earlier && #[trigger] is_token_span(text, s, e) && token_positions(
                text.subrange(s, e),
                keys,
            ).contains(p);
        assert(e <= later && is_token_span(text, s, e));
    }
}

/// Folding one more token into a signature clears no bit: a signature that
/// passed the superset test for a query still passes it afterwards.
pub proof fn lemma_update_keeps_candidates(
    before: Set<nat>,
    token: Seq<u8>,
    keys: Seq<Seq<u8>>,
    query: Set<nat>,
)
    requires
        query.subset_of(before),
    ensures
        before.subset_of(before.union(token_positions(token, keys))),
        query.subset_of(before.union(token_positions(token, keys))),
{
}

/// Determinism: two signatures of the same token under the same keys are
/// equal.
pub proof fn lemma_token_signature_is_unique(
    a: BfIndex,
    b: BfIndex,
    token: Seq<u8>,
    keys: Seq<Seq<u8>>,
)
    requires
        a@ == token_positions(token, keys),
        b@ == token_positions(token, keys),
    ensures
        a == b,
{
    lemma_positions_determine_signature(a, b);
}

/// Under at least one key, the signature of a token has a bit.
pub proof fn lemma_token_has_a_bit(token: Seq<u8>, keys: Seq<Seq<u8>>)
    requires
        keys.len() > 0,
    ensures
        token_positions(token, keys) != Set::<nat>::empty(),
{
    let p = bit_position(keys[0], token);
    assert(token_positions(token, keys).contains(p));
}

/// A text without tokens has the empty signature.
pub proof fn lemma_blank_text_has_no_bits(text: Seq<u8>, keys: Seq<Seq<u8>>)
    requires
        only_whitespace_from(text, 0),
    ensures
        text_positions(text, keys) == Set::<nat>::empty(),
{
    assert forall|p: nat| !text_positions(text, keys).contains(p) by {
        if text_positions(text, keys).contains(p) {
            let (s, e) = choose|s: int, e: int|
                e <= text.len() && #[trigger] is_token_span(text, s, e) && token_positions(
                    text.subrange(s, e),
                    keys,
                ).contains(p);
            assert(is_whitespace(text[s]));
        }
    }
    assert(text_positions(text, keys) =~= Set::<nat>::empty());
}

/// An entry with the empty signature is negative for every word, as long as
/// the corpus has a key.
pub proof fn lemma_empty_signature_is_negative(
    corpus: Corpus,
    i: int,
    word: Seq<u8>,
    content: Seq<u8>,
)
    requires
        0 <= i < corpus.entries.len(),
        corpus.entries[i].signature == Set::<nat>::empty(),
        corpus.keys.len() > 0,
    ensures
        !corpus.is_candidate(i, word),
        corpus.classify(i, word, content) == Classification::Negative,
{
    let p = bit_position(corpus.keys[0], word);
    assert(token_positions(word, corpus.keys).contains(p));
}

/// The three classifications exclude each other and leave no fourth.
pub proof fn lemma_classification_is_one_of_three(c: Classification)
    ensures
        c == Classification::Negative || c == Classification::TruePositive || c
            == Classification::FalsePositive,
        Classification::Negative != Classification::TruePositive,
        Classification::Negative != Classification::FalsePositive,
        Classification::TruePositive != Classification::FalsePositive,
{
}

/// The search for the empty word classifies nothing and asks for no file.
pub proof fn lemma_empty_query_is_idle(corpus: Corpus, word: Seq<u8>)
    requires
        word.len() == 0,
    ensures
        Pass::start(corpus, word).outcomes == Seq::<Classification>::empty(),
        Pass::start(corpus, word).pending() is None,
        Pass::start(corpus, word).is_complete(),
{
}

/// A search starts well-formed, and either waits for a file or is complete.
pub proof fn lemma_start_well_formed(corpus: Corpus, word: Seq<u8>)
    ensures
        Pass::start(corpus, word).well_formed(),
        Pass::start(corpus, word).awaiting || Pass::start(corpus, word).is_complete(),
{
    if word.len() > 0 {
        lemma_scan_well_formed(
            Pass { corpus, word, outcomes: Seq::empty(), awaiting: false },
        );
    }
}

/// Handing a waiting search the content it waits for keeps it well-formed,
/// keeps every outcome made so far, classifies at least the awaited entry,
/// and leaves the search waiting for a later entry or complete.
pub proof fn lemma_resolve_makes_progress(pass: Pass, content: Seq<u8>)
    requires
        pass.well_formed(),
        pass.awaiting,
    ensures
        pass.resolve(content).well_formed(),
        pass.resolve(content).outcomes.len() > pass.outcomes.len(),
        pass.resolve(content).outcomes.take(pass.outcomes.len() as int) == pass.outcomes,
        pass.resolve(content).awaiting || pass.resolve(content).is_complete(),
{
    let decided = Pass {
        outcomes: pass.outcomes.push(resolved(occurs_in(pass.word, content))),
        awaiting: false,
        ..pass
    };
    lemma_scan_well_formed(decided);
    lemma_next_candidate(decided.corpus, decided.word, decided.outcomes.len() as int);
    assert(pass.resolve(content).outcomes.take(pass.outcomes.len() as int) =~= pass.outcomes);
}

/// Whether every outcome of `pass` is the classification of its entry,
/// where `contents[i]` is what the file of entry `i` holds when read again.
pub open spec fn agrees_with(pass: Pass, contents: Seq<Seq<u8>>) -> bool {
    forall|i: int|
        0 <= i < pass.outcomes.len() ==> #[trigger] pass.outcomes[i] == pass.corpus.classify(
            i,
            pass.word,
            contents[i],
        )
}

/// A search starts in agreement with any contents of the files.
pub proof fn lemma_start_agrees(corpus: Corpus, word: Seq<u8>, contents: Seq<Seq<u8>>)
    ensures
        agrees_with(Pass::start(corpus, word), contents),
{
    if word.len() > 0 {
        lemma_next_candidate(corpus, word, 0);
    }
}

/// A search that is handed the content of the awaited entry stays in
/// agreement with the contents of the files.
pub proof fn lemma_resolve_agrees(pass: Pass, contents: Seq<Seq<u8>>)
    requires
        pass.well_formed(),
        pass.awaiting,
        agrees_with(pass, contents),
    ensures
        agrees_with(pass.resolve(contents[pass.outcomes.len() as int]), contents),
{
    let at = pass.outcomes.len() as int;
    lemma_next_candidate(pass.corpus, pass.word, at + 1);
}

/// Completeness: a complete search for a word that is not empty holds
/// exactly one outcome for every entry of the corpus, and where it agrees
/// with the contents of the files, each outcome is the classification of
/// its entry.
pub proof fn lemma_complete_search_classifies_all(pass: Pass, contents: Seq<Seq<u8>>)
    requires
        pass.well_formed(),
        pass.is_complete(),
        pass.word.len() > 0,
        agrees_with(pass, contents),
    ensures
        pass.outcomes.len() == pass.corpus.entries.len(),
        pass.outcomes == Seq::new(
            pass.corpus.entries.len(),
            |i: int| pass.corpus.classify(i, pass.word, contents[i]),
        ),
{
    assert(pass.outcomes =~= Seq::new(
        pass.corpus.entries.len(),
        |i: int| pass.corpus.classify(i, pass.word, contents[i]),
    ));
}

/// Registering the same file twice appends two entries with the same path
/// and the same signature, and changes neither the keys nor an earlier
/// entry.
pub proof fn lemma_register_twice(corpus: Corpus, path: Seq<char>, content: Seq<u8>)
    ensures
        ({
            let n = corpus.entries.len() as int;
            let twice = corpus.register(path, content).register(path, content);
            &&& twice.keys == corpus.keys
            &&& twice.entries.len() == n + 2
            &&& twice.entries.take(n) == corpus.entries
            &&& twice.entries[n] == twice.entries[n + 1]
            &&& twice.entries[n].signature == text_positions(content, corpus.keys)
            &&& twice.entries[n].path == path
        }),
{
    let n = corpus.entries.len() as int;
    let twice = corpus.register(path, content).register(path, content);
    assert(twice.entries.take(n) =~= corpus.entries);
}

} // verus!
