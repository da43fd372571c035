//! Classifying every entry of a corpus against a query word.
//!
//! A search cannot read files itself. It classifies what the index alone
//! decides and stops at each entry whose file has to be read again; the
//! caller reads that file and hands the outcome back.

use crate::entry::Entry;
use crate::signature::{token_positions, BfIndex};
use crate::store::{Corpus, DataStore, Record};
use crate::text::occurs_in;
use vstd::prelude::*;
use vstd::string::{StringExecFns, StringSliceAdditionalSpecFns};
use vstd::utf8::encode_utf8;

verus! {

/// How a file stands to a query word.
#[derive(Clone, Copy, Debug, PartialEq, Eq, Structural)]
pub enum Classification {
    /// The index proves that the word is not a token of the file.
    Negative,
    /// The index admits the word and the file's content holds it.
    TruePositive,
    /// The index admits the word, yet the file's content does not hold it.
    FalsePositive,
}

impl Classification {
    /// The text that reports the classification.
    pub open spec fn spec_label(self) -> Seq<char> {
        match self {
            Classification::Negative => "negative!"@,
            Classification::TruePositive => "true positive!"@,
            Classification::FalsePositive => "false positive!"@,
        }
    }

    /// The text that reports the classification.
    pub fn label(self) -> (r: &'static str)
        ensures
            r@ == self.spec_label(),
    {
        match self {
            Classification::Negative => "negative!",
            Classification::TruePositive => "true positive!",
            Classification::FalsePositive => "false positive!",
        }
    }
}

/// The line that reports the classification of the file at `path`: the
/// path, a colon, a tab, and the text of the classification.
pub fn report_line(path: &str, class: Classification) -> (r: String)
    ensures
        r@ == path@ + ":\t"@ + class.spec_label(),
{
    let mut line = path.to_owned();
    line.append(":\t");
    line.append(class.label());
    line
}

/// The classification of a candidate entry once its content has been checked.
pub open spec fn resolved(found: bool) -> Classification {
    if found {
        Classification::TruePositive
    } else {
        Classification::FalsePositive
    }
}

impl Corpus {
    /// The classification of entry `i` for `word`, given the content that
    /// its file has when it is read again.
    pub open spec fn classify(self, i: int, word: Seq<u8>, content: Seq<u8>) -> Classification {
        if self.is_candidate(i, word) {
            resolved(occurs_in(word, content))
        } else {
            Classification::Negative
        }
    }

    /// The first entry at or after `from` that is a candidate for `word`, or
    /// the number of entries if there is none.
    pub open spec fn next_candidate(self, word: Seq<u8>, from: int) -> int
        decreases self.entries.len() - from,
    {
        if from >= self.entries.len() {
            self.entries.len() as int
        } else if self.is_candidate(from, word) {
            from
        } else {
            self.next_candidate(word, from + 1)
        }
    }
}

/// The state of a search, as mathematics.
pub struct Pass {
    /// The corpus that is searched.
    pub corpus: Corpus,
    /// The query word.
    pub word: Seq<u8>,
    /// The classifications made so far: `outcomes[i]` is that of entry `i`.
    pub outcomes: Seq<Classification>,
    /// Whether the search waits for the content of entry `outcomes.len()`.
    pub awaiting: bool,
}

impl Pass {
    /// Classifies as negative every entry from the current one up to the
    /// next candidate, and waits for that candidate's content if there is one.
    pub open spec fn scan(self) -> Pass {
        let from = self.outcomes.len() as int;
        let next = self.corpus.next_candidate(self.word, from);
        Pass {
            outcomes: self.outcomes + Seq::new(
                (next - from) as nat,
                |i: int| Classification::Negative,
            ),
            awaiting: next < self.corpus.entries.len(),
            ..self
        }
    }

    /// The search for `word` in `corpus` before any file has been read
    /// again. The empty word is searched for nowhere.
    pub open spec fn start(corpus: Corpus, word: Seq<u8>) -> Pass {
        let idle = Pass { corpus, word, outcomes: Seq::empty(), awaiting: false };
        if word.len() == 0 {
            idle
        } else {
            idle.scan()
        }
    }

    /// The search after the awaited file was read and held `content`.
    pub open spec fn resolve(self, content: Seq<u8>) -> Pass {
        if self.awaiting {
            Pass {
                outcomes: self.outcomes.push(resolved(occurs_in(self.word, content))),
                awaiting: false,
                ..self
            }.scan()
        } else {
            self
        }
    }

    /// The entry whose file has to be read next, if any.
    pub open spec fn pending(self) -> Option<int> {
        if self.awaiting {
            Some(self.outcomes.len() as int)
        } else {
            None
        }
    }

    /// Whether the search has classified every entry it was to classify.
    pub open spec fn is_complete(self) -> bool {
        !self.awaiting && (self.word.len() == 0 || self.outcomes.len()
            == self.corpus.entries.len())
    }

    /// What holds of every state of a search: the outcomes belong to the
    /// first entries of the corpus, an entry is negative exactly when the
    /// index excludes the word, and a search waits only for a candidate.
    pub open spec fn well_formed(self) -> bool {
        &&& self.outcomes.len() <= self.corpus.entries.len()
        &&& forall|i: int|
            0 <= i < self.outcomes.len() ==> ((#[trigger] self.outcomes[i]
                == Classification::Negative) <==> !self.corpus.is_candidate(i, self.word))
        &&& self.awaiting ==> self.outcomes.len() < self.corpus.entries.len()
            && self.corpus.is_candidate(self.outcomes.len() as int, self.word)
        &&& self.word.len() == 0 ==> self.outcomes.len() == 0 && !self.awaiting
    }
}

/// Scanning keeps a well-formed search well-formed.
pub proof fn lemma_scan_well_formed(pass: Pass)
    requires
        pass.well_formed(),
        !pass.awaiting,
        pass.word.len() > 0,
    ensures
        pass.scan().well_formed(),
        pass.scan().awaiting || pass.scan().is_complete(),
{
    let from = pass.outcomes.len() as int;
    lemma_next_candidate(pass.corpus, pass.word, from);
}

/// Between `from` and the next candidate no entry is a candidate, and the
/// next candidate, if it is an entry, is one.
pub proof fn lemma_next_candidate(corpus: Corpus, word: Seq<u8>, from: int)
    requires
        0 <= from <= corpus.entries.len(),
    ensures
        from <= corpus.next_candidate(word, from) <= corpus.entries.len(),
        forall|i: int|
            from <= i < corpus.next_candidate(word, from) ==> !#[trigger] corpus.is_candidate(
                i,
                word,
            ),
        corpus.next_candidate(word, from) < corpus.entries.len() ==> corpus.is_candidate(
            corpus.next_candidate(word, from),
            word,
        ),
    decreases corpus.entries.len() - from,
{
    if from < corpus.entries.len() && !corpus.is_candidate(from, word) {
        lemma_next_candidate(corpus, word, from + 1);
    }
}

/// A search in progress over a corpus.
pub struct Search<'a> {
    store: &'a DataStore,
    word: String,
    signature: BfIndex,
    outcomes: Vec<Classification>,
    awaiting: bool,
}

impl<'a> View for Search<'a> {
    type V = Pass;

    closed spec fn view(&self) -> Pass {
        Pass {
            corpus: self.store@,
            word: encode_utf8(self.word@),
            outcomes: self.outcomes@,
            awaiting: self.awaiting,
        }
    }
}

impl<'a> Search<'a> {
    #[verifier::type_invariant]
    closed spec fn inv(&self) -> bool {
        &&& self@.well_formed()
        &&& self@.word.len() > 0 ==> self.signature@ == token_positions(
            self@.word,
            self@.corpus.keys,
        )
    }

    /// Classifies entries as negative up to the next candidate.
    fn scan(
        store: &'a DataStore,
        word: String,
        signature: BfIndex,
        outcomes: Vec<Classification>,
    ) -> (r: Self)
        requires
            (Pass {
                corpus: store@,
                word: encode_utf8(word@),
                outcomes: outcomes@,
                awaiting: false,
            }).well_formed(),
            encode_utf8(word@).len() > 0,
            signature@ == token_positions(encode_utf8(word@), store@.keys),
        ensures
            r@ == (Pass {
                corpus: store@,
                word: encode_utf8(word@),
                outcomes: outcomes@,
                awaiting: false,
            }).scan(),
            r@.well_formed(),
    {
        let ghost before = Pass {
            corpus: store@,
            word: encode_utf8(word@),
            outcomes: outcomes@,
            awaiting: false,
        };
        let ghost from = outcomes@.len() as int;
        let n = store.len();
        let mut outcomes = outcomes;
        let mut awaiting = false;
        proof {
            lemma_scan_well_formed(before);
            lemma_next_candidate(before.corpus, before.word, from);
        }
        while outcomes.len() < n && !awaiting
            invariant
                n == store@.entries.len(),
                before.corpus == store@,
                before.word == encode_utf8(word@),
                signature@ == token_positions(before.word, store@.keys),
                from <= outcomes@.len() <= n,
                outcomes@ =~= before.outcomes + Seq::new(
                    (outcomes@.len() - from) as nat,
                    |i: int| Classification::Negative,
                ),
                before.outcomes.len() == from,
                before.corpus.next_candidate(before.word, from) == before.corpus.next_candidate(
                    before.word,
                    outcomes@.len() as int,
                ),
                awaiting ==> outcomes@.len() < n && before.corpus.is_candidate(
                    outcomes@.len() as int,
                    before.word,
                ),
            decreases n - outcomes.len() + if awaiting { 0int } else { 1int },
        {
            let i = outcomes.len();
            let entry = store.entry(i).unwrap();
            if entry.signature().positive(&signature) {
                awaiting = true;
            } else {
                outcomes.push(Classification::Negative);
            }
        }
        assert(before.corpus.next_candidate(before.word, from) == outcomes@.len());
        Search { store, word, signature, outcomes, awaiting }
    }

    /// The entry whose file has to be read again before the search can go
    /// on, or `None` when the search waits for nothing.
    pub fn pending(&self) -> (r: Option<&'a Entry>)
        ensures
            self@.well_formed(),
            r is Some == self@.awaiting,
            r matches Some(entry) ==> self@.outcomes.len() < self@.corpus.entries.len()
                && self@.corpus.entries[self@.outcomes.len() as int] == (Record {
                signature: entry.spec_signature()@,
                path: entry.spec_path(),
            }),
    {
        proof {
            use_type_invariant(self);
        }
        if self.awaiting {
            self.store.entry(self.outcomes.len())
        } else {
            None
        }
    }

    /// Goes on with the outcome of reading the awaited file.
    ///
    /// The content decides between true and false positive for the awaited
    /// entry; the entries after it are classified up to the next one whose
    /// file has to be read. A search that waits for nothing is left as it
    /// is. A failed read ends the search: the error is handed back
    /// unchanged and no further entry is classified.
    pub fn resolve<E>(self, read: Result<String, E>) -> (r: Result<Self, E>)
        ensures
            match read {
                Ok(content) => r matches Ok(next) && next@ == self@.resolve(encode_utf8(content@))
                    && next@.well_formed(),
                Err(e) => r matches Err(f) && f == e,
            },
    {
        proof {
            use_type_invariant(&self);
        }
        if !self.awaiting {
            return match read {
                Ok(_) => Ok(self),
                Err(e) => Err(e),
            };
        }
        let Search { store, word, signature, outcomes, awaiting: _ } = self;
        let mut outcomes = outcomes;
        let entry = store.entry(outcomes.len()).unwrap();
        match entry.contains(read, word.as_str()) {
            Ok(found) => {
                outcomes.push(
                    if found {
                        Classification::TruePositive
                    } else {
                        Classification::FalsePositive
                    },
                );
                Ok(Self::scan(store, word, signature, outcomes))
            },
            Err(e) => Err(e),
        }
    }

    /// Whether every entry has been classified, or the word was empty.
    pub fn is_complete(&self) -> (r: bool)
        ensures
            self@.well_formed(),
            r == self@.is_complete(),
    {
        proof {
            use_type_invariant(self);
        }
        !self.awaiting && (self.word.as_str().as_bytes().len() == 0 || self.outcomes.len()
            == self.store.len())
    }

    /// The classifications made so far, in registration order.
    pub fn outcomes(&self) -> (r: &Vec<Classification>)
        ensures
            self@.well_formed(),
            r@ == self@.outcomes,
    {
        proof {
            use_type_invariant(self);
        }
        &self.outcomes
    }

    /// The classifications made so far, each with the path of its entry, in
    /// registration order.
    pub fn findings(&self) -> (r: Vec<(String, Classification)>)
        ensures
            r@.len() == self@.outcomes.len(),
            forall|i: int|
                0 <= i < r@.len() ==> (#[trigger] r@[i]).0@ == self@.corpus.entries[i].path
                    && r@[i].1 == self@.outcomes[i],
    {
        proof {
            use_type_invariant(self);
        }
        let mut r: Vec<(String, Classification)> = Vec::new();
        let mut i: usize = 0;
        while i < self.outcomes.len()
            invariant
                i <= self.outcomes@.len() <= self.store@.entries.len(),
                r@.len() == i,
                forall|j: int|
                    0 <= j < i ==> (#[trigger] r@[j]).0@ == self@.corpus.entries[j].path && r@[j].1
                        == self@.outcomes[j],
            decreases self.outcomes@.len() - i,
        {
            let entry = self.store.entry(i).unwrap();
            r.push((entry.path().to_owned(), self.outcomes[i]));
            i = i + 1;
        }
        r
    }
}

impl DataStore {
    /// Starts the search for `word` among the registered entries: classifies
    /// every entry up to the first whose file has to be read again. For the
    /// empty word nothing is classified and no file is asked for.
    pub fn search<'a>(&'a self, word: &str) -> (r: Search<'a>)
        ensures
            r@ == Pass::start(self@, word.spec_bytes()),
            r@.well_formed(),
            word.spec_bytes().len() == 0 ==> r@.outcomes.len() == 0 && r@.pending() is None,
    {
        if word.as_bytes().len() == 0 {
            return Search {
                store: self,
                word: word.to_owned(),
                signature: BfIndex::new(),
                outcomes: Vec::new(),
                awaiting: false,
            };
        }
        let index = BfIndex::from_str(word, self.keys());
        Search::scan(self, word.to_owned(), index, Vec::new())
    }
}

} // verus!
