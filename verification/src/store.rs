//! The indexed corpus: a fixed key set and the entries registered under it.

use crate::entry::{text_positions, Entry};
use crate::signature::{key_bytes, token_positions, HASH_N};
use vstd::prelude::*;
use vstd::utf8::encode_utf8;

verus! {

/// What the corpus knows of one registered file.
pub struct Record {
    /// The bit positions of the file's vocabulary signature.
    pub signature: Set<nat>,
    /// The path the file was registered under.
    pub path: Seq<char>,
}

/// The mathematical content of a corpus: its keys and, in registration
/// order, its records.
pub struct Corpus {
    pub keys: Seq<Seq<u8>>,
    pub entries: Seq<Record>,
}

impl Corpus {
    /// The corpus after registering a file with the given path and content.
    pub open spec fn register(self, path: Seq<char>, content: Seq<u8>) -> Corpus {
        Corpus {
            keys: self.keys,
            entries: self.entries.push(
                Record { signature: text_positions(content, self.keys), path },
            ),
        }
    }

    /// Whether entry `i` may contain `word`: whether its signature holds
    /// every bit of the word's signature.
    pub open spec fn is_candidate(self, i: int, word: Seq<u8>) -> bool {
        token_positions(word, self.keys).subset_of(self.entries[i].signature)
    }
}

/// A corpus of registered files under one key set.
#[derive(Debug)]
pub struct DataStore {
    data: Vec<Entry>,
    keys: [String; HASH_N],
}

impl View for DataStore {
    type V = Corpus;

    closed spec fn view(&self) -> Corpus {
        Corpus {
            keys: key_bytes(&self.keys),
            entries: Seq::new(
                self.data@.len(),
                |i: int|
                    Record {
                        signature: self.data@[i].spec_signature()@,
                        path: self.data@[i].spec_path(),
                    },
            ),
        }
    }
}

impl DataStore {
    /// An empty corpus bound to `keys`.
    pub fn with_keys(keys: &[String; HASH_N]) -> (r: Self)
        ensures
            r@.keys == key_bytes(keys),
            r@.entries == Seq::<Record>::empty(),
    {
        let r = Self { data: Vec::new(), keys: [keys[0].clone(), keys[1].clone(), keys[2].clone()] };
        assert(r@.keys =~= key_bytes(keys));
        assert(r@.entries =~= Seq::<Record>::empty());
        r
    }

    /// The keys of the corpus.
    pub fn keys(&self) -> (r: &[String; HASH_N])
        ensures
            key_bytes(r) == self@.keys,
    {
        &self.keys
    }

    /// The number of registered entries.
    pub fn len(&self) -> (n: usize)
        ensures
            n == self@.entries.len(),
    {
        self.data.len()
    }

    /// The entry registered as the `i`-th.
    pub fn entry(&self, i: usize) -> (r: Option<&Entry>)
        ensures
            match r {
                Some(entry) => i < self@.entries.len() && self@.entries[i as int] == (Record {
                    signature: entry.spec_signature()@,
                    path: entry.spec_path(),
                }),
                None => i >= self@.entries.len(),
            },
    {
        if i < self.data.len() {
            Some(&self.data[i])
        } else {
            None
        }
    }

    /// Registers the file at `path` from the outcome of reading it.
    ///
    /// A file that was read is appended as a new entry, after all earlier
    /// ones. A failed read is handed back unchanged and leaves the corpus
    /// as it was.
    pub fn register<E>(&mut self, path: &str, read: Result<String, E>) -> (r: Result<(), E>)
        ensures
            match read {
                Ok(content) => r is Ok && final(self)@ == old(self)@.register(
                    path@,
                    encode_utf8(content@),
                ),
                Err(e) => r matches Err(f) && f == e && final(self)@ == old(self)@,
            },
    {
        match Entry::new(path, read, &self.keys) {
            Ok(entry) => {
                self.data.push(entry);
                assert(self@.entries =~= old(self)@.register(
                    path@,
                    encode_utf8(read->Ok_0@),
                ).entries);
                Ok(())
            },
            Err(e) => Err(e),
        }
    }
}

} // verus!
