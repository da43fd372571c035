//! Fixed-width bit signatures of tokens.

use crate::hashing::{bit_position, position_of_token};
use vstd::prelude::*;
use vstd::string::StringSliceAdditionalSpecFns;
use vstd::utf8::encode_utf8;

verus! {

/// Number of hash keys that every signature is computed with.
pub const HASH_N: usize = 3;

/// Whether bit `i` of `bits` is set. No bit at or beyond position 64 is set.
pub open spec fn has_bit(bits: u64, i: nat) -> bool {
    i < 64 && (bits >> (i as u64)) & 1 == 1
}

/// The byte strings of a key set, in order.
pub open spec fn key_bytes(keys: &[String; HASH_N]) -> Seq<Seq<u8>> {
    Seq::new(HASH_N as nat, |k: int| encode_utf8(keys@[k]@))
}

/// The bit positions that the keys assign to `token`, one for each key.
pub open spec fn token_positions(token: Seq<u8>, keys: Seq<Seq<u8>>) -> Set<nat> {
    Set::new(
        |p: nat| exists|k: int| 0 <= k < keys.len() && p == #[trigger] bit_position(keys[k], token),
    )
}

/// A word that is not zero has a set bit.
proof fn lemma_nonzero_has_bit(x: u64)
    requires
        x != 0,
    ensures
        exists|i: nat| has_bit(x, i),
    decreases x,
{
    if x & 1 == 1 {
        assert((x >> 0u64) & 1 == 1) by (bit_vector)
            requires
                x & 1 == 1,
        ;
        assert(has_bit(x, 0));
    } else {
        let y = x >> 1u64;
        assert(y != 0 && y < x) by (bit_vector)
            requires
                x != 0,
                x & 1 != 1,
                y == x >> 1u64,
        ;
        lemma_nonzero_has_bit(y);
        let i = choose|i: nat| has_bit(y, i);
        let j = i as u64;
        let k = (j + 1) as u64;
        assert(k < 64 && (x >> k) & 1 == 1) by (bit_vector)
            requires
                j < 64,
                k == j + 1,
                y == x >> 1u64,
                (y >> j) & 1 == 1,
        ;
        assert(has_bit(x, k as nat));
    }
}

/// Masking `a` by `b` leaves `b` exactly when every bit of `b` is a bit of `a`.
proof fn lemma_mask_is_subset(a: u64, b: u64)
    ensures
        (a & b == b) <==> (forall|i: nat| #[trigger] has_bit(b, i) ==> has_bit(a, i)),
{
    if a & b == b {
        assert forall|i: nat| has_bit(b, i) implies has_bit(a, i) by {
            let j = i as u64;
            assert((a >> j) & 1 == 1) by (bit_vector)
                requires
                    a & b == b,
                    j < 64,
                    (b >> j) & 1 == 1,
            ;
        }
    } else {
        let x = b & !a;
        assert(x != 0) by (bit_vector)
            requires
                a & b != b,
                x == b & !a,
        ;
        lemma_nonzero_has_bit(x);
        let i = choose|i: nat| has_bit(x, i);
        let j = i as u64;
        assert((b >> j) & 1 == 1 && (a >> j) & 1 != 1) by (bit_vector)
            requires
                x == b & !a,
                j < 64,
                (x >> j) & 1 == 1,
        ;
        assert(has_bit(b, i) && !has_bit(a, i));
    }
}

/// Setting bit `p` adds position `p` and changes no other bit.
proof fn lemma_set_bit(bits: u64, p: u64)
    requires
        p < 64,
    ensures
        forall|i: nat| #[trigger]
            has_bit(bits | (1u64 << p), i) <==> (has_bit(bits, i) || i == p),
{
    assert forall|i: nat| #[trigger]
        has_bit(bits | (1u64 << p), i) <==> (has_bit(bits, i) || i == p) by {
        if i < 64 {
            let j = i as u64;
            assert((((bits | (1u64 << p)) >> j) & 1 == 1) <==> ((bits >> j) & 1 == 1 || j == p))
                by (bit_vector)
                requires
                    p < 64,
                    j < 64,
            ;
        }
    }
}

/// Two signatures with the same set bits are the same signature.
pub proof fn lemma_positions_determine_signature(a: BfIndex, b: BfIndex)
    requires
        a@ == b@,
    ensures
        a == b,
{
    let x = a.0 ^ b.0;
    if x != 0 {
        lemma_nonzero_has_bit(x);
        let i = choose|i: nat| has_bit(x, i);
        let j = i as u64;
        let (u, v) = (a.0, b.0);
        assert(((u >> j) & 1 == 1) != ((v >> j) & 1 == 1)) by (bit_vector)
            requires
                x == u ^ v,
                j < 64,
                (x >> j) & 1 == 1,
        ;
        assert(a@.contains(i) == has_bit(u, i));
        assert(b@.contains(i) == has_bit(v, i));
    } else {
        let (u, v) = (a.0, b.0);
        assert(u == v) by (bit_vector)
            requires
                u ^ v == 0,
        ;
    }
}

/// A 64-bit signature: the set of bit positions that the tokens folded into
/// it were hashed to.
#[derive(Clone, Copy, Debug, PartialEq, Eq, PartialOrd, Ord, Hash)]
pub struct BfIndex(u64);

impl View for BfIndex {
    type V = Set<nat>;

    /// The positions of the set bits.
    open spec fn view(&self) -> Set<nat> {
        Set::new(|i: nat| has_bit(self.spec_bits(), i))
    }
}

impl BfIndex {
    /// The signature as a machine word: bit `i` of the word is position `i`.
    pub closed spec fn spec_bits(&self) -> u64 {
        self.0
    }

    /// The signature as a machine word.
    pub fn bits(&self) -> (b: u64)
        ensures
            b == self.spec_bits(),
    {
        self.0
    }

    /// The signature with no bit set.
    pub fn new() -> (r: Self)
        ensures
            r@ == Set::<nat>::empty(),
            r.spec_bits() == 0,
    {
        let r = Self(0);
        proof {
            assert forall|i: nat| !has_bit(0u64, i) by {
                if i < 64 {
                    let j = i as u64;
                    assert((0u64 >> j) & 1 == 0) by (bit_vector);
                }
            }
            assert(r@ =~= Set::<nat>::empty());
        }
        r
    }

    /// The signature of one token.
    pub fn from_str(word: &str, keys: &[String; HASH_N]) -> (r: Self)
        ensures
            r@ == token_positions(word.spec_bytes(), key_bytes(keys)),
    {
        let mut x = Self::new();
        x.update(word, keys);
        x
    }

    /// Folds one token into the signature: for each key, the bit that the key
    /// assigns to the token is set. No bit is ever cleared.
    pub fn update(&mut self, word: &str, keys: &[String; HASH_N])
        ensures
            final(self)@ == old(self)@.union(token_positions(word.spec_bytes(), key_bytes(keys))),
            old(self)@.subset_of(final(self)@),
            final(self).spec_bits() & old(self).spec_bits() == old(self).spec_bits(),
    {
        self.update_bytes(word.as_bytes(), keys);
    }

    /// Folds a token given as bytes into the signature.
    pub fn update_bytes(&mut self, token: &[u8], keys: &[String; HASH_N])
        ensures
            final(self)@ == old(self)@.union(token_positions(token@, key_bytes(keys))),
            old(self)@.subset_of(final(self)@),
            final(self).spec_bits() & old(self).spec_bits() == old(self).spec_bits(),
    {
        let mut k: usize = 0;
        while k < HASH_N
            invariant
                k <= HASH_N,
                self@ == old(self)@.union(token_positions(token@, key_bytes(keys).take(k as int))),
            decreases HASH_N - k,
        {
            let p = position_of_token(keys[k].as_str().as_bytes(), token);
            proof {
                lemma_set_bit(self.0, p);
                let done = key_bytes(keys).take(k as int);
                let next = key_bytes(keys).take(k + 1);
                assert(next[k as int] == key_bytes(keys)[k as int]);
                assert forall|q: nat|
                    token_positions(token@, next).contains(q) <==> (token_positions(
                        token@,
                        done,
                    ).contains(q) || q == p) by {
                    if token_positions(token@, done).contains(q) {
                        let j = choose|j: int|
                            0 <= j < done.len() && q == #[trigger] bit_position(done[j], token@);
                        assert(next[j] == done[j]);
                    }
                    if token_positions(token@, next).contains(q) {
                        let j = choose|j: int|
                            0 <= j < next.len() && q == #[trigger] bit_position(next[j], token@);
                        if j < k {
                            assert(done[j] == next[j]);
                        }
                    }
                }
            }
            let ghost before = *self;
            self.0 = self.0 | (1u64 << p);
            k = k + 1;
            assert forall|q: nat|
                self@.contains(q) <==> old(self)@.union(
                    token_positions(token@, key_bytes(keys).take(k as int)),
                ).contains(q) by {
                assert(has_bit(self.0, q) <==> (has_bit(before.0, q) || q == p));
                assert(before@.contains(q) <==> has_bit(before.0, q));
            }
            assert(self@ =~= old(self)@.union(
                token_positions(token@, key_bytes(keys).take(k as int)),
            ));
        }
        assert(key_bytes(keys).take(HASH_N as int) =~= key_bytes(keys));
        proof {
            lemma_mask_is_subset(self.0, old(self).0);
            assert forall|i: nat| #[trigger] has_bit(old(self).0, i) implies has_bit(self.0, i) by {
                assert(old(self)@.contains(i));
                assert(self@.contains(i));
            }
        }
    }

    /// Whether every bit of `other` is also set in `self`.
    pub fn positive(&self, other: &Self) -> (r: bool)
        ensures
            r == other@.subset_of(self@),
            r == (self.spec_bits() & other.spec_bits() == other.spec_bits()),
    {
        proof {
            lemma_mask_is_subset(self.0, other.0);
            if other@.subset_of(self@) {
                assert forall|i: nat| #[trigger] has_bit(other.0, i) implies has_bit(self.0, i) by {
                    assert(other@.contains(i));
                }
            }
        }
        (self.0 & other.0) == other.0
    }
}

} // verus!
