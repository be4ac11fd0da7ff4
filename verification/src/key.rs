//! A string wrapper compared and hashed case-insensitively.

use vstd::prelude::*;
use vstd::string::StrSliceExecFns;
use crate::folding::{fold_of, to_folded};

verus! {

/// Offset basis of the 64-bit FNV-1a hash.
pub const HASH_SEED: u64 = 0xcbf2_9ce4_8422_2325;

/// Prime of the 64-bit FNV-1a hash.
pub const HASH_FACTOR: u64 = 0x0000_0100_0000_01b3;

/// The FNV-1a hash of a sequence of characters, folding each character's
/// scalar value into the accumulator in order.
pub closed spec fn hash_of(s: Seq<char>) -> u64
    decreases s.len(),
{
    if s.len() == 0 {
        HASH_SEED
    } else {
        (hash_of(s.drop_last()) ^ ((s.last() as u32) as u64)).wrapping_mul(HASH_FACTOR)
    }
}

/// A text value whose equality and hash are derived from the case-folded
/// projection of the text, while the text itself is kept exactly as
/// constructed.
pub struct CaseInsensitiveString {
    pub inner: String,
}

impl View for CaseInsensitiveString {
    type V = Seq<char>;

    open spec fn view(&self) -> Seq<char> {
        self.inner@
    }
}

impl CaseInsensitiveString {
    /// The case-folded projection of the wrapped text; equality and hashing
    /// go by this key, never by the text itself.
    pub open spec fn key(self) -> Seq<char> {
        fold_of(self@)
    }

    /// The case-insensitive equality relation: two keys are related exactly
    /// when their folded projections coincide.
    pub open spec fn equiv(self, other: Self) -> bool {
        self.key() == other.key()
    }

    /// Wraps `s` verbatim; any string, including the empty one, is accepted.
    pub fn new(s: &str) -> (r: Self)
        ensures
            r@ == s@,
    {
        CaseInsensitiveString { inner: s.to_owned() }
    }

    /// Case-insensitive equality: true exactly when the two folded
    /// projections are equal.
    pub fn equals(&self, other: &Self) -> (r: bool)
        ensures
            r == self.equiv(*other),
    {
        let a = to_folded(self.inner.as_str());
        let b = to_folded(other.inner.as_str());
        a == b
    }

    /// The hash of a key is the hash of its folded projection, so that
    /// `equiv` keys always hash identically.
    pub open spec fn hash_value(self) -> u64 {
        hash_of(self.key())
    }

    /// Case-insensitive hash: computed over the folded projection, never
    /// over the stored text.
    pub fn hash(&self) -> (r: u64)
        ensures
            r == self.hash_value(),
    {
        let folded = to_folded(self.inner.as_str());
        let s = folded.as_str();
        let n = s.unicode_len();
        let mut h: u64 = HASH_SEED;
        let mut i: usize = 0;
        while i < n
            invariant
                n == s@.len(),
                s@ == fold_of(self.inner@),
                i <= n,
                h == hash_of(s@.take(i as int)),
            decreases n - i,
        {
            let c = s.get_char(i);
            proof {
                assert(s@.take(i + 1).drop_last() =~= s@.take(i as int));
            }
            h = (h ^ ((c as u32) as u64)).wrapping_mul(HASH_FACTOR);
            i += 1;
        }
        proof {
            assert(s@.take(n as int) =~= s@);
        }
        h
    }
}

/// Hash-equality consistency: keys related by `equiv` hash identically.
pub proof fn lemma_equiv_implies_equal_hash(a: CaseInsensitiveString, b: CaseInsensitiveString)
    requires
        a.equiv(b),
    ensures
        a.hash_value() == b.hash_value(),
{
}

/// `equiv` is an equivalence relation: reflexive, symmetric and transitive.
pub proof fn lemma_equiv_is_equivalence(
    a: CaseInsensitiveString,
    b: CaseInsensitiveString,
    c: CaseInsensitiveString,
)
    ensures
        a.equiv(a),
        a.equiv(b) <==> b.equiv(a),
        a.equiv(b) && b.equiv(c) ==> a.equiv(c),
{
}

} // verus!
