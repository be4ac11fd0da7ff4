//! Case-insensitive deduplication with first-seen retention.

use vstd::prelude::*;
use crate::folding::to_folded;
use crate::key::CaseInsensitiveString;

verus! {

/// Whether some element of `s` has the folded key `k`.
pub open spec fn has_key(s: Seq<CaseInsensitiveString>, k: Seq<char>) -> bool {
    exists|i: int| 0 <= i < s.len() && s[i].key() == k
}

/// First-seen deduplication: an element is kept exactly when no earlier
/// element has the same folded key, and the kept elements appear in input
/// order.
pub open spec fn dedup_spec(s: Seq<CaseInsensitiveString>) -> Seq<CaseInsensitiveString>
    decreases s.len(),
{
    if s.len() == 0 {
        Seq::empty()
    } else if has_key(s.drop_last(), s.last().key()) {
        dedup_spec(s.drop_last())
    } else {
        dedup_spec(s.drop_last()).push(s.last())
    }
}

/// Deduplication keeps an element exactly when its folded key is new, so the
/// result mentions a key exactly when the input does.
pub proof fn lemma_dedup_preserves_keys(s: Seq<CaseInsensitiveString>)
    ensures
        forall|k: Seq<char>| has_key(dedup_spec(s), k) <==> has_key(s, k),
    decreases s.len(),
{
    if s.len() > 0 {
        let prefix = s.drop_last();
        lemma_dedup_preserves_keys(prefix);
        assert forall|k: Seq<char>| has_key(s, k) implies has_key(dedup_spec(s), k) by {
            let i = choose|i: int| 0 <= i < s.len() && s[i].key() == k;
            if i < s.len() - 1 {
                assert(prefix[i].key() == k);
                assert(has_key(prefix, k));
            } else {
                assert(k == s.last().key());
            }
            if has_key(prefix, k) {
                assert(has_key(dedup_spec(prefix), k));
                let j = choose|j: int|
                    0 <= j < dedup_spec(prefix).len() && dedup_spec(prefix)[j].key() == k;
                assert(dedup_spec(s)[j].key() == k);
            } else {
                assert(dedup_spec(s)[dedup_spec(s).len() - 1].key() == k);
            }
        }
        assert forall|k: Seq<char>| has_key(dedup_spec(s), k) implies has_key(s, k) by {
            let j = choose|j: int| 0 <= j < dedup_spec(s).len() && dedup_spec(s)[j].key() == k;
            if j < dedup_spec(prefix).len() {
                assert(dedup_spec(prefix)[j].key() == k);
                assert(has_key(dedup_spec(prefix), k));
                assert(has_key(prefix, k));
                let i = choose|i: int| 0 <= i < prefix.len() && prefix[i].key() == k;
                assert(s[i].key() == k);
            } else {
                assert(s[s.len() - 1].key() == k);
            }
        }
    }
}

/// Whether no two elements of `s` share a folded key.
pub open spec fn distinct_keys(s: Seq<CaseInsensitiveString>) -> bool {
    forall|i: int, j: int| 0 <= i < j < s.len() ==> s[i].key() != s[j].key()
}

/// The set of distinct folded keys present in `s`.
pub open spec fn key_set(s: Seq<CaseInsensitiveString>) -> Set<Seq<char>> {
    s.map_values(|x: CaseInsensitiveString| x.key()).to_set()
}

/// No two elements of a deduplicated sequence share a folded key.
pub proof fn lemma_dedup_distinct_keys(s: Seq<CaseInsensitiveString>)
    ensures
        distinct_keys(dedup_spec(s)),
    decreases s.len(),
{
    if s.len() > 0 {
        let prefix = s.drop_last();
        lemma_dedup_distinct_keys(prefix);
        if !has_key(prefix, s.last().key()) {
            lemma_dedup_preserves_keys(prefix);
            let d = dedup_spec(s);
            assert forall|i: int, j: int| 0 <= i < j < d.len() implies d[i].key() != d[j].key() by {
                if j == d.len() - 1 {
                    assert(d[i] == dedup_spec(prefix)[i]);
                    if dedup_spec(prefix)[i].key() == s.last().key() {
                        assert(has_key(dedup_spec(prefix), s.last().key()));
                        assert(false);
                    }
                } else {
                    assert(d[i] == dedup_spec(prefix)[i]);
                    assert(d[j] == dedup_spec(prefix)[j]);
                }
            }
        }
    }
}

/// On an input whose elements already have pairwise distinct folded keys,
/// deduplication returns the input itself.
pub proof fn lemma_dedup_identity_on_distinct(s: Seq<CaseInsensitiveString>)
    requires
        distinct_keys(s),
    ensures
        dedup_spec(s) == s,
    decreases s.len(),
{
    if s.len() > 0 {
        let prefix = s.drop_last();
        assert forall|i: int, j: int|
            0 <= i < j < prefix.len() implies prefix[i].key() != prefix[j].key() by {
            assert(prefix[i] == s[i]);
            assert(prefix[j] == s[j]);
        }
        lemma_dedup_identity_on_distinct(prefix);
        if has_key(prefix, s.last().key()) {
            let i = choose|i: int| 0 <= i < prefix.len() && prefix[i].key() == s.last().key();
            assert(s[i].key() == s[s.len() - 1].key());
            assert(false);
        }
        assert(dedup_spec(s) =~= s);
    } else {
        assert(dedup_spec(s) =~= s);
    }
}

/// Deduplicating twice is the same as deduplicating once.
pub proof fn lemma_dedup_idempotent(s: Seq<CaseInsensitiveString>)
    ensures
        dedup_spec(dedup_spec(s)) == dedup_spec(s),
{
    lemma_dedup_distinct_keys(s);
    lemma_dedup_identity_on_distinct(dedup_spec(s));
}

/// The output is never longer than the input, and its length is exactly the
/// number of distinct folded keys present in the input.
pub proof fn lemma_dedup_cardinality(s: Seq<CaseInsensitiveString>)
    ensures
        dedup_spec(s).len() <= s.len(),
        dedup_spec(s).len() == key_set(s).len(),
{
    broadcast use vstd::set::group_set_axioms;

    let f = |x: CaseInsensitiveString| x.key();
    let d = dedup_spec(s);
    lemma_dedup_distinct_keys(s);
    lemma_dedup_preserves_keys(s);
    assert forall|i: int, j: int|
        0 <= i < j < d.map_values(f).len() implies d.map_values(f)[i] != d.map_values(f)[j] by {
        assert(d.map_values(f)[i] == d[i].key());
        assert(d.map_values(f)[j] == d[j].key());
    }
    d.map_values(f).unique_seq_to_set();
    assert forall|k: Seq<char>| key_set(d).contains(k) implies key_set(s).contains(k) by {
        assert(d.map_values(f).contains(k));
        let j = choose|j: int| 0 <= j < d.map_values(f).len() && d.map_values(f)[j] == k;
        assert(d[j].key() == k);
        assert(has_key(d, k));
        assert(has_key(s, k));
        let i = choose|i: int| 0 <= i < s.len() && s[i].key() == k;
        assert(s.map_values(f)[i] == k);
        assert(s.map_values(f).contains(k));
    }
    assert forall|k: Seq<char>| key_set(s).contains(k) implies key_set(d).contains(k) by {
        assert(s.map_values(f).contains(k));
        let i = choose|i: int| 0 <= i < s.map_values(f).len() && s.map_values(f)[i] == k;
        assert(s[i].key() == k);
        assert(has_key(s, k));
        assert(has_key(d, k));
        let j = choose|j: int| 0 <= j < d.len() && d[j].key() == k;
        assert(d.map_values(f)[j] == k);
        assert(d.map_values(f).contains(k));
    }
    assert(key_set(d) =~= key_set(s));
    // The set of keys cannot outnumber the keys drawn from the input, so the
    // output cannot be longer than the input.
    s.map_values(f).lemma_cardinality_of_set();
    assert(d.len() == key_set(s).len());
    assert(key_set(s).len() <= s.map_values(f).len());
}

/// An empty input deduplicates to an empty output.
pub proof fn lemma_dedup_empty()
    ensures
        dedup_spec(Seq::<CaseInsensitiveString>::empty()) == Seq::<CaseInsensitiveString>::empty(),
{
}

/// A single-element input is returned unchanged.
pub proof fn lemma_dedup_singleton(s: Seq<CaseInsensitiveString>)
    requires
        s.len() == 1,
    ensures
        dedup_spec(s) == s,
{
    assert(s.drop_last().len() == 0);
    assert(!has_key(s.drop_last(), s.last().key()));
    assert(dedup_spec(s.drop_last()) =~= Seq::<CaseInsensitiveString>::empty());
    assert(dedup_spec(s) =~= s);
}

/// Whether `keys` holds a string whose characters are exactly those of `k`.
fn contains_string(keys: &Vec<String>, k: &String) -> (r: bool)
    ensures
        r == (exists|j: int| 0 <= j < keys@.len() && keys@[j]@ == k@),
{
    let mut j: usize = 0;
    while j < keys.len()
        invariant
            j <= keys@.len(),
            forall|t: int| 0 <= t < j ==> keys@[t]@ != k@,
        decreases keys@.len() - j,
    {
        if keys[j] == *k {
            return true;
        }
        j += 1;
    }
    false
}

/// Removes duplicates from a vector in a case-insensitive manner: the result
/// holds exactly one representative per distinct folded key of the input, and
/// for each key it is the first-seen element, in input order.
pub fn deduplicate_case_insensitive(vec: Vec<CaseInsensitiveString>) -> (r: Vec<
    CaseInsensitiveString,
>)
    ensures
        r@ == dedup_spec(vec@),
{
    let ghost s = vec@;
    let mut input = vec;
    let mut out: Vec<CaseInsensitiveString> = Vec::new();
    let mut keys: Vec<String> = Vec::new();
    while input.len() > 0
        invariant
            input@.len() <= s.len(),
            input@ == s.skip(s.len() - input@.len()),
            out@ == dedup_spec(s.take(s.len() - input@.len())),
            keys@.len() == out@.len(),
            forall|t: int| 0 <= t < out@.len() ==> keys@[t]@ == out@[t].key(),
        decreases input@.len(),
    {
        let ghost i = s.len() - input@.len();
        let x = input.remove(0);
        proof {
            assert(x == s[i]);
            assert(input@ =~= s.skip(i + 1));
        }
        let folded = to_folded(x.inner.as_str());
        let found = contains_string(&keys, &folded);
        proof {
            lemma_dedup_preserves_keys(s.take(i));
            if found {
                let j = choose|j: int| 0 <= j < keys@.len() && keys@[j]@ == folded@;
                assert(out@[j].key() == x.key());
                assert(has_key(out@, x.key()));
            } else {
                assert forall|j: int| 0 <= j < out@.len() implies out@[j].key() != x.key() by {
                    assert(keys@[j]@ == out@[j].key());
                }
                assert(!has_key(out@, x.key()));
            }
            assert(s.take(i + 1).drop_last() =~= s.take(i));
            assert(s.take(i + 1).last() == s[i]);
        }
        if !found {
            out.push(x);
            keys.push(folded);
        }
    }
    proof {
        assert(s.take(s.len() as int) =~= s);
    }
    out
}

} // verus!

