//! Lexicographic order on keys, compared character by character.
//!
//! Comparing by Unicode scalar value gives the same order as comparing the
//! UTF-8 encodings byte by byte, which is how `str` itself is ordered.

use std::cmp::Ordering;
use vstd::prelude::*;

verus! {

/// `a` comes strictly before `b`, looking only at positions from `i` on.
pub open spec fn key_lt_from(a: Seq<char>, b: Seq<char>, i: int) -> bool
    decreases a.len() - i,
{
    if i < 0 || i >= a.len() {
        0 <= i < b.len()
    } else if i >= b.len() {
        false
    } else if a[i] != b[i] {
        (a[i] as int) < (b[i] as int)
    } else {
        key_lt_from(a, b, i + 1)
    }
}

/// Strict lexicographic order: a proper prefix comes first, otherwise the
/// first differing character decides.
pub open spec fn key_lt(a: Seq<char>, b: Seq<char>) -> bool {
    key_lt_from(a, b, 0)
}

proof fn lemma_key_lt_from_irreflexive(a: Seq<char>, i: int)
    requires
        0 <= i,
    ensures
        !key_lt_from(a, a, i),
    decreases a.len() - i,
{
    if i < a.len() {
        lemma_key_lt_from_irreflexive(a, i + 1);
    }
}

proof fn lemma_key_lt_from_total(a: Seq<char>, b: Seq<char>, i: int)
    requires
        0 <= i <= a.len(),
        i <= b.len(),
        a.subrange(0, i) == b.subrange(0, i),
        !key_lt_from(a, b, i),
        !key_lt_from(b, a, i),
    ensures
        a == b,
    decreases a.len() - i,
{
    if i < a.len() && i < b.len() {
        if a[i] == b[i] {
            assert(a.subrange(0, i + 1) =~= a.subrange(0, i).push(a[i]));
            assert(b.subrange(0, i + 1) =~= b.subrange(0, i).push(b[i]));
            lemma_key_lt_from_total(a, b, i + 1);
        } else {
            assert((a[i] as int) != (b[i] as int));
        }
    } else {
        assert(a =~= a.subrange(0, i));
        assert(b =~= b.subrange(0, i));
    }
}

proof fn lemma_key_lt_from_asymmetric(a: Seq<char>, b: Seq<char>, i: int)
    requires
        0 <= i,
        key_lt_from(a, b, i),
    ensures
        !key_lt_from(b, a, i),
    decreases a.len() - i,
{
    if i < a.len() && i < b.len() && a[i] == b[i] {
        lemma_key_lt_from_asymmetric(a, b, i + 1);
    }
}

/// No key comes before itself.
pub proof fn lemma_key_lt_irreflexive(a: Seq<char>)
    ensures
        !key_lt(a, a),
{
    lemma_key_lt_from_irreflexive(a, 0);
}

/// Of two keys, at most one comes before the other.
pub proof fn lemma_key_lt_asymmetric(a: Seq<char>, b: Seq<char>)
    ensures
        !(key_lt(a, b) && key_lt(b, a)),
{
    if key_lt(a, b) {
        lemma_key_lt_from_asymmetric(a, b, 0);
    }
}

/// Of two different keys, one comes before the other.
pub proof fn lemma_key_lt_total(a: Seq<char>, b: Seq<char>)
    ensures
        a == b || key_lt(a, b) || key_lt(b, a),
{
    if !key_lt(a, b) && !key_lt(b, a) {
        assert(a.subrange(0, 0) =~= b.subrange(0, 0));
        lemma_key_lt_from_total(a, b, 0);
    }
}

/// Compares two keys in the order of `key_lt`.
pub fn compare_keys(a: &str, b: &str) -> (r: Ordering)
    ensures
        (r == Ordering::Less) == key_lt(a@, b@),
        (r == Ordering::Greater) == key_lt(b@, a@),
        (r == Ordering::Equal) == (a@ == b@),
{
    let la = a.unicode_len();
    let lb = b.unicode_len();
    let mut i: usize = 0;
    while i < la && i < lb
        invariant
            la == a@.len(),
            lb == b@.len(),
            i <= la,
            i <= lb,
            a@.subrange(0, i as int) == b@.subrange(0, i as int),
            key_lt(a@, b@) == key_lt_from(a@, b@, i as int),
            key_lt(b@, a@) == key_lt_from(b@, a@, i as int),
        decreases la - i,
    {
        let x = a.get_char(i);
        let y = b.get_char(i);
        if x != y {
            proof {
                lemma_key_lt_asymmetric(a@, b@);
                lemma_key_lt_total(a@, b@);
            }
            if (x as u32) < (y as u32) {
                return Ordering::Less;
            } else {
                return Ordering::Greater;
            }
        }
        assert(a@.subrange(0, i + 1) =~= a@.subrange(0, i as int).push(x));
        assert(b@.subrange(0, i + 1) =~= b@.subrange(0, i as int).push(y));
        i = i + 1;
    }
    proof {
        lemma_key_lt_asymmetric(a@, b@);
        lemma_key_lt_total(a@, b@);
        lemma_key_lt_irreflexive(a@);
    }
    if la < lb {
        Ordering::Less
    } else if lb < la {
        Ordering::Greater
    } else {
        assert(a@ =~= a@.subrange(0, i as int));
        assert(b@ =~= b@.subrange(0, i as int));
        Ordering::Equal
    }
}

} // verus!
