//! A count per key, with a listing ordered by descending count and then by
//! ascending key.

use std::cmp::Ordering;
use itertools::Itertools;
use vstd::prelude::*;
use crate::order::{compare_keys, key_lt, lemma_key_lt_asymmetric, lemma_key_lt_irreflexive, lemma_key_lt_total};

verus! {

broadcast use vstd::seq_lib::group_to_multiset_ensures;

/// A key with its count.
pub type Tally = (Seq<char>, nat);

/// The sum of all counts.
pub open spec fn sum_counts(s: Seq<Tally>) -> nat
    decreases s.len(),
{
    if s.len() == 0 {
        0
    } else {
        s[0].1 + sum_counts(s.drop_first())
    }
}

/// Some entry of `s` has key `k`.
pub open spec fn has_key(s: Seq<Tally>, k: Seq<char>) -> bool {
    exists|i: int| 0 <= i < s.len() && s[i].0 == k
}

/// No two entries share a key.
pub open spec fn keys_unique(s: Seq<Tally>) -> bool {
    forall|i: int, j: int| 0 <= i < s.len() && 0 <= j < s.len() && i != j ==> s[i].0 != s[j].0
}

/// The count of `k`: that of the first entry with that key, 0 where none has it.
pub open spec fn count_of(s: Seq<Tally>, k: Seq<char>) -> nat
    decreases s.len(),
{
    if s.len() == 0 {
        0
    } else if s[0].0 == k {
        s[0].1
    } else {
        count_of(s.drop_first(), k)
    }
}

/// `s` after one more occurrence of `k`: its entry goes up by one, or a new
/// entry with count 1 comes at the end.
pub open spec fn bump(s: Seq<Tally>, k: Seq<char>) -> Seq<Tally>
    decreases s.len(),
{
    if s.len() == 0 {
        seq![(k, 1nat)]
    } else if s[0].0 == k {
        s.update(0, (k, (s[0].1 + 1) as nat))
    } else {
        seq![s[0]] + bump(s.drop_first(), k)
    }
}

/// Bumping a key adds exactly one to the sum of the counts.
pub proof fn lemma_bump_sum(s: Seq<Tally>, k: Seq<char>)
    ensures
        sum_counts(bump(s, k)) == sum_counts(s) + 1,
    decreases s.len(),
{
    if s.len() > 0 {
        let b = bump(s, k);
        if s[0].0 == k {
            assert(b.drop_first() =~= s.drop_first());
            lemma_sum_first(b);
            lemma_sum_first(s);
        } else {
            lemma_bump_sum(s.drop_first(), k);
            assert(b.drop_first() =~= bump(s.drop_first(), k));
            lemma_sum_first(b);
            lemma_sum_first(s);
        }
    } else {
        assert(bump(s, k).drop_first() =~= s);
        lemma_sum_first(bump(s, k));
    }
}

/// Bumping a key raises its count by one and leaves every other count alone.
pub proof fn lemma_bump_count(s: Seq<Tally>, k: Seq<char>, q: Seq<char>)
    ensures
        count_of(bump(s, k), q) == if q == k { count_of(s, q) + 1 } else { count_of(s, q) },
        has_key(bump(s, k), q) == (has_key(s, q) || q == k),
    decreases s.len(),
{
    if s.len() > 0 {
        if s[0].0 == k {
            assert(bump(s, k).drop_first() =~= s.drop_first());
            lemma_count_first(bump(s, k), q);
            lemma_count_first(s, q);
            lemma_has_key_first(bump(s, k), q);
            lemma_has_key_first(s, q);
        } else {
            lemma_bump_count(s.drop_first(), k, q);
            let b = bump(s, k);
            assert(b.drop_first() =~= bump(s.drop_first(), k));
            lemma_has_key_first(b, q);
            lemma_has_key_first(s, q);
        }
    } else {
        let b = bump(s, k);
        assert(b.drop_first() =~= s);
        lemma_has_key_first(b, q);
    }
}

proof fn lemma_bump_counts(s: Seq<Tally>, k: Seq<char>)
    ensures
        has_key(bump(s, k), k),
        count_of(bump(s, k), k) == count_of(s, k) + 1,
        forall|q: Seq<char>| q != k ==> #[trigger] count_of(bump(s, k), q) == count_of(s, q),
{
    lemma_bump_count(s, k, k);
    assert forall|q: Seq<char>| q != k implies #[trigger] count_of(bump(s, k), q) == count_of(s, q) by {
        lemma_bump_count(s, k, q);
    }
}

proof fn lemma_count_first(s: Seq<Tally>, q: Seq<char>)
    requires
        s.len() > 0,
    ensures
        count_of(s, q) == if s[0].0 == q { s[0].1 } else { count_of(s.drop_first(), q) },
{
}

proof fn lemma_has_key_first(s: Seq<Tally>, q: Seq<char>)
    requires
        s.len() > 0,
    ensures
        has_key(s, q) == (s[0].0 == q || has_key(s.drop_first(), q)),
{
    if has_key(s, q) && s[0].0 != q {
        let i = choose|i: int| 0 <= i < s.len() && s[i].0 == q;
        assert(s.drop_first()[i - 1].0 == q);
    }
    if has_key(s.drop_first(), q) {
        let i = choose|i: int| 0 <= i < s.len() - 1 && s.drop_first()[i].0 == q;
        assert(s[i + 1].0 == q);
    }
}

/// Where entry `i` has key `k` and none before it does, bumping `k` raises
/// that entry in place.
proof fn lemma_bump_at(s: Seq<Tally>, k: Seq<char>, i: int)
    requires
        0 <= i < s.len(),
        s[i].0 == k,
        forall|j: int| 0 <= j < i ==> s[j].0 != k,
    ensures
        bump(s, k) == s.update(i, (k, (s[i].1 + 1) as nat)),
    decreases s.len(),
{
    if i > 0 {
        lemma_bump_at(s.drop_first(), k, i - 1);
        assert(bump(s, k) =~= s.update(i, (k, (s[i].1 + 1) as nat)));
    }
}

/// Where no entry has key `k`, bumping `k` appends it with count 1.
proof fn lemma_bump_absent(s: Seq<Tally>, k: Seq<char>)
    requires
        forall|j: int| 0 <= j < s.len() ==> s[j].0 != k,
    ensures
        bump(s, k) == s.push((k, 1nat)),
    decreases s.len(),
{
    if s.len() > 0 {
        lemma_bump_absent(s.drop_first(), k);
        assert(bump(s, k) =~= s.push((k, 1nat)));
    }
}

proof fn lemma_count_at(s: Seq<Tally>, k: Seq<char>, i: int)
    requires
        0 <= i < s.len(),
        s[i].0 == k,
        forall|j: int| 0 <= j < i ==> s[j].0 != k,
    ensures
        count_of(s, k) == s[i].1,
    decreases s.len(),
{
    if i > 0 {
        lemma_count_at(s.drop_first(), k, i - 1);
    }
}

/// In the listing, entry `a` comes before entry `b`: the higher count first,
/// and of equal counts the smaller key.
pub open spec fn listed_before(a: Tally, b: Tally) -> bool {
    a.1 > b.1 || (a.1 == b.1 && key_lt(a.0, b.0))
}

/// How two stored entries compare in the listing.
pub open spec fn listing_cmp(a: (String, u64), b: (String, u64)) -> Ordering {
    if listed_before(tally_of(a), tally_of(b)) {
        Ordering::Less
    } else if listed_before(tally_of(b), tally_of(a)) {
        Ordering::Greater
    } else {
        Ordering::Equal
    }
}

/// `l` holds exactly the given entries, in listing order.
pub open spec fn lists(entries: Set<Tally>, l: Seq<Tally>) -> bool {
    &&& forall|x: Tally| entries.contains(x) <==> l.contains(x)
    &&& forall|i: int, j: int| 0 <= i < j < l.len() ==> listed_before(l[i], l[j])
}

/// `l` holds exactly the entries of `s`, in listing order.
pub open spec fn is_listing(s: Seq<Tally>, l: Seq<Tally>) -> bool {
    lists(s.to_set(), l)
}

/// The entries of `s` by descending count, then ascending key. There is
/// only one such sequence: see `lemma_listing_unique`.
pub open spec fn listing(s: Seq<Tally>) -> Seq<Tally> {
    choose|l: Seq<Tally>| lists(s.to_set(), l)
}

proof fn lemma_listed_before_strict(a: Tally, b: Tally)
    ensures
        !listed_before(a, a),
        !(listed_before(a, b) && listed_before(b, a)),
        a.0 != b.0 ==> listed_before(a, b) || listed_before(b, a),
{
    lemma_key_lt_irreflexive(a.0);
    lemma_key_lt_asymmetric(a.0, b.0);
    lemma_key_lt_total(a.0, b.0);
}

/// Strictly ordered sequences with the same items are equal.
proof fn lemma_sorted_unique(l1: Seq<Tally>, l2: Seq<Tally>)
    requires
        forall|x: Tally| l1.contains(x) <==> l2.contains(x),
        forall|i: int, j: int| 0 <= i < j < l1.len() ==> listed_before(l1[i], l1[j]),
        forall|i: int, j: int| 0 <= i < j < l2.len() ==> listed_before(l2[i], l2[j]),
    ensures
        l1 == l2,
    decreases l1.len(),
{
    if l1.len() == 0 {
        if l2.len() > 0 {
            assert(l2.contains(l2[0]));
        }
        assert(l1 =~= l2);
    } else {
        assert(l1.contains(l1[0]));
        assert(l2.len() > 0);
        assert(l2.contains(l2[0]));
        let j = choose|j: int| 0 <= j < l2.len() && l2[j] == l1[0];
        let i = choose|i: int| 0 <= i < l1.len() && l1[i] == l2[0];
        lemma_listed_before_strict(l1[0], l2[0]);
        lemma_listed_before_strict(l2[0], l1[0]);
        assert(l1[0] == l2[0]) by {
            if j > 0 {
                assert(listed_before(l2[0], l2[j]));
                if i > 0 {
                    assert(listed_before(l1[0], l1[i]));
                }
            }
        }
        let t1 = l1.drop_first();
        let t2 = l2.drop_first();
        assert forall|x: Tally| t1.contains(x) <==> t2.contains(x) by {
            lemma_listed_before_strict(x, x);
            if t1.contains(x) {
                let k = choose|k: int| 0 <= k < t1.len() && t1[k] == x;
                assert(listed_before(l1[0], l1[k + 1]));
                assert(l1.contains(x));
                let m = choose|m: int| 0 <= m < l2.len() && l2[m] == x;
                assert(t2[m - 1] == x);
            }
            if t2.contains(x) {
                let k = choose|k: int| 0 <= k < t2.len() && t2[k] == x;
                assert(listed_before(l2[0], l2[k + 1]));
                assert(l2.contains(x));
                let m = choose|m: int| 0 <= m < l1.len() && l1[m] == x;
                assert(t1[m - 1] == x);
            }
        }
        lemma_sorted_unique(t1, t2);
        assert(l1.len() == l2.len());
        assert forall|k: int| 0 <= k < l1.len() implies l1[k] == l2[k] by {
            if k > 0 {
                assert(l1[k] == t1[k - 1]);
                assert(l2[k] == t2[k - 1]);
            }
        }
        assert(l1 =~= l2);
    }
}

/// Two sequences that both list the entries of `s` are the same sequence, so
/// the listing of a count map does not depend on how it was computed.
pub proof fn lemma_listing_unique(s: Seq<Tally>, l1: Seq<Tally>, l2: Seq<Tally>)
    requires
        is_listing(s, l1),
        is_listing(s, l2),
    ensures
        l1 == l2,
{
    lemma_sorted_unique(l1, l2);
}

/// The listing depends only on which entries there are, not on the order in
/// which their keys were first met.
pub proof fn lemma_listing_ignores_order(s1: Seq<Tally>, s2: Seq<Tally>)
    requires
        forall|x: Tally| s1.contains(x) <==> s2.contains(x),
    ensures
        listing(s1) == listing(s2),
{
    assert(s1.to_set() =~= s2.to_set());
}

/// The sum of the counts depends only on which entries there are.
pub proof fn lemma_sum_ignores_order(s1: Seq<Tally>, s2: Seq<Tally>)
    requires
        s1.no_duplicates(),
        s2.no_duplicates(),
        forall|x: Tally| s1.contains(x) <==> s2.contains(x),
    ensures
        sum_counts(s1) == sum_counts(s2),
    decreases s1.len(),
{
    if s1.len() == 0 {
        if s2.len() > 0 {
            assert(s2.contains(s2[0]));
        }
    } else {
        let x = s1[0];
        assert(s1.contains(x));
        let j = choose|j: int| 0 <= j < s2.len() && s2[j] == x;
        let t1 = s1.drop_first();
        let t2 = s2.remove(j);
        assert forall|y: Tally| t1.contains(y) <==> t2.contains(y) by {
            if t1.contains(y) {
                let k = choose|k: int| 0 <= k < t1.len() && t1[k] == y;
                assert(s1[k + 1] == y);
                assert(s1.contains(y));
                let m = choose|m: int| 0 <= m < s2.len() && s2[m] == y;
                assert(m != j);
                if m < j {
                    assert(t2[m] == y);
                } else {
                    assert(t2[m - 1] == y);
                }
            }
            if t2.contains(y) {
                let k = choose|k: int| 0 <= k < t2.len() && t2[k] == y;
                let m = if k < j { k } else { k + 1 };
                assert(s2[m] == y);
                assert(m != j);
                assert(s2.contains(y));
                let n = choose|n: int| 0 <= n < s1.len() && s1[n] == y;
                assert(n != 0);
                assert(t1[n - 1] == y);
            }
        }
        lemma_sum_ignores_order(t1, t2);
        lemma_sum_first(s1);
        lemma_sum_split(s2, j);
        lemma_sum_concat(s2.subrange(0, j), s2.subrange(j + 1, s2.len() as int));
        assert(t2 =~= s2.subrange(0, j) + s2.subrange(j + 1, s2.len() as int));
    }
}

proof fn lemma_sum_concat(a: Seq<Tally>, b: Seq<Tally>)
    ensures
        sum_counts(a + b) == sum_counts(a) + sum_counts(b),
{
    lemma_sum_split(a + b, a.len() as int);
    assert((a + b).subrange(0, a.len() as int) =~= a);
    assert((a + b).subrange(a.len() as int, (a + b).len() as int) =~= b);
}

/// In a listing the counts never rise, and entries with equal counts come
/// in ascending key order.
pub proof fn lemma_listing_ties_by_key(s: Seq<Tally>, l: Seq<Tally>)
    requires
        is_listing(s, l),
    ensures
        forall|i: int, j: int| 0 <= i < j < l.len() ==> l[i].1 >= l[j].1,
        forall|i: int, j: int| 0 <= i < j < l.len() && l[i].1 == l[j].1 ==> key_lt(l[i].0, l[j].0),
{
    assert forall|i: int, j: int| 0 <= i < j < l.len() implies l[i].1 >= l[j].1 by {
        assert(listed_before(l[i], l[j]));
    }
    assert forall|i: int, j: int| 0 <= i < j < l.len() && l[i].1 == l[j].1 implies key_lt(
        l[i].0,
        l[j].0,
    ) by {
        assert(listed_before(l[i], l[j]));
    }
}

/// Compares two stored entries in listing order.
pub fn entry_order(a: &(String, u64), b: &(String, u64)) -> (r: Ordering)
    ensures
        r == listing_cmp(*a, *b),
{
    if a.1 > b.1 {
        Ordering::Less
    } else if a.1 < b.1 {
        Ordering::Greater
    } else {
        proof {
            lemma_key_lt_asymmetric(a.0@, b.0@);
        }
        compare_keys(a.0.as_str(), b.0.as_str())
    }
}

/// Relies on `Itertools::sorted_by`, which sorts with `slice::sort_by`: the
/// result holds the same items, ordered so that the comparison never finds
/// a later item smaller than an earlier one.
#[verifier::external_body]
fn sort_entries(v: Vec<(String, u64)>) -> (r: Vec<(String, u64)>)
    ensures
        r@.to_multiset() == v@.to_multiset(),
        forall|i: int, j: int| 0 <= i < j < r@.len() ==> listing_cmp(r@[i], r@[j]) != Ordering::Greater,
{
    v.into_iter().sorted_by(|a, b| entry_order(a, b)).collect()
}

/// Counting occurrences of keys.
pub struct CountMap {
    entries: Vec<(String, u64)>,
}

/// The model of one stored entry.
pub open spec fn tally_of(e: (String, u64)) -> Tally {
    (e.0@, e.1 as nat)
}

impl View for CountMap {
    type V = Seq<Tally>;

    /// The entries in the order in which their keys first came.
    closed spec fn view(&self) -> Seq<Tally> {
        self.entries@.map_values(|e: (String, u64)| tally_of(e))
    }
}

impl CountMap {
    #[verifier::type_invariant]
    spec fn inv(self) -> bool {
        &&& keys_unique(self@)
        &&& sum_counts(self@) <= u64::MAX
    }

    /// An empty map.
    pub fn new() -> (r: Self)
        ensures
            r@ == Seq::<Tally>::empty(),
    {
        let r = CountMap { entries: Vec::new() };
        assert(r@ =~= Seq::<Tally>::empty());
        r
    }

    /// How many different keys were counted.
    pub fn len(&self) -> (r: usize)
        ensures
            r == self@.len(),
    {
        self.entries.len()
    }

    /// The count of `key`, if it was counted at all.
    pub fn get(&self, key: &str) -> (r: Option<u64>)
        ensures
            r is Some == has_key(self@, key@),
            r is Some ==> r.unwrap() == count_of(self@, key@),
    {
        let wanted = key.to_owned();
        let mut i: usize = 0;
        while i < self.entries.len()
            invariant
                wanted@ == key@,
                i <= self.entries@.len(),
                self@.len() == self.entries@.len(),
                forall|j: int| 0 <= j < i ==> self@[j].0 != key@,
            decreases self.entries@.len() - i,
        {
            if self.entries[i].0 == wanted {
                proof { lemma_count_at(self@, key@, i as int); }
                return Some(self.entries[i].1);
            }
            i = i + 1;
        }
        None
    }

    /// The sum of all counts.
    pub fn total(&self) -> (r: u64)
        ensures
            r == sum_counts(self@),
    {
        proof { use_type_invariant(self); }
        let n = self.entries.len();
        let mut t: u64 = 0;
        let mut i: usize = n;
        assert(self@.subrange(0, n as int) =~= self@);
        assert(self@.subrange(n as int, n as int) =~= Seq::<Tally>::empty());
        while i > 0
            invariant
                i <= n,
                n == self@.len(),
                self@.len() == self.entries@.len(),
                sum_counts(self@) <= u64::MAX,
                t as nat == sum_counts(self@.subrange(i as int, n as int)),
                sum_counts(self@) == sum_counts(self@.subrange(0, i as int)) + t,
            decreases i,
        {
            proof { lemma_sum_split(self@, i - 1); }
            t = t + self.entries[i - 1].1;
            i = i - 1;
        }
        t
    }

    /// The entries by descending count, then ascending key.
    pub fn sorted(&self) -> (r: Vec<(String, u64)>)
        ensures
            r@.map_values(|e: (String, u64)| tally_of(e)) == listing(self@),
            is_listing(self@, r@.map_values(|e: (String, u64)| tally_of(e))),
    {
        proof { use_type_invariant(self); }
        let mut v: Vec<(String, u64)> = Vec::new();
        let mut i: usize = 0;
        while i < self.entries.len()
            invariant
                i <= self.entries@.len(),
                v@ == self.entries@.subrange(0, i as int),
            decreases self.entries@.len() - i,
        {
            let e = &self.entries[i];
            v.push((e.0.clone(), e.1));
            assert(v@ =~= self.entries@.subrange(0, i + 1));
            i = i + 1;
        }
        assert(v@ =~= self.entries@);
        let ghost s = self@;
        assert(v@.no_duplicates()) by {
            assert forall|a: int, b: int| 0 <= a < v@.len() && 0 <= b < v@.len() && a != b implies v@[a] != v@[b] by {
                assert(s[a].0 != s[b].0);
            }
        }
        let r = sort_entries(v);
        proof {
            v@.lemma_multiset_has_no_duplicates();
            r@.lemma_multiset_has_no_duplicates_conv();
            let l = r@.map_values(|e: (String, u64)| tally_of(e));
            assert forall|x: Tally| s.contains(x) <==> l.contains(x) by {
                if s.contains(x) {
                    let a = choose|a: int| 0 <= a < s.len() && s[a] == x;
                    assert(v@.contains(v@[a]));
                    assert(v@.to_multiset().count(v@[a]) > 0);
                    assert(r@.to_multiset().count(v@[a]) > 0);
                    assert(r@.contains(v@[a]));
                    let b = choose|b: int| 0 <= b < r@.len() && r@[b] == v@[a];
                    assert(l[b] == x);
                }
                if l.contains(x) {
                    let b = choose|b: int| 0 <= b < l.len() && l[b] == x;
                    assert(r@.contains(r@[b]));
                    assert(r@.to_multiset().count(r@[b]) > 0);
                    assert(v@.to_multiset().count(r@[b]) > 0);
                    assert(v@.contains(r@[b]));
                    let a = choose|a: int| 0 <= a < v@.len() && v@[a] == r@[b];
                    assert(s[a] == x);
                }
            }
            assert forall|i: int, j: int| 0 <= i < j < l.len() implies listed_before(l[i], l[j]) by {
                assert(r@.contains(r@[i]));
                assert(r@.contains(r@[j]));
                assert(r@.to_multiset().count(r@[i]) > 0);
                assert(r@.to_multiset().count(r@[j]) > 0);
                assert(v@.to_multiset().count(r@[i]) > 0);
                assert(v@.to_multiset().count(r@[j]) > 0);
                assert(v@.contains(r@[i]));
                assert(v@.contains(r@[j]));
                let a = choose|a: int| 0 <= a < v@.len() && v@[a] == r@[i];
                let b = choose|b: int| 0 <= b < v@.len() && v@[b] == r@[j];
                assert(r@[i] != r@[j]);
                assert(a != b);
                assert(s[a].0 != s[b].0);
                assert(l[i] == s[a]);
                assert(l[j] == s[b]);
                lemma_listed_before_strict(l[i], l[j]);
                assert(listing_cmp(r@[i], r@[j]) != Ordering::Greater);
            }
            assert(is_listing(s, l));
            lemma_listing_unique(s, l, listing(s));
        }
        r
    }

    /// Counts one more occurrence of `key`.
    pub fn increment(&mut self, key: String)
        requires
            sum_counts(old(self)@) < u64::MAX,
        ensures
            final(self)@ == bump(old(self)@, key@),
            has_key(final(self)@, key@),
            count_of(final(self)@, key@) == count_of(old(self)@, key@) + 1,
            forall|q: Seq<char>|
                q != key@ ==> #[trigger] count_of(final(self)@, q) == count_of(old(self)@, q),
    {
        proof { use_type_invariant(&*self); }
        let mut i: usize = 0;
        while i < self.entries.len()
            invariant
                self@ == old(self)@,
                keys_unique(self@),
                sum_counts(self@) < u64::MAX,
                i <= self.entries@.len(),
                self@.len() == self.entries@.len(),
                forall|j: int| 0 <= j < i ==> self@[j].0 != key@,
            decreases self.entries@.len() - i,
        {
            if self.entries[i].0 == key {
                let ghost before = self@;
                let c = self.entries[i].1;
                proof {
                    lemma_bump_at(before, key@, i as int);
                    lemma_bump_sum(before, key@);
                    lemma_sum_split(before, i as int);
                    assert(before[i as int].1 == c);
                }
                let mut entries: Vec<(String, u64)> = Vec::new();
                std::mem::swap(&mut self.entries, &mut entries);
                entries.set(i, (key, c + 1));
                let ghost after = entries@.map_values(|e: (String, u64)| tally_of(e));
                assert(after =~= bump(before, key@));
                assert(forall|j: int| 0 <= j < after.len() ==> after[j].0 == before[j].0);
                std::mem::swap(&mut self.entries, &mut entries);
                proof { lemma_bump_counts(before, key@); }
                return;
            }
            i = i + 1;
        }
        let ghost before = self@;
        proof {
            lemma_bump_absent(before, key@);
            lemma_bump_sum(before, key@);
        }
        let mut entries: Vec<(String, u64)> = Vec::new();
        std::mem::swap(&mut self.entries, &mut entries);
        entries.push((key, 1));
        proof { lemma_bump_counts(before, key@); }
        let ghost after = entries@.map_values(|e: (String, u64)| tally_of(e));
        assert(after =~= bump(before, key@));
        assert(forall|j: int| 0 <= j < before.len() ==> after[j].0 == before[j].0);
        std::mem::swap(&mut self.entries, &mut entries);
    }
}

proof fn lemma_sum_first(s: Seq<Tally>)
    requires
        s.len() > 0,
    ensures
        sum_counts(s) == s[0].1 + sum_counts(s.drop_first()),
{
}

/// The sum over `s` is the sum up to `i` plus that from `i` on.
proof fn lemma_sum_split(s: Seq<Tally>, i: int)
    requires
        0 <= i <= s.len(),
    ensures
        sum_counts(s) == sum_counts(s.subrange(0, i)) + sum_counts(s.subrange(i, s.len() as int)),
        i < s.len() ==> sum_counts(s.subrange(i, s.len() as int)) == s[i].1 + sum_counts(s.subrange(i + 1, s.len() as int)),
    decreases i,
{
    if i < s.len() {
        assert(s.subrange(i, s.len() as int).drop_first() =~= s.subrange(i + 1, s.len() as int));
    }
    if i > 0 {
        lemma_sum_split(s.drop_first(), i - 1);
        assert(s.drop_first().subrange(0, i - 1) =~= s.subrange(0, i).drop_first());
        assert(s.drop_first().subrange(i - 1, s.len() - 1) =~= s.subrange(i, s.len() as int));
    } else {
        assert(s.subrange(0, s.len() as int) =~= s);
    }
}

} // verus!
