//! A map from accounts to non-zero amounts; an account that is absent holds zero.
//! It backs the balance store and each owner's row of the allowance matrix.

use vstd::prelude::*;
use crate::account::Account;

verus! {

/// What a sequence of (account, amount) entries says, with accounts as bytes.
pub open spec fn pairs_of(v: Seq<(Account, u64)>) -> Seq<(Seq<u8>, nat)> {
    v.map_values(|e: (Account, u64)| (e.0@, e.1 as nat))
}

/// No account occurs twice.
pub open spec fn keys_unique<V>(s: Seq<(Seq<u8>, V)>) -> bool {
    forall|i: int, j: int| 0 <= i < j < s.len() ==> s[i].0 != s[j].0
}

/// Every amount is non-zero.
pub open spec fn all_positive(s: Seq<(Seq<u8>, nat)>) -> bool {
    forall|i: int| 0 <= i < s.len() ==> s[i].1 > 0
}

/// Entries that a map can be built from: unique accounts, non-zero amounts.
pub open spec fn valid_pairs(s: Seq<(Seq<u8>, nat)>) -> bool {
    keys_unique(s) && all_positive(s)
}

/// The map that a sequence of entries with unique accounts describes.
pub open spec fn map_of<V>(s: Seq<(Seq<u8>, V)>) -> Map<Seq<u8>, V> {
    Map::new(
        |k: Seq<u8>| exists|i: int| 0 <= i < s.len() && s[i].0 == k,
        |k: Seq<u8>| s[choose|i: int| 0 <= i < s.len() && s[i].0 == k].1,
    )
}

/// The sum of the amounts of a sequence of entries.
pub open spec fn sum_of(s: Seq<(Seq<u8>, nat)>) -> int
    decreases s.len(),
{
    if s.len() == 0 {
        0
    } else {
        sum_of(s.drop_last()) + s.last().1
    }
}

/// The amount held by `k`: zero when absent.
pub open spec fn amount_of(m: Map<Seq<u8>, nat>, k: Seq<u8>) -> nat {
    if m.contains_key(k) {
        m[k]
    } else {
        0
    }
}

/// `m` after storing `v` at `k`: zero removes the entry.
pub open spec fn stored(m: Map<Seq<u8>, nat>, k: Seq<u8>, v: nat) -> Map<Seq<u8>, nat> {
    if v == 0 {
        m.remove(k)
    } else {
        m.insert(k, v)
    }
}

/// A listing with distinct accounts has as many entries as its map has keys.
pub proof fn lemma_map_of_len<V>(s: Seq<(Seq<u8>, V)>)
    requires
        keys_unique(s),
    ensures
        map_of(s).dom().finite(),
        map_of(s).dom().len() == s.len(),
    decreases s.len(),
{
    if s.len() == 0 {
        assert(map_of(s) =~= Map::<Seq<u8>, V>::empty());
    } else {
        let t = s.drop_last();
        let x = s.last();
        assert(keys_unique(t));
        assert forall|i: int| 0 <= i < t.len() implies t[i].0 != x.0 by {
            assert(s[i] == t[i]);
        }
        lemma_map_of_len(t);
        lemma_map_of_push(t, x.0, x.1);
        assert(t.push((x.0, x.1)) =~= s);
        lemma_map_of_absent(t, x.0);
    }
}

/// Some listing of the entries of a map, each account once.
pub open spec fn listing(m: Map<Seq<u8>, nat>) -> Seq<(Seq<u8>, nat)> {
    choose|s: Seq<(Seq<u8>, nat)>| keys_unique(s) && map_of(s) == m
}

/// The sum of the amounts of a map: the sum over any listing of its entries.
pub open spec fn total(m: Map<Seq<u8>, nat>) -> int {
    sum_of(listing(m))
}

/// Two listings of one map have the same sum.
proof fn lemma_sum_of_same_map(s1: Seq<(Seq<u8>, nat)>, s2: Seq<(Seq<u8>, nat)>)
    requires
        keys_unique(s1),
        keys_unique(s2),
        map_of(s1) == map_of(s2),
    ensures
        sum_of(s1) == sum_of(s2),
    decreases s1.len(),
{
    if s1.len() == 0 {
        if s2.len() > 0 {
            lemma_map_of_at(s2, 0);
            assert(map_of(s1).contains_key(s2[0].0));
        }
    } else {
        let i = s1.len() - 1;
        let k = s1[i].0;
        lemma_map_of_at(s1, i);
        let j = choose|j: int| 0 <= j < s2.len() && s2[j].0 == k;
        lemma_map_of_at(s2, j);
        lemma_map_of_remove(s1, i);
        lemma_map_of_remove(s2, j);
        assert(s1.remove(i) =~= s1.drop_last());
        lemma_sum_of_same_map(s1.drop_last(), s2.remove(j));
        lemma_sum_remove(s2, j);
    }
}

/// The sum over a listing of a map is the map's total.
pub proof fn lemma_total(s: Seq<(Seq<u8>, nat)>)
    requires
        keys_unique(s),
    ensures
        total(map_of(s)) == sum_of(s),
{
    let m = map_of(s);
    assert(exists|t: Seq<(Seq<u8>, nat)>| keys_unique(t) && map_of(t) == m) by {
        assert(keys_unique(s) && map_of(s) == m);
    }
    let t = listing(m);
    lemma_sum_of_same_map(t, s);
}

/// Accounts mapped to non-zero amounts, kept as a list of distinct entries.
pub struct AmountMap {
    entries: Vec<(Account, u64)>,
}

impl View for AmountMap {
    type V = Map<Seq<u8>, nat>;

    closed spec fn view(&self) -> Map<Seq<u8>, nat> {
        map_of(self.pairs())
    }
}

pub proof fn lemma_map_of_at<V>(s: Seq<(Seq<u8>, V)>, i: int)
    requires
        keys_unique(s),
        0 <= i < s.len(),
    ensures
        map_of(s).contains_key(s[i].0),
        map_of(s)[s[i].0] == s[i].1,
{
    let k = s[i].0;
    assert(exists|j: int| 0 <= j < s.len() && s[j].0 == k);
    let j = choose|j: int| 0 <= j < s.len() && s[j].0 == k;
    assert(j == i);
}

pub proof fn lemma_map_of_absent<V>(s: Seq<(Seq<u8>, V)>, k: Seq<u8>)
    requires
        forall|i: int| 0 <= i < s.len() ==> s[i].0 != k,
    ensures
        !map_of(s).contains_key(k),
{
}

pub proof fn lemma_map_of_update<V>(s: Seq<(Seq<u8>, V)>, i: int, v: V)
    requires
        keys_unique(s),
        0 <= i < s.len(),
    ensures
        keys_unique(s.update(i, (s[i].0, v))),
        map_of(s.update(i, (s[i].0, v))) =~= map_of(s).insert(s[i].0, v),
{
    let t = s.update(i, (s[i].0, v));
    assert forall|k: Seq<u8>| #[trigger] map_of(t).contains_key(k) == map_of(s).insert(s[i].0, v).contains_key(k) by {
        if map_of(s).contains_key(k) {
            let j = choose|j: int| 0 <= j < s.len() && s[j].0 == k;
            assert(t[j].0 == k);
        }
        if map_of(t).contains_key(k) {
            let j = choose|j: int| 0 <= j < t.len() && t[j].0 == k;
            assert(s[j].0 == k);
        }
    }
    assert forall|k: Seq<u8>| #[trigger] map_of(t).contains_key(k) implies map_of(t)[k] == map_of(s).insert(s[i].0, v)[k] by {
        let j = choose|j: int| 0 <= j < t.len() && t[j].0 == k;
        lemma_map_of_at(t, j);
        if j != i {
            lemma_map_of_at(s, j);
        }
    }
}

pub proof fn lemma_map_of_remove<V>(s: Seq<(Seq<u8>, V)>, i: int)
    requires
        keys_unique(s),
        0 <= i < s.len(),
    ensures
        keys_unique(s.remove(i)),
        map_of(s.remove(i)) =~= map_of(s).remove(s[i].0),
{
    let t = s.remove(i);
    assert forall|a: int, b: int| 0 <= a < b < t.len() implies t[a].0 != t[b].0 by {
        let a2 = if a < i { a } else { a + 1 };
        let b2 = if b < i { b } else { b + 1 };
        assert(t[a] == s[a2] && t[b] == s[b2]);
    }
    assert forall|k: Seq<u8>| #[trigger] map_of(t).contains_key(k) == map_of(s).remove(s[i].0).contains_key(k) by {
        if map_of(s).contains_key(k) && k != s[i].0 {
            let j = choose|j: int| 0 <= j < s.len() && s[j].0 == k;
            let j2 = if j < i { j } else { j - 1 };
            assert(t[j2].0 == k);
        }
        if map_of(t).contains_key(k) {
            let j = choose|j: int| 0 <= j < t.len() && t[j].0 == k;
            let j2 = if j < i { j } else { j + 1 };
            assert(s[j2].0 == k);
        }
    }
    assert forall|k: Seq<u8>| #[trigger] map_of(t).contains_key(k) implies map_of(t)[k] == map_of(s).remove(s[i].0)[k] by {
        let j = choose|j: int| 0 <= j < t.len() && t[j].0 == k;
        lemma_map_of_at(t, j);
        let j2 = if j < i { j } else { j + 1 };
        assert(s[j2] == t[j]);
        lemma_map_of_at(s, j2);
    }
}

pub proof fn lemma_map_of_push<V>(s: Seq<(Seq<u8>, V)>, k: Seq<u8>, v: V)
    requires
        keys_unique(s),
        forall|i: int| 0 <= i < s.len() ==> s[i].0 != k,
    ensures
        keys_unique(s.push((k, v))),
        map_of(s.push((k, v))) =~= map_of(s).insert(k, v),
{
    let t = s.push((k, v));
    assert forall|x: Seq<u8>| #[trigger] map_of(t).contains_key(x) == map_of(s).insert(k, v).contains_key(x) by {
        if map_of(s).contains_key(x) {
            let j = choose|j: int| 0 <= j < s.len() && s[j].0 == x;
            assert(t[j].0 == x);
        }
        if x == k {
            assert(t[s.len() as int].0 == x);
        }
        if map_of(t).contains_key(x) && x != k {
            let j = choose|j: int| 0 <= j < t.len() && t[j].0 == x;
            assert(s[j].0 == x);
        }
    }
    assert forall|x: Seq<u8>| #[trigger] map_of(t).contains_key(x) implies map_of(t)[x] == map_of(s).insert(k, v)[x] by {
        let j = choose|j: int| 0 <= j < t.len() && t[j].0 == x;
        lemma_map_of_at(t, j);
        if j < s.len() {
            lemma_map_of_at(s, j);
        }
    }
}

proof fn lemma_sum_update(s: Seq<(Seq<u8>, nat)>, i: int, x: (Seq<u8>, nat))
    requires
        0 <= i < s.len(),
    ensures
        sum_of(s.update(i, x)) == sum_of(s) - s[i].1 + x.1,
    decreases s.len(),
{
    let t = s.update(i, x);
    if i < s.len() - 1 {
        assert(t.drop_last() =~= s.drop_last().update(i, x));
        lemma_sum_update(s.drop_last(), i, x);
    } else {
        assert(t.drop_last() =~= s.drop_last());
    }
}

proof fn lemma_sum_remove(s: Seq<(Seq<u8>, nat)>, i: int)
    requires
        0 <= i < s.len(),
    ensures
        sum_of(s.remove(i)) == sum_of(s) - s[i].1,
    decreases s.len(),
{
    let t = s.remove(i);
    if i < s.len() - 1 {
        assert(t.drop_last() =~= s.drop_last().remove(i));
        lemma_sum_remove(s.drop_last(), i);
    } else {
        assert(t =~= s.drop_last());
    }
}

proof fn lemma_entry_le_sum(s: Seq<(Seq<u8>, nat)>, i: int)
    requires
        0 <= i < s.len(),
    ensures
        s[i].1 <= sum_of(s),
    decreases s.len(),
{
    lemma_sum_nonneg(s.drop_last());
    if i < s.len() - 1 {
        lemma_entry_le_sum(s.drop_last(), i);
    }
}

proof fn lemma_sum_nonneg(s: Seq<(Seq<u8>, nat)>)
    ensures
        sum_of(s) >= 0,
    decreases s.len(),
{
    if s.len() > 0 {
        lemma_sum_nonneg(s.drop_last());
    }
}

/// A copy of a list of entries.
pub fn copy_entries(v: &Vec<(Account, u64)>) -> (r: Vec<(Account, u64)>)
    ensures
        pairs_of(r@) == pairs_of(v@),
{
    let n = v.len();
    let mut r: Vec<(Account, u64)> = Vec::new();
    let mut i: usize = 0;
    while i < n
        invariant
            n == v@.len(),
            i <= n,
            r@.len() == i,
            pairs_of(r@) =~= pairs_of(v@).subrange(0, i as int),
        decreases n - i,
    {
        let e = &v[i];
        let ghost before = r@;
        r.push((e.0.clone(), e.1));
        proof {
            assert(r@ =~= before.push(r@[i as int]));
            assert(pairs_of(r@) =~= pairs_of(before).push(pairs_of(v@)[i as int]));
            assert(pairs_of(v@).subrange(0, i + 1) =~= pairs_of(v@).subrange(0, i as int).push(
                pairs_of(v@)[i as int],
            ));
        }
        i = i + 1;
    }
    proof {
        assert(pairs_of(v@).subrange(0, n as int) =~= pairs_of(v@));
    }
    r
}

proof fn lemma_sum_prefix(s: Seq<(Seq<u8>, nat)>, i: int)
    requires
        0 <= i <= s.len(),
    ensures
        sum_of(s.subrange(0, i)) <= sum_of(s),
    decreases s.len() - i,
{
    if i < s.len() {
        lemma_sum_prefix(s, i + 1);
        assert(s.subrange(0, i + 1).drop_last() =~= s.subrange(0, i));
    } else {
        assert(s.subrange(0, i) =~= s);
    }
}

impl AmountMap {
    /// The entries, in storage order, with accounts as bytes.
    pub closed spec fn pairs(&self) -> Seq<(Seq<u8>, nat)> {
        pairs_of(self.entries@)
    }

    /// Accounts are distinct and amounts non-zero.
    pub open spec fn wf(&self) -> bool {
        valid_pairs(self.pairs())
    }

    /// The sum of all amounts.
    pub open spec fn sum(&self) -> int {
        sum_of(self.pairs())
    }

    /// The map is what its entries describe.
    pub proof fn lemma_view(&self)
        ensures
            self@ == map_of(self.pairs()),
    {
    }

    /// No amount exceeds the sum of all amounts, and the sum is not negative.
    pub proof fn lemma_amount_le_sum(&self, k: Seq<u8>)
        requires
            self.wf(),
        ensures
            amount_of(self@, k) <= self.sum(),
            0 <= self.sum(),
    {
        let s = self.pairs();
        lemma_sum_nonneg(s);
        if self@.contains_key(k) {
            let j = choose|j: int| 0 <= j < s.len() && s[j].0 == k;
            lemma_map_of_at(s, j);
            lemma_entry_le_sum(s, j);
        }
    }

    /// The sum of the entries is the total of the map.
    pub proof fn lemma_sum_is_total(&self)
        requires
            self.wf(),
        ensures
            self.sum() == total(self@),
    {
        lemma_total(self.pairs());
    }

    /// An empty map.
    pub fn new() -> (r: AmountMap)
        ensures
            r.wf(),
            total(r@) == 0,
            r@ == Map::<Seq<u8>, nat>::empty(),
            r.pairs() == Seq::<(Seq<u8>, nat)>::empty(),
            r.sum() == 0,
    {
        let r = AmountMap { entries: Vec::new() };
        proof {
            assert(r.pairs() =~= Seq::<(Seq<u8>, nat)>::empty());
            assert(r@ =~= Map::<Seq<u8>, nat>::empty());
            lemma_total(r.pairs());
        }
        r
    }

    /// A map built from the given entries, if their accounts are distinct and
    /// their amounts non-zero.
    pub fn from_entries(v: Vec<(Account, u64)>) -> (r: Option<AmountMap>)
        ensures
            r is Some <==> valid_pairs(pairs_of(v@)),
            r matches Some(m) ==> m.wf() && m.pairs() == pairs_of(v@),
    {
        let n = v.len();
        let mut i: usize = 0;
        while i < n
            invariant
                n == v@.len(),
                i <= n,
                valid_pairs(pairs_of(v@.subrange(0, i as int))),
            decreases n - i,
        {
            if v[i].1 == 0 {
                proof {
                    assert(pairs_of(v@)[i as int].1 == 0);
                }
                return None;
            }
            let mut j: usize = 0;
            while j < i
                invariant
                    n == v@.len(),
                    j <= i < n,
                    forall|q: int| 0 <= q < j ==> v@[q].0@ != v@[i as int].0@,
                decreases i - j,
            {
                if v[j].0.same_as(&v[i].0) {
                    proof {
                        assert(pairs_of(v@)[j as int].0 == pairs_of(v@)[i as int].0);
                    }
                    return None;
                }
                j = j + 1;
            }
            proof {
                let p = pairs_of(v@.subrange(0, i as int));
                let q = pairs_of(v@.subrange(0, i + 1));
                assert forall|a: int| 0 <= a < q.len() implies q[a].1 > 0 by {
                    if a < i {
                        assert(q[a] == p[a]);
                    }
                }
                assert forall|a: int, b: int| 0 <= a < b < q.len() implies q[a].0 != q[b].0 by {
                    if b < i {
                        assert(q[a] == p[a] && q[b] == p[b]);
                    }
                }
            }
            i = i + 1;
        }
        proof {
            assert(v@.subrange(0, n as int) =~= v@);
        }
        Some(AmountMap { entries: v })
    }

    /// Whether the amounts sum to exactly `target`.
    pub fn sum_equals(&self, target: u64) -> (r: bool)
        ensures
            r == (self.sum() == target),
    {
        let ghost s = self.pairs();
        let n = self.entries.len();
        let mut acc: u64 = 0;
        let mut i: usize = 0;
        while i < n
            invariant
                n == s.len(),
                s == self.pairs(),
                i <= n,
                acc == sum_of(s.subrange(0, i as int)),
                acc <= target,
            decreases n - i,
        {
            let a = self.entries[i].1;
            proof {
                assert(s.subrange(0, i + 1).drop_last() =~= s.subrange(0, i as int));
                assert(s[i as int].1 == a);
            }
            if a > target - acc {
                proof {
                    lemma_sum_prefix(s, i + 1);
                }
                return false;
            }
            acc = acc + a;
            i = i + 1;
        }
        proof {
            assert(s.subrange(0, n as int) =~= s);
        }
        acc == target
    }

    /// The entries as stored.
    pub fn entries(&self) -> (r: &Vec<(Account, u64)>)
        ensures
            pairs_of(r@) == self.pairs(),
    {
        &self.entries
    }

    /// A copy of the entries.
    pub fn to_vec(&self) -> (r: Vec<(Account, u64)>)
        ensures
            pairs_of(r@) == self.pairs(),
    {
        copy_entries(&self.entries)
    }

    /// The number of accounts held.
    pub fn len(&self) -> (r: usize)
        requires
            self.wf(),
        ensures
            r == self.pairs().len(),
            r == self@.dom().len(),
    {
        proof {
            lemma_map_of_len(self.pairs());
        }
        self.entries.len()
    }

    /// Whether no account is held.
    pub fn is_empty(&self) -> (r: bool)
        requires
            self.wf(),
        ensures
            r == (self@ == Map::<Seq<u8>, nat>::empty()),
    {
        let r = self.entries.len() == 0;
        proof {
            if r {
                assert(self@ =~= Map::<Seq<u8>, nat>::empty());
            } else {
                lemma_map_of_at(self.pairs(), 0);
                assert(self@.contains_key(self.pairs()[0].0));
            }
        }
        r
    }

    /// The position of `k` among the entries.
    fn find(&self, k: &Account) -> (r: Option<usize>)
        requires
            self.wf(),
        ensures
            r matches Some(i) ==> i < self.pairs().len() && self.pairs()[i as int].0 == k@,
            r is None ==> forall|i: int| 0 <= i < self.pairs().len() ==> self.pairs()[i].0 != k@,
    {
        let n = self.entries.len();
        let mut i: usize = 0;
        while i < n
            invariant
                n == self.pairs().len(),
                i <= n,
                forall|j: int| 0 <= j < i ==> self.pairs()[j].0 != k@,
            decreases n - i,
        {
            if self.entries[i].0.same_as(k) {
                return Some(i);
            }
            i = i + 1;
        }
        None
    }

    /// The amount held by `k`, zero when absent.
    pub fn get(&self, k: &Account) -> (r: u64)
        requires
            self.wf(),
        ensures
            r as nat == amount_of(self@, k@),
    {
        match self.find(k) {
            Some(i) => {
                proof {
                    lemma_map_of_at(self.pairs(), i as int);
                }
                self.entries[i].1
            },
            None => {
                proof {
                    lemma_map_of_absent(self.pairs(), k@);
                }
                0
            },
        }
    }

    /// Stores `v` at `k`; storing zero removes the entry.
    pub fn set(&mut self, k: &Account, v: u64)
        requires
            old(self).wf(),
        ensures
            final(self).wf(),
            final(self)@ == stored(old(self)@, k@, v as nat),
            final(self).sum() == old(self).sum() - amount_of(old(self)@, k@) + v,
            total(final(self)@) == total(old(self)@) - amount_of(old(self)@, k@) + v,
    {
        let ghost s = self.pairs();
        proof {
            lemma_total(s);
        }
        match self.find(k) {
            Some(i) => {
                proof {
                    lemma_map_of_at(s, i as int);
                }
                if v == 0 {
                    self.entries.remove(i);
                    proof {
                        assert(self.pairs() =~= s.remove(i as int));
                        lemma_map_of_remove(s, i as int);
                        lemma_sum_remove(s, i as int);
                    }
                } else {
                    let key = k.clone();
                    self.entries.set(i, (key, v));
                    proof {
                        assert(self.pairs() =~= s.update(i as int, (s[i as int].0, v as nat)));
                        lemma_map_of_update(s, i as int, v as nat);
                        lemma_sum_update(s, i as int, (s[i as int].0, v as nat));
                    }
                }
            },
            None => {
                proof {
                    lemma_map_of_absent(s, k@);
                }
                if v == 0 {
                    proof {
                        assert(map_of(s).remove(k@) =~= map_of(s));
                    }
                } else {
                    let key = k.clone();
                    self.entries.push((key, v));
                    proof {
                        assert(self.pairs() =~= s.push((k@, v as nat)));
                        lemma_map_of_push(s, k@, v as nat);
                        assert(self.pairs().drop_last() =~= s);
                    }
                }
            },
        }
        proof {
            lemma_total(self.pairs());
        }
    }
}

} // verus!
