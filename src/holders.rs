//! Ranking of balance holders: larger balance first, ties broken by the
//! byte order of the account, so that a listing of an unchanged store is
//! the same on every call.

use vstd::prelude::*;
use crate::account::{Account, bytes_lt, lemma_bytes_lt_order};
use crate::amounts::{pairs_of, valid_pairs, map_of, lemma_map_of_at};

verus! {

/// Entry `x` ranks before entry `y`.
pub open spec fn ranks_before(x: (Seq<u8>, nat), y: (Seq<u8>, nat)) -> bool {
    x.1 > y.1 || (x.1 == y.1 && bytes_lt(x.0, y.0))
}

/// Every entry ranks before every later one.
pub open spec fn ranked(t: Seq<(Seq<u8>, nat)>) -> bool {
    forall|i: int, j: int| 0 <= i < j < t.len() ==> ranks_before(t[i], t[j])
}

/// `t` holds exactly the entries of `m`.
pub open spec fn lists(t: Seq<(Seq<u8>, nat)>, m: Map<Seq<u8>, nat>) -> bool {
    forall|p: (Seq<u8>, nat)| t.contains(p) <==> (m.contains_key(p.0) && m[p.0] == p.1)
}

/// The entries of `m` in rank order.
pub open spec fn ranking_of(m: Map<Seq<u8>, nat>) -> Seq<(Seq<u8>, nat)> {
    choose|t: Seq<(Seq<u8>, nat)>| ranked(t) && lists(t, m)
}

proof fn lemma_ranks_before_order(x: (Seq<u8>, nat), y: (Seq<u8>, nat), z: (Seq<u8>, nat))
    ensures
        !ranks_before(x, x),
        ranks_before(x, y) && ranks_before(y, z) ==> ranks_before(x, z),
        x.0 != y.0 ==> ranks_before(x, y) || ranks_before(y, x),
{
    lemma_bytes_lt_order(x.0, y.0, z.0);
    lemma_bytes_lt_order(y.0, x.0, z.0);
}

/// Two ranked listings of one map are the same.
proof fn lemma_ranking_unique(t1: Seq<(Seq<u8>, nat)>, t2: Seq<(Seq<u8>, nat)>)
    requires
        ranked(t1),
        ranked(t2),
        forall|p: (Seq<u8>, nat)| t1.contains(p) <==> t2.contains(p),
    ensures
        t1 == t2,
    decreases t1.len(),
{
    if t1.len() == 0 {
        if t2.len() > 0 {
            assert(t2.contains(t2[0]));
        }
        assert(t1 =~= t2);
    } else {
        assert(t1.contains(t1[0]));
        let j = choose|j: int| 0 <= j < t2.len() && t2[j] == t1[0];
        assert(t2.contains(t2[0]));
        let k = choose|k: int| 0 <= k < t1.len() && t1[k] == t2[0];
        if j > 0 {
            assert(ranks_before(t2[0], t2[j]));
            if k > 0 {
                assert(ranks_before(t1[0], t1[k]));
                lemma_ranks_before_order(t1[0], t2[0], t1[0]);
            } else {
                lemma_ranks_before_order(t1[0], t1[0], t1[0]);
            }
        }
        assert(t2[0] == t1[0]);
        let r1 = t1.drop_first();
        let r2 = t2.drop_first();
        assert forall|p: (Seq<u8>, nat)| r1.contains(p) <==> r2.contains(p) by {
            if r1.contains(p) {
                let a = choose|a: int| 0 <= a < r1.len() && r1[a] == p;
                assert(t1[a + 1] == p);
                assert(t2.contains(p));
                let b = choose|b: int| 0 <= b < t2.len() && t2[b] == p;
                if b == 0 {
                    assert(ranks_before(t1[0], t1[a + 1]));
                    lemma_ranks_before_order(p, p, p);
                }
                assert(r2[b - 1] == p);
            }
            if r2.contains(p) {
                let a = choose|a: int| 0 <= a < r2.len() && r2[a] == p;
                assert(t2[a + 1] == p);
                assert(t1.contains(p));
                let b = choose|b: int| 0 <= b < t1.len() && t1[b] == p;
                if b == 0 {
                    assert(ranks_before(t2[0], t2[a + 1]));
                    lemma_ranks_before_order(p, p, p);
                }
                assert(r1[b - 1] == p);
            }
        }
        lemma_ranking_unique(r1, r2);
        assert(t1.len() == t2.len());
        assert forall|a: int| 0 <= a < t1.len() implies t1[a] == t2[a] by {
            if a > 0 {
                assert(t1[a] == r1[a - 1]);
                assert(t2[a] == r2[a - 1]);
            }
        }
        assert(t1 =~= t2);
    }
}

/// A ranked listing of `m` is its ranking.
pub proof fn lemma_ranking_of(t: Seq<(Seq<u8>, nat)>, m: Map<Seq<u8>, nat>)
    requires
        ranked(t),
        lists(t, m),
    ensures
        ranking_of(m) == t,
{
    let r = ranking_of(m);
    assert(ranked(r) && lists(r, m));
    lemma_ranking_unique(r, t);
}

fn ranks_before_exec(x: &(Account, u64), y: &(Account, u64)) -> (r: bool)
    ensures
        r == ranks_before((x.0@, x.1 as nat), (y.0@, y.1 as nat)),
{
    x.1 > y.1 || (x.1 == y.1 && x.0.less_than(&y.0))
}

/// The given entries in rank order.
pub fn rank_entries(v: &Vec<(Account, u64)>) -> (r: Vec<(Account, u64)>)
    requires
        valid_pairs(pairs_of(v@)),
    ensures
        pairs_of(r@) == ranking_of(map_of(pairs_of(v@))),
{
    let ghost s = pairs_of(v@);
    let n = v.len();
    let mut t: Vec<(Account, u64)> = Vec::new();
    let mut i: usize = 0;
    while i < n
        invariant
            n == v@.len(),
            s == pairs_of(v@),
            valid_pairs(s),
            i <= n,
            ranked(pairs_of(t@)),
            forall|p: (Seq<u8>, nat)| pairs_of(t@).contains(p) <==> s.subrange(0, i as int).contains(p),
        decreases n - i,
    {
        let x = &v[i];
        let ghost xv = (x.0@, x.1 as nat);
        let ghost tv = pairs_of(t@);
        let mut p: usize = 0;
        let mut found = false;
        while p < t.len() && !found
            invariant
                p <= t@.len(),
                tv == pairs_of(t@),
                xv == (x.0@, x.1 as nat),
                found ==> p < tv.len() && ranks_before(xv, tv[p as int]),
                forall|q: int| 0 <= q < p ==> !ranks_before(xv, #[trigger] tv[q]),
            decreases t@.len() - p + if found { 0int } else { 1int },
        {
            let before = ranks_before_exec(x, &t[p]);
            proof {
                assert(tv[p as int] == (t@[p as int].0@, t@[p as int].1 as nat));
            }
            if before {
                found = true;
            } else {
                p = p + 1;
            }
        }
        proof {
            assert(xv == s[i as int]);
            assert forall|q: int| 0 <= q < tv.len() implies tv[q].0 != xv.0 by {
                assert(tv.contains(tv[q]));
                let a = choose|a: int| 0 <= a < i && s.subrange(0, i as int)[a] == tv[q];
                assert(s[a] == tv[q]);
            }
        }
        t.insert(p, (x.0.clone(), x.1));
        proof {
            let nt = pairs_of(t@);
            assert(nt =~= tv.insert(p as int, xv));
            assert forall|a: int, b: int| 0 <= a < b < nt.len() implies ranks_before(nt[a], nt[b]) by {
                if b < p {
                    assert(nt[a] == tv[a] && nt[b] == tv[b]);
                } else if b == p {
                    assert(nt[a] == tv[a]);
                    lemma_ranks_before_order(tv[a], xv, xv);
                } else if a == p {
                    assert(nt[b] == tv[b - 1]);
                    assert(ranks_before(xv, tv[p as int]));
                    if b - 1 > p {
                        assert(ranks_before(tv[p as int], tv[b - 1]));
                    }
                    lemma_ranks_before_order(xv, tv[p as int], tv[b - 1]);
                } else if a < p {
                    assert(nt[a] == tv[a] && nt[b] == tv[b - 1]);
                } else {
                    assert(nt[a] == tv[a - 1] && nt[b] == tv[b - 1]);
                }
            }
            assert(s.subrange(0, i + 1) =~= s.subrange(0, i as int).push(xv));
            assert forall|y: (Seq<u8>, nat)| nt.contains(y) <==> s.subrange(0, i + 1).contains(y) by {
                if nt.contains(y) {
                    let a = choose|a: int| 0 <= a < nt.len() && nt[a] == y;
                    if a < p {
                        assert(tv.contains(tv[a]));
                    } else if a > p {
                        assert(tv.contains(tv[a - 1]));
                    }
                    if y != xv {
                        assert(tv.contains(y));
                        assert(s.subrange(0, i as int).contains(y));
                        let c = choose|c: int| 0 <= c < i && s.subrange(0, i as int)[c] == y;
                        assert(s.subrange(0, i + 1)[c] == y);
                    } else {
                        assert(s.subrange(0, i + 1)[i as int] == y);
                    }
                }
                if s.subrange(0, i + 1).contains(y) {
                    let s1 = s.subrange(0, i + 1);
                    let c = choose|c: int| 0 <= c < s1.len() && s1[c] == y;
                    if c < i {
                        assert(s.subrange(0, i as int)[c] == y);
                        assert(tv.contains(y));
                        let a = choose|a: int| 0 <= a < tv.len() && tv[a] == y;
                        if a < p {
                            assert(nt[a] == y);
                        } else {
                            assert(nt[a + 1] == y);
                        }
                    } else {
                        assert(nt[p as int] == y);
                    }
                }
            }
        }
        i = i + 1;
    }
    proof {
        assert(s.subrange(0, n as int) =~= s);
        let m = map_of(s);
        let tv = pairs_of(t@);
        assert forall|y: (Seq<u8>, nat)| tv.contains(y) <==> (m.contains_key(y.0) && m[y.0] == y.1) by {
            if s.contains(y) {
                let c = choose|c: int| 0 <= c < s.len() && s[c] == y;
                lemma_map_of_at(s, c);
            }
            if m.contains_key(y.0) && m[y.0] == y.1 {
                let c = choose|c: int| 0 <= c < s.len() && s[c].0 == y.0;
                lemma_map_of_at(s, c);
                assert(s[c] == y);
            }
        }
        lemma_ranking_of(tv, m);
    }
    t
}

} // verus!
