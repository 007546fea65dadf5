//! The allowance matrix: for each owner, the amounts that spenders may move
//! out of the owner's balance. An owner with no allowance left has no row.

use vstd::prelude::*;
use crate::account::Account;
use crate::amounts::{
    AmountMap, amount_of, stored, pairs_of, valid_pairs, keys_unique, map_of, copy_entries,
    lemma_map_of_at, lemma_map_of_absent, lemma_map_of_update, lemma_map_of_remove,
    lemma_map_of_push,
};

verus! {

/// The rows of a matrix, as owners with their (spender, amount) entries.
pub type RowsView = Seq<(Seq<u8>, Seq<(Seq<u8>, nat)>)>;

/// The abstract matrix: owner to (spender to amount).
pub type MatrixView = Map<Seq<u8>, Map<Seq<u8>, nat>>;

/// The row of `o`: empty when `o` has approved nobody.
pub open spec fn row_of(m: MatrixView, o: Seq<u8>) -> Map<Seq<u8>, nat> {
    if m.contains_key(o) {
        m[o]
    } else {
        Map::empty()
    }
}

/// The amount that `s` may still move out of `o`'s balance.
pub open spec fn allowance_of(m: MatrixView, o: Seq<u8>, s: Seq<u8>) -> nat {
    amount_of(row_of(m, o), s)
}

/// `m` after setting the allowance of `s` over `o` to `v`: a zero removes the
/// entry, and a row left empty is removed too.
pub open spec fn approved(m: MatrixView, o: Seq<u8>, s: Seq<u8>, v: nat) -> MatrixView {
    let r = stored(row_of(m, o), s, v);
    if r == Map::<Seq<u8>, nat>::empty() {
        m.remove(o)
    } else {
        m.insert(o, r)
    }
}

/// What a list of (owner, entries) rows says, with accounts as bytes.
pub open spec fn rows_of(v: Seq<(Account, Vec<(Account, u64)>)>) -> RowsView {
    v.map_values(|e: (Account, Vec<(Account, u64)>)| (e.0@, pairs_of(e.1@)))
}

/// Rows that a matrix can be built from: distinct owners, each with a
/// non-empty valid row.
pub open spec fn valid_rows(s: RowsView) -> bool {
    &&& keys_unique(s)
    &&& forall|i: int| 0 <= i < s.len() ==> #[trigger] valid_pairs(s[i].1) && s[i].1.len() > 0
}

/// The rows with each row turned into its map.
pub open spec fn row_maps(s: RowsView) -> Seq<(Seq<u8>, Map<Seq<u8>, nat>)> {
    s.map_values(|r: (Seq<u8>, Seq<(Seq<u8>, nat)>)| (r.0, map_of(r.1)))
}

/// The matrix that a list of rows describes.
pub open spec fn matrix_of(s: RowsView) -> MatrixView {
    map_of(row_maps(s))
}

/// The number of (spender, amount) entries over all rows.
pub open spec fn entry_count(s: RowsView) -> int
    decreases s.len(),
{
    if s.len() == 0 {
        0
    } else {
        entry_count(s.drop_last()) + s.last().1.len()
    }
}

/// The allowances of every owner, one row per owner.
pub struct AllowanceMatrix {
    rows: Vec<(Account, AmountMap)>,
}

impl View for AllowanceMatrix {
    type V = MatrixView;

    closed spec fn view(&self) -> MatrixView {
        matrix_of(self.rows())
    }
}

impl AllowanceMatrix {
    /// The rows, in storage order, with accounts as bytes.
    pub closed spec fn rows(&self) -> RowsView {
        self.rows@.map_values(|r: (Account, AmountMap)| (r.0@, r.1.pairs()))
    }

    /// Owners are distinct and every row is valid and non-empty.
    pub open spec fn wf(&self) -> bool {
        valid_rows(self.rows())
    }

    /// The matrix is what its rows describe.
    pub proof fn lemma_view(&self)
        ensures
            self@ == matrix_of(self.rows()),
    {
    }

    /// Every row of a well-formed matrix is non-empty and holds non-zero amounts.
    pub proof fn lemma_valid(&self)
        requires
            self.wf(),
        ensures
            forall|o: Seq<u8>| #[trigger] self@.contains_key(o) ==> self@[o] != Map::<Seq<u8>, nat>::empty(),
            forall|o: Seq<u8>, s: Seq<u8>| #[trigger] self@.contains_key(o) && self@[o].contains_key(s)
                ==> #[trigger] self@[o][s] > 0,
    {
        let rs = self.rows();
        let mv = row_maps(rs);
        assert forall|o: Seq<u8>| #[trigger] self@.contains_key(o) implies self@[o] != Map::<Seq<u8>, nat>::empty()
            && (forall|s: Seq<u8>| #[trigger] self@[o].contains_key(s) ==> self@[o][s] > 0) by {
            assert(mv.len() == rs.len());
            let j = choose|j: int| 0 <= j < mv.len() && mv[j].0 == o;
            lemma_map_of_at(mv, j);
            assert(mv[j] == (rs[j].0, map_of(rs[j].1)));
            assert(valid_rows(rs));
            assert(0 <= j < rs.len());
            assert(valid_pairs(rs[j].1));
            assert(rs[j].1.len() > 0);
            lemma_map_of_at(rs[j].1, 0);
            assert(self@[o].contains_key(rs[j].1[0].0));
            assert forall|s: Seq<u8>| #[trigger] self@[o].contains_key(s) implies self@[o][s] > 0 by {
                let q = choose|q: int| 0 <= q < rs[j].1.len() && rs[j].1[q].0 == s;
                lemma_map_of_at(rs[j].1, q);
            }
        }
    }

    /// A matrix with no allowances.
    pub fn new() -> (r: AllowanceMatrix)
        ensures
            r.wf(),
            r@ == MatrixView::empty(),
            r.rows() == RowsView::empty(),
    {
        let r = AllowanceMatrix { rows: Vec::new() };
        proof {
            assert(r.rows() =~= RowsView::empty());
            assert(r@ =~= MatrixView::empty());
        }
        r
    }

    /// A copy of the rows, each as its owner and entries.
    pub fn to_rows(&self) -> (r: Vec<(Account, Vec<(Account, u64)>)>)
        ensures
            rows_of(r@) == self.rows(),
    {
        let n = self.rows.len();
        let mut r: Vec<(Account, Vec<(Account, u64)>)> = Vec::new();
        let mut i: usize = 0;
        while i < n
            invariant
                n == self.rows@.len(),
                i <= n,
                r@.len() == i,
                rows_of(r@) =~= self.rows().subrange(0, i as int),
            decreases n - i,
        {
            let row = &self.rows[i];
            let ghost before = r@;
            r.push((row.0.clone(), row.1.to_vec()));
            proof {
                assert(r@ =~= before.push(r@[i as int]));
                assert(rows_of(r@) =~= rows_of(before).push(self.rows()[i as int]));
            }
            i = i + 1;
        }
        proof {
            assert(self.rows().subrange(0, n as int) =~= self.rows());
        }
        r
    }

    /// A matrix built from the given rows, if their owners are distinct and
    /// every row is valid and non-empty.
    pub fn from_rows(v: &Vec<(Account, Vec<(Account, u64)>)>) -> (r: Option<AllowanceMatrix>)
        ensures
            r is Some <==> valid_rows(rows_of(v@)),
            r matches Some(m) ==> m.wf() && m.rows() == rows_of(v@),
    {
        let ghost s = rows_of(v@);
        let n = v.len();
        let mut rows: Vec<(Account, AmountMap)> = Vec::new();
        let mut i: usize = 0;
        while i < n
            invariant
                n == v@.len(),
                s == rows_of(v@),
                i <= n,
                rows@.len() == i,
                valid_rows(s.subrange(0, i as int)),
                rows@.map_values(|r: (Account, AmountMap)| (r.0@, r.1.pairs())) =~= s.subrange(0, i as int),
            decreases n - i,
        {
            let mut j: usize = 0;
            while j < i
                invariant
                    n == v@.len(),
                    s == rows_of(v@),
                    j <= i < n,
                    forall|q: int| 0 <= q < j ==> s[q].0 != s[i as int].0,
                decreases i - j,
            {
                if v[j].0.same_as(&v[i].0) {
                    proof {
                        assert(s[j as int].0 == s[i as int].0);
                    }
                    return None;
                }
                j = j + 1;
            }
            let entries = copy_entries(&v[i].1);
            let row = match AmountMap::from_entries(entries) {
                Some(m) => m,
                None => {
                    proof {
                        assert(!valid_pairs(s[i as int].1));
                    }
                    return None;
                },
            };
            if row.len() == 0 {
                proof {
                    assert(s[i as int].1.len() == 0);
                }
                return None;
            }
            let ghost before = rows@;
            rows.push((v[i].0.clone(), row));
            proof {
                let t = s.subrange(0, i + 1);
                assert(rows@ =~= before.push(rows@[i as int]));
                assert(rows@.map_values(|r: (Account, AmountMap)| (r.0@, r.1.pairs())) =~= t);
                assert forall|a: int, b: int| 0 <= a < b < t.len() implies t[a].0 != t[b].0 by {
                    if b < i {
                        assert(t[a] == s.subrange(0, i as int)[a]);
                        assert(t[b] == s.subrange(0, i as int)[b]);
                    }
                }
                assert forall|a: int| 0 <= a < t.len() implies #[trigger] valid_pairs(t[a].1) && t[a].1.len() > 0 by {
                    if a < i {
                        assert(t[a] == s.subrange(0, i as int)[a]);
                    }
                }
            }
            i = i + 1;
        }
        proof {
            assert(s.subrange(0, n as int) =~= s);
        }
        Some(AllowanceMatrix { rows })
    }

    /// The position of `o`'s row.
    fn find(&self, o: &Account) -> (r: Option<usize>)
        ensures
            r matches Some(i) ==> i < self.rows().len() && self.rows()[i as int].0 == o@,
            r is None ==> forall|i: int| 0 <= i < self.rows().len() ==> self.rows()[i].0 != o@,
    {
        let n = self.rows.len();
        let mut i: usize = 0;
        while i < n
            invariant
                n == self.rows().len(),
                i <= n,
                forall|j: int| 0 <= j < i ==> self.rows()[j].0 != o@,
            decreases n - i,
        {
            if self.rows[i].0.same_as(o) {
                return Some(i);
            }
            i = i + 1;
        }
        None
    }

    /// The row of `o` in the matrix, from what `find` reports.
    proof fn lemma_row(&self, o: Seq<u8>, i: Option<usize>)
        requires
            self.wf(),
            i matches Some(j) ==> j < self.rows().len() && self.rows()[j as int].0 == o,
            i is None ==> forall|j: int| 0 <= j < self.rows().len() ==> self.rows()[j].0 != o,
        ensures
            i matches Some(j) ==> self@.contains_key(o) && self@[o] == map_of(self.rows()[j as int].1)
                && self@[o] == self.rows@[j as int].1@,
            i is None ==> !self@.contains_key(o),
    {
        let mv = row_maps(self.rows());
        assert(keys_unique(mv));
        match i {
            Some(j) => {
                lemma_map_of_at(mv, j as int);
                self.rows@[j as int].1.lemma_view();
            },
            None => {
                lemma_map_of_absent(mv, o);
            },
        }
    }

    /// The amount that `spender` may still move out of `owner`'s balance.
    pub fn get(&self, owner: &Account, spender: &Account) -> (r: u64)
        requires
            self.wf(),
        ensures
            r as nat == allowance_of(self@, owner@, spender@),
    {
        let i = self.find(owner);
        proof {
            self.lemma_row(owner@, i);
        }
        match i {
            Some(i) => {
                assert(valid_pairs(self.rows()[i as int].1));
                self.rows[i].1.get(spender)
            },
            None => 0,
        }
    }

    /// The entries of `owner`'s row.
    pub fn approvals_of(&self, owner: &Account) -> (r: Vec<(Account, u64)>)
        requires
            self.wf(),
        ensures
            valid_pairs(pairs_of(r@)),
            map_of(pairs_of(r@)) == row_of(self@, owner@),
    {
        let i = self.find(owner);
        proof {
            self.lemma_row(owner@, i);
        }
        match i {
            Some(i) => {
                assert(valid_pairs(self.rows()[i as int].1));
                self.rows[i].1.to_vec()
            },
            None => {
                let r: Vec<(Account, u64)> = Vec::new();
                proof {
                    assert(pairs_of(r@) =~= Seq::<(Seq<u8>, nat)>::empty());
                    assert(map_of(pairs_of(r@)) =~= Map::<Seq<u8>, nat>::empty());
                }
                r
            },
        }
    }

    /// Sets the allowance of `spender` over `owner` to `v`.
    pub fn set(&mut self, owner: &Account, spender: &Account, v: u64)
        requires
            old(self).wf(),
        ensures
            final(self).wf(),
            final(self)@ == approved(old(self)@, owner@, spender@, v as nat),
    {
        let ghost rs = self.rows();
        let ghost m = self@;
        let found = self.find(owner);
        proof {
            self.lemma_row(owner@, found);
            assert(keys_unique(row_maps(rs)));
        }
        match found {
            Some(i) => {
                proof {
                    assert(valid_pairs(rs[i as int].1));
                }
                let (key, mut row) = self.rows.remove(i);
                row.set(spender, v);
                if row.is_empty() {
                    proof {
                        assert(self.rows() =~= rs.remove(i as int));
                        assert(row_maps(rs.remove(i as int)) =~= row_maps(rs).remove(i as int));
                        lemma_map_of_remove(row_maps(rs), i as int);
                        assert forall|a: int| 0 <= a < self.rows().len() implies #[trigger] valid_pairs(
                            self.rows()[a].1,
                        ) && self.rows()[a].1.len() > 0 by {
                            if a >= i {
                                assert(self.rows()[a] == rs[a + 1]);
                                assert(valid_pairs(rs[a + 1].1));
                            } else {
                                assert(self.rows()[a] == rs[a]);
                                assert(valid_pairs(rs[a].1));
                            }
                        }
                        lemma_map_of_remove(rs, i as int);
                    }
                } else {
                    self.rows.insert(i, (key, row));
                    proof {
                        row.lemma_view();
                        let nr = (owner@, row.pairs());
                        assert(self.rows() =~= rs.update(i as int, nr));
                        assert(row_maps(rs.update(i as int, nr)) =~= row_maps(rs).update(
                            i as int,
                            (owner@, map_of(row.pairs())),
                        ));
                        lemma_map_of_update(row_maps(rs), i as int, map_of(row.pairs()));
                        lemma_map_of_update(rs, i as int, row.pairs());
                        if row.pairs().len() == 0 {
                            assert(row@ =~= Map::<Seq<u8>, nat>::empty());
                        }
                        assert forall|a: int| 0 <= a < self.rows().len() implies #[trigger] valid_pairs(
                            self.rows()[a].1,
                        ) && self.rows()[a].1.len() > 0 by {
                            if a != i {
                                assert(self.rows()[a] == rs[a]);
                            }
                        }
                    }
                }
            },
            None => {
                if v != 0 {
                    let mut row = AmountMap::new();
                    row.set(spender, v);
                    let key = owner.clone();
                    self.rows.push((key, row));
                    proof {
                        row.lemma_view();
                        let nr = (owner@, row.pairs());
                        assert(self.rows() =~= rs.push(nr));
                        assert(row_maps(rs.push(nr)) =~= row_maps(rs).push((owner@, map_of(row.pairs()))));
                        lemma_map_of_push(row_maps(rs), owner@, map_of(row.pairs()));
                        lemma_map_of_push(rs, owner@, row.pairs());
                        assert(row@.contains_key(spender@));
                        if row.pairs().len() == 0 {
                            assert(row@ =~= Map::<Seq<u8>, nat>::empty());
                        }
                        assert(row@ =~= Map::<Seq<u8>, nat>::empty().insert(spender@, v as nat));
                        assert forall|a: int| 0 <= a < self.rows().len() implies #[trigger] valid_pairs(
                            self.rows()[a].1,
                        ) && self.rows()[a].1.len() > 0 by {
                            if a < rs.len() {
                                assert(self.rows()[a] == rs[a]);
                            }
                        }
                    }
                } else {
                    proof {
                        assert(stored(Map::<Seq<u8>, nat>::empty(), spender@, 0) =~= Map::<Seq<u8>, nat>::empty());
                        assert(m.remove(owner@) =~= m);
                    }
                }
            },
        }
    }

    /// The number of (owner, spender) entries, or `usize::MAX` if there were more.
    pub fn size(&self) -> (r: usize)
        requires
            self.wf(),
        ensures
            r == if entry_count(self.rows()) <= usize::MAX { entry_count(self.rows()) } else {
                usize::MAX as int
            },
    {
        let n = self.rows.len();
        let mut total: usize = 0;
        let mut saturated = false;
        let mut i: usize = 0;
        while i < n
            invariant
                n == self.rows().len(),
                self.wf(),
                i <= n,
                saturated ==> entry_count(self.rows().subrange(0, i as int)) > usize::MAX && total == usize::MAX,
                !saturated ==> total == entry_count(self.rows().subrange(0, i as int)),
            decreases n - i,
        {
            proof {
                assert(self.rows().subrange(0, i + 1).drop_last() =~= self.rows().subrange(0, i as int));
                lemma_entry_count_nonneg(self.rows().subrange(0, i as int));
                assert(valid_pairs(self.rows()[i as int].1));
            }
            let k = self.rows[i].1.len();
            if !saturated {
                if k > usize::MAX - total {
                    saturated = true;
                    total = usize::MAX;
                } else {
                    total = total + k;
                }
            }
            i = i + 1;
        }
        proof {
            assert(self.rows().subrange(0, n as int) =~= self.rows());
        }
        total
    }
}

proof fn lemma_entry_count_nonneg(s: RowsView)
    ensures
        entry_count(s) >= 0,
    decreases s.len(),
{
    if s.len() > 0 {
        lemma_entry_count_nonneg(s.drop_last());
    }
}

} // verus!
