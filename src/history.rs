//! The history log: an append-only list of operation records, each carrying
//! its own position as its sequence index.

use vstd::prelude::*;
use crate::account::Account;

verus! {

/// The kind of a recorded operation.
#[derive(Clone, Copy, Debug, PartialEq, Eq, Structural)]
pub enum Operation {
    Init,
    Mint,
    Burn,
    Transfer,
    TransferFrom,
    Approve,
}

/// One completed mutation of the ledger.
#[derive(Debug)]
pub struct OpRecord {
    /// The principal that made the call.
    pub caller: Option<Account>,
    pub op: Operation,
    /// Position in the log, assigned when the record is appended.
    pub index: usize,
    pub from: Option<Account>,
    pub to: Option<Account>,
    pub amount: u64,
    /// Fee charged by the operation.
    pub fee: u64,
    pub timestamp: u64,
}

/// A record with accounts as bytes.
pub struct RecordView {
    pub caller: Option<Seq<u8>>,
    pub op: Operation,
    pub index: usize,
    pub from: Option<Seq<u8>>,
    pub to: Option<Seq<u8>>,
    pub amount: u64,
    pub fee: u64,
    pub timestamp: u64,
}

/// An optional account as optional bytes.
pub open spec fn opt_view(a: Option<Account>) -> Option<Seq<u8>> {
    match a {
        Some(x) => Some(x@),
        None => None,
    }
}

impl View for OpRecord {
    type V = RecordView;

    open spec fn view(&self) -> RecordView {
        RecordView {
            caller: opt_view(self.caller),
            op: self.op,
            index: self.index,
            from: opt_view(self.from),
            to: opt_view(self.to),
            amount: self.amount,
            fee: self.fee,
            timestamp: self.timestamp,
        }
    }
}

/// A copy of an optional account.
pub fn clone_opt(a: &Option<Account>) -> (r: Option<Account>)
    ensures
        opt_view(r) == opt_view(*a),
{
    match a {
        Some(x) => Some(x.clone()),
        None => None,
    }
}

impl Clone for OpRecord {
    fn clone(&self) -> (r: Self)
        ensures
            r@ == self@,
    {
        OpRecord {
            caller: clone_opt(&self.caller),
            op: self.op,
            index: self.index,
            from: clone_opt(&self.from),
            to: clone_opt(&self.to),
            amount: self.amount,
            fee: self.fee,
            timestamp: self.timestamp,
        }
    }
}

/// Whether `a` takes part in the record, as caller, sender or receiver.
pub open spec fn involves(r: RecordView, a: Seq<u8>) -> bool {
    r.caller == Some(a) || r.from == Some(a) || r.to == Some(a)
}

/// The records in which `a` takes part, in log order.
pub open spec fn involving(s: Seq<RecordView>, a: Seq<u8>) -> Seq<RecordView>
    decreases s.len(),
{
    if s.len() == 0 {
        s
    } else if involves(s.last(), a) {
        involving(s.drop_last(), a).push(s.last())
    } else {
        involving(s.drop_last(), a)
    }
}

/// The records of `s` as views.
pub open spec fn views_of(s: Seq<OpRecord>) -> Seq<RecordView> {
    s.map_values(|r: OpRecord| r@)
}

/// Every record's index is its position.
pub open spec fn dense(s: Seq<RecordView>) -> bool {
    forall|i: int| 0 <= i < s.len() ==> #[trigger] s[i].index == i
}

/// The window `[start, start + count)` of `s`, cut at its end.
pub open spec fn window<T>(s: Seq<T>, start: int, count: int) -> Seq<T> {
    let lo = if start < s.len() { start } else { s.len() as int };
    let hi = if start + count < s.len() { start + count } else { s.len() as int };
    s.subrange(lo, hi)
}

/// The append-only log of operations.
pub struct History {
    records: Vec<OpRecord>,
}

impl View for History {
    type V = Seq<RecordView>;

    closed spec fn view(&self) -> Seq<RecordView> {
        views_of(self.records@)
    }
}

/// A copy of a list of records.
pub fn copy_records(v: &Vec<OpRecord>) -> (r: Vec<OpRecord>)
    ensures
        views_of(r@) == views_of(v@),
{
    let n = v.len();
    let mut r: Vec<OpRecord> = Vec::new();
    let mut i: usize = 0;
    while i < n
        invariant
            n == v@.len(),
            i <= n,
            r@.len() == i,
            views_of(r@) =~= views_of(v@).subrange(0, i as int),
        decreases n - i,
    {
        let ghost before = r@;
        r.push(v[i].clone());
        proof {
            assert(r@ =~= before.push(r@[i as int]));
            assert(views_of(r@) =~= views_of(before).push(views_of(v@)[i as int]));
        }
        i = i + 1;
    }
    proof {
        assert(views_of(v@).subrange(0, n as int) =~= views_of(v@));
    }
    r
}

impl History {
    /// Every record's index is its position.
    pub open spec fn wf(&self) -> bool {
        dense(self@)
    }

    /// An empty log.
    pub fn new() -> (r: History)
        ensures
            r.wf(),
            r@ == Seq::<RecordView>::empty(),
    {
        let r = History { records: Vec::new() };
        proof {
            assert(r@ =~= Seq::<RecordView>::empty());
        }
        r
    }

    /// A log holding the given records, if each one's index is its position.
    pub fn from_records(v: Vec<OpRecord>) -> (r: Option<History>)
        ensures
            r is Some <==> dense(views_of(v@)),
            r matches Some(h) ==> h@ == views_of(v@),
    {
        let n = v.len();
        let mut i: usize = 0;
        while i < n
            invariant
                n == v@.len(),
                i <= n,
                forall|j: int| 0 <= j < i ==> #[trigger] v@[j].index == j,
            decreases n - i,
        {
            if v[i].index != i {
                proof {
                    assert(views_of(v@)[i as int].index != i);
                }
                return None;
            }
            i = i + 1;
        }
        proof {
            assert forall|j: int| 0 <= j < views_of(v@).len() implies #[trigger] views_of(v@)[j].index == j by {
                assert(v@[j].index == j);
            }
        }
        Some(History { records: v })
    }

    /// A copy of all records.
    pub fn to_vec(&self) -> (r: Vec<OpRecord>)
        ensures
            views_of(r@) == self@,
    {
        copy_records(&self.records)
    }

    /// The number of records.
    pub fn len(&self) -> (r: usize)
        ensures
            r == self@.len(),
    {
        self.records.len()
    }

    /// Appends a record at the next index and returns that index.
    pub fn append(
        &mut self,
        caller: Option<Account>,
        op: Operation,
        from: Option<Account>,
        to: Option<Account>,
        amount: u64,
        fee: u64,
        timestamp: u64,
    ) -> (r: usize)
        requires
            old(self).wf(),
        ensures
            final(self).wf(),
            r == old(self)@.len(),
            final(self)@ == old(self)@.push(
                RecordView {
                    caller: opt_view(caller),
                    op,
                    index: r,
                    from: opt_view(from),
                    to: opt_view(to),
                    amount,
                    fee,
                    timestamp,
                },
            ),
    {
        let index = self.records.len();
        let ghost before = self.records@;
        self.records.push(OpRecord { caller, op, index, from, to, amount, fee, timestamp });
        proof {
            assert(self.records@ =~= before.push(self.records@[index as int]));
            assert(self@ =~= views_of(before).push(self.records@[index as int]@));
        }
        index
    }

    /// The record at `index`, if there is one.
    pub fn get(&self, index: usize) -> (r: Option<OpRecord>)
        ensures
            r is Some <==> index < self@.len(),
            r matches Some(x) ==> x@ == self@[index as int],
    {
        if index < self.records.len() {
            Some(self.records[index].clone())
        } else {
            None
        }
    }

    /// The records `[start, start + count)`, cut at the end of the log.
    pub fn range(&self, start: usize, count: usize) -> (r: Vec<OpRecord>)
        ensures
            views_of(r@) == window(self@, start as int, count as int),
    {
        let n = self.records.len();
        let mut r: Vec<OpRecord> = Vec::new();
        if start >= n {
            proof {
                assert(views_of(r@) =~= window(self@, start as int, count as int));
            }
            return r;
        }
        let end = if count < n - start { start + count } else { n };
        let mut i: usize = start;
        while i < end
            invariant
                n == self@.len(),
                start <= i <= end <= n,
                r@.len() == i - start,
                views_of(r@) =~= self@.subrange(start as int, i as int),
            decreases end - i,
        {
            let ghost before = r@;
            r.push(self.records[i].clone());
            proof {
                assert(r@ =~= before.push(r@[i - start]));
                assert(views_of(r@) =~= views_of(before).push(self@[i as int]));
            }
            i = i + 1;
        }
        r
    }

    /// The number of records in which `a` takes part.
    pub fn count_involving(&self, a: &Account) -> (r: usize)
        ensures
            r == involving(self@, a@).len(),
    {
        let n = self.records.len();
        let mut c: usize = 0;
        let mut i: usize = 0;
        while i < n
            invariant
                n == self@.len(),
                i <= n,
                c == involving(self@.subrange(0, i as int), a@).len(),
                c <= i,
            decreases n - i,
        {
            proof {
                assert(self@.subrange(0, i + 1).drop_last() =~= self@.subrange(0, i as int));
            }
            if self.records[i].involves(a) {
                c = c + 1;
            }
            i = i + 1;
        }
        proof {
            assert(self@.subrange(0, n as int) =~= self@);
        }
        c
    }

    /// The records in which `a` takes part, `[start, start + count)` of them,
    /// counted among those records only.
    pub fn page_involving(&self, a: &Account, start: usize, count: usize) -> (r: Vec<OpRecord>)
        ensures
            views_of(r@) == window(involving(self@, a@), start as int, count as int),
    {
        let n = self.records.len();
        let mut r: Vec<OpRecord> = Vec::new();
        let mut c: usize = 0;
        let mut i: usize = 0;
        while i < n
            invariant
                n == self@.len(),
                i <= n,
                c == involving(self@.subrange(0, i as int), a@).len(),
                c <= i,
                views_of(r@) =~= window(
                    involving(self@.subrange(0, i as int), a@),
                    start as int,
                    count as int,
                ),
            decreases n - i,
        {
            let ghost pre = involving(self@.subrange(0, i as int), a@);
            proof {
                assert(self@.subrange(0, i + 1).drop_last() =~= self@.subrange(0, i as int));
                assert(self@.subrange(0, i + 1).last() == self@[i as int]);
            }
            if self.records[i].involves(a) {
                if c >= start && c - start < count {
                    let ghost before = r@;
                    r.push(self.records[i].clone());
                    proof {
                        assert(r@ =~= before.push(r@[before.len() as int]));
                        assert(views_of(r@) =~= views_of(before).push(self@[i as int]));
                        assert(window(pre.push(self@[i as int]), start as int, count as int)
                            =~= window(pre, start as int, count as int).push(self@[i as int]));
                    }
                } else {
                    proof {
                        assert(window(pre.push(self@[i as int]), start as int, count as int)
                            =~= window(pre, start as int, count as int));
                    }
                }
                c = c + 1;
            }
            i = i + 1;
        }
        proof {
            assert(self@.subrange(0, n as int) =~= self@);
        }
        r
    }
}

impl OpRecord {
    /// Whether `a` takes part in this record, as caller, sender or receiver.
    pub fn involves(&self, a: &Account) -> (r: bool)
        ensures
            r == involves(self@, a@),
    {
        let c = match &self.caller {
            Some(x) => x.same_as(a),
            None => false,
        };
        let f = match &self.from {
            Some(x) => x.same_as(a),
            None => false,
        };
        let t = match &self.to {
            Some(x) => x.same_as(a),
            None => false,
        };
        c || f || t
    }
}

} // verus!
