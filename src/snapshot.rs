//! Snapshots: the whole state of a ledger as plain lists, taken before the
//! hosting process stops and loaded after it restarts. The history log is
//! included, so a restore gives back every record as well.

use vstd::prelude::*;
use crate::account::Account;
use crate::amounts::{pairs_of, valid_pairs, map_of, total};
use crate::allowances::{rows_of, valid_rows, matrix_of};
use crate::history::{OpRecord, views_of, dense};
use crate::metadata::Metadata;
use crate::ledger::{Ledger, LedgerView, TxError};

verus! {

/// The layout of snapshots that this version writes and reads.
pub const SNAPSHOT_VERSION: u32 = 1;

/// The whole state of a ledger as plain lists.
#[derive(Debug)]
pub struct Snapshot {
    pub version: u32,
    pub metadata: Metadata,
    /// (account, balance) entries.
    pub balances: Vec<(Account, u64)>,
    /// (owner, (spender, amount) entries) rows.
    pub allowances: Vec<(Account, Vec<(Account, u64)>)>,
    pub history: Vec<OpRecord>,
}

/// A snapshot that can be loaded: a known version; distinct accounts with
/// non-zero balances summing to the total supply; distinct owners with
/// non-empty rows of distinct spenders and non-zero amounts; records whose
/// indices are their positions.
pub open spec fn snapshot_valid(s: Snapshot) -> bool {
    &&& s.version == SNAPSHOT_VERSION
    &&& valid_pairs(pairs_of(s.balances@))
    &&& total(map_of(pairs_of(s.balances@))) == s.metadata.total_supply
    &&& valid_rows(rows_of(s.allowances@))
    &&& dense(views_of(s.history@))
}

/// The state that a snapshot describes.
pub open spec fn snapshot_state(s: Snapshot) -> LedgerView {
    LedgerView {
        metadata: s.metadata@,
        balances: map_of(pairs_of(s.balances@)),
        allowances: matrix_of(rows_of(s.allowances@)),
        history: views_of(s.history@),
    }
}

/// `s` is a loadable snapshot of the state `l`.
pub open spec fn exported_from(s: Snapshot, l: LedgerView) -> bool {
    snapshot_valid(s) && snapshot_state(s) == l
}

/// `r` is what loading `s` gives: a well-formed ledger in the state that `s`
/// describes when `s` is valid, else `Malformed`.
pub open spec fn imported_as(s: Snapshot, r: Result<Ledger, TxError>) -> bool {
    &&& r is Ok <==> snapshot_valid(s)
    &&& r matches Ok(l) ==> l.wf() && l@ == snapshot_state(s)
    &&& r matches Err(e) ==> e == TxError::Malformed
}

/// Importing an exported snapshot gives back a ledger in the same state: the
/// snapshot that `export` produced from `l` is accepted, and the result of
/// `import` on it has the state of `l`.
pub proof fn lemma_snapshot_round_trip(l: LedgerView, s: Snapshot, r: Result<Ledger, TxError>)
    requires
        exported_from(s, l),
        imported_as(s, r),
    ensures
        r matches Ok(x) && x@ == l && x.wf(),
{
}

} // verus!
