//! The ledger engine: transfers, allowances, minting and burning over the
//! balance store, the allowance matrix, the history log and the metadata.
//! Every mutating operation validates first and either fails with no effect
//! or applies its whole change and appends exactly one history record.
//!
//! Policies: a balance or allowance that reaches zero is removed; the fee is
//! charged to the sender of transfer, transferFrom and approve and paid to
//! `fee_to`; an approval of `value` grants `value + fee`, and a transferFrom
//! of `value` spends `value + fee` of the allowance; a transfer to oneself is
//! accepted and only pays the fee.

use vstd::prelude::*;
use crate::account::Account;
use crate::amounts::{AmountMap, amount_of, stored, total, pairs_of, valid_pairs, map_of, copy_entries, lemma_total};
use crate::allowances::{AllowanceMatrix, MatrixView, RowsView, allowance_of, approved, row_of, entry_count};
use crate::history::{History, OpRecord, Operation, RecordView, views_of, window, involving, dense};
use crate::metadata::{Metadata, MetadataView, TokenInfo};
use crate::holders::{rank_entries, ranking_of};
use crate::snapshot::{Snapshot, SNAPSHOT_VERSION, exported_from, imported_as};

verus! {

/// Why an operation was refused.
#[derive(Clone, Copy, Debug, PartialEq, Eq, Structural)]
pub enum TxError {
    InsufficientBalance,
    InsufficientAllowance,
    Overflow,
    Unauthorized,
    NotFound,
    Malformed,
}

/// The index of the record that a successful operation appended, or the reason
/// it was refused.
pub type TxReceipt = Result<usize, TxError>;

/// The whole state of a ledger, with accounts as bytes.
pub struct LedgerView {
    pub metadata: MetadataView,
    pub balances: Map<Seq<u8>, nat>,
    pub allowances: MatrixView,
    pub history: Seq<RecordView>,
}

/// The balance of `a`.
pub open spec fn balance_in(l: LedgerView, a: Seq<u8>) -> nat {
    amount_of(l.balances, a)
}

/// Balances after moving `v` from `from` to `to`: a debit, then a credit.
pub open spec fn moved(m: Map<Seq<u8>, nat>, from: Seq<u8>, to: Seq<u8>, v: nat) -> Map<Seq<u8>, nat> {
    let m1 = stored(m, from, (amount_of(m, from) - v) as nat);
    stored(m1, to, amount_of(m1, to) + v)
}

/// Balances after `payer` pays `fee` to `fee_to` (nothing moves for a zero fee).
pub open spec fn fee_charged(m: Map<Seq<u8>, nat>, payer: Seq<u8>, fee_to: Seq<u8>, fee: nat) -> Map<
    Seq<u8>,
    nat,
> {
    if fee > 0 {
        moved(m, payer, fee_to, fee)
    } else {
        m
    }
}

/// The record that an operation appends.
pub open spec fn record_of(
    caller: Seq<u8>,
    op: Operation,
    from: Option<Seq<u8>>,
    to: Option<Seq<u8>>,
    amount: u64,
    fee: u64,
    index: int,
    timestamp: u64,
) -> RecordView {
    RecordView { caller: Some(caller), op, index: index as usize, from, to, amount, fee, timestamp }
}

/// What `transfer` of `value` by `caller` returns.
pub open spec fn transfer_receipt(l: LedgerView, caller: Seq<u8>, value: u64) -> TxReceipt {
    if balance_in(l, caller) < value + l.metadata.fee {
        Err(TxError::InsufficientBalance)
    } else {
        Ok(l.history.len() as usize)
    }
}

/// The state after a successful `transfer` of `value` from `caller` to `to`:
/// the caller pays the fee to `fee_to`, then `value` moves to `to`.
pub open spec fn transferred(l: LedgerView, caller: Seq<u8>, to: Seq<u8>, value: u64, now: u64) -> LedgerView {
    LedgerView {
        balances: moved(
            fee_charged(l.balances, caller, l.metadata.fee_to, l.metadata.fee as nat),
            caller,
            to,
            value as nat,
        ),
        history: l.history.push(
            record_of(
                caller,
                Operation::Transfer,
                Some(caller),
                Some(to),
                value,
                l.metadata.fee,
                l.history.len() as int,
                now,
            ),
        ),
        ..l
    }
}

/// The balances sum to the total supply.
pub open spec fn conserved(l: LedgerView) -> bool {
    total(l.balances) == l.metadata.total_supply
}

/// The invariants of every reachable state: balances conserved and non-zero,
/// allowances non-zero with no empty row, history indices dense.
pub open spec fn valid_state(l: LedgerView) -> bool {
    &&& conserved(l)
    &&& forall|k: Seq<u8>| #[trigger] l.balances.contains_key(k) ==> l.balances[k] > 0
    &&& forall|o: Seq<u8>| #[trigger] l.allowances.contains_key(o) ==> l.allowances[o] != Map::<
        Seq<u8>,
        nat,
    >::empty()
    &&& forall|o: Seq<u8>, s: Seq<u8>| #[trigger] l.allowances.contains_key(o) && l.allowances[o].contains_key(s)
        ==> #[trigger] l.allowances[o][s] > 0
    &&& dense(l.history)
}

/// A fungible-token ledger.
pub struct Ledger {
    metadata: Metadata,
    balances: AmountMap,
    allowances: AllowanceMatrix,
    history: History,
}

impl View for Ledger {
    type V = LedgerView;

    closed spec fn view(&self) -> LedgerView {
        LedgerView {
            metadata: self.metadata@,
            balances: self.balances@,
            allowances: self.allowances@,
            history: self.history@,
        }
    }
}

/// Moves `v` from `from` to `to`.
fn move_balance(balances: &mut AmountMap, from: &Account, to: &Account, v: u64)
    requires
        old(balances).wf(),
        amount_of(old(balances)@, from@) >= v,
        total(old(balances)@) <= u64::MAX,
    ensures
        final(balances).wf(),
        final(balances)@ == moved(old(balances)@, from@, to@, v as nat),
        total(final(balances)@) == total(old(balances)@),
{
    let fb = balances.get(from);
    balances.set(from, fb - v);
    proof {
        balances.lemma_amount_le_sum(to@);
        balances.lemma_sum_is_total();
    }
    let tb = balances.get(to);
    balances.set(to, tb + v);
}

/// Makes `payer` pay `fee` to `fee_to`, when the fee is not zero.
fn charge_fee(balances: &mut AmountMap, payer: &Account, fee_to: &Account, fee: u64)
    requires
        old(balances).wf(),
        amount_of(old(balances)@, payer@) >= fee,
        total(old(balances)@) <= u64::MAX,
    ensures
        final(balances).wf(),
        final(balances)@ == fee_charged(old(balances)@, payer@, fee_to@, fee as nat),
        total(final(balances)@) == total(old(balances)@),
{
    if fee > 0 {
        move_balance(balances, payer, fee_to, fee);
    }
}

impl Ledger {
    /// The stores are well formed and the balances sum to the total supply.
    pub closed spec fn wf(&self) -> bool {
        &&& self.balances.wf()
        &&& self.allowances.wf()
        &&& self.history.wf()
        &&& total(self.balances@) == self.metadata.total_supply
    }

    /// A well-formed ledger is in a valid state.
    pub proof fn lemma_valid(&self)
        requires
            self.wf(),
        ensures
            valid_state(self@),
    {
        let s = self.balances.pairs();
        self.balances.lemma_view();
        assert forall|k: Seq<u8>| #[trigger] self@.balances.contains_key(k) implies self@.balances[k] > 0 by {
            let j = choose|j: int| 0 <= j < s.len() && s[j].0 == k;
            crate::amounts::lemma_map_of_at(s, j);
        }
        self.allowances.lemma_valid();
    }

    /// A ledger whose owner holds the whole initial supply; the genesis is
    /// recorded as a mint to the owner at index 0.
    pub fn init(metadata: Metadata, now: u64) -> (r: Ledger)
        ensures
            r.wf(),
            conserved(r@),
            r@ == (LedgerView {
                metadata: metadata@,
                balances: stored(Map::empty(), metadata@.owner, metadata@.total_supply as nat),
                allowances: MatrixView::empty(),
                history: seq![
                    record_of(
                        metadata@.owner,
                        Operation::Mint,
                        None,
                        Some(metadata@.owner),
                        metadata@.total_supply,
                        0,
                        0,
                        now,
                    ),
                ],
            }),
    {
        let mut balances = AmountMap::new();
        balances.set(&metadata.owner, metadata.total_supply);
        let mut history = History::new();
        history.append(
            Some(metadata.owner.clone()),
            Operation::Mint,
            None,
            Some(metadata.owner.clone()),
            metadata.total_supply,
            0,
            now,
        );
        let r = Ledger { metadata, balances, allowances: AllowanceMatrix::new(), history };
        proof {
            assert(r@.history =~= seq![
                record_of(
                    r@.metadata.owner,
                    Operation::Mint,
                    None,
                    Some(r@.metadata.owner),
                    r@.metadata.total_supply,
                    0,
                    0,
                    now,
                ),
            ]);
        }
        r
    }

    /// Moves `value` from the caller to `to`, after the caller pays the fee.
    pub fn transfer(&mut self, caller: &Account, to: &Account, value: u64, now: u64) -> (r: TxReceipt)
        requires
            old(self).wf(),
        ensures
            final(self).wf(),
            conserved(final(self)@),
            r == transfer_receipt(old(self)@, caller@, value),
            r is Err ==> final(self)@ == old(self)@,
            r is Ok ==> final(self)@ == transferred(old(self)@, caller@, to@, value, now),
    {
        let fee = self.metadata.fee;
        let bal = self.balances.get(caller);
        if bal < value || bal - value < fee {
            return Err(TxError::InsufficientBalance);
        }
        charge_fee(&mut self.balances, caller, &self.metadata.fee_to, fee);
        move_balance(&mut self.balances, caller, to, value);
        let index = self.history.append(
            Some(caller.clone()),
            Operation::Transfer,
            Some(caller.clone()),
            Some(to.clone()),
            value,
            fee,
            now,
        );
        Ok(index)
    }

    /// The caller, as spender, moves `value` from `from` to `to`; `from` pays
    /// the fee, and the allowance shrinks by `value + fee`.
    pub fn transfer_from(&mut self, caller: &Account, from: &Account, to: &Account, value: u64, now: u64) -> (r: TxReceipt)
        requires
            old(self).wf(),
        ensures
            final(self).wf(),
            conserved(final(self)@),
            r == if allowance_of(old(self)@.allowances, from@, caller@) < value + old(self)@.metadata.fee {
                Err(TxError::InsufficientAllowance)
            } else if balance_in(old(self)@, from@) < value + old(self)@.metadata.fee {
                Err(TxError::InsufficientBalance)
            } else {
                Ok(old(self)@.history.len() as usize)
            },
            r is Err ==> final(self)@ == old(self)@,
            r is Ok ==> allowance_of(final(self)@.allowances, from@, caller@) == allowance_of(
                old(self)@.allowances,
                from@,
                caller@,
            ) - value - old(self)@.metadata.fee,
            r is Ok ==> final(self)@ == (LedgerView {
                balances: moved(
                    fee_charged(
                        old(self)@.balances,
                        from@,
                        old(self)@.metadata.fee_to,
                        old(self)@.metadata.fee as nat,
                    ),
                    from@,
                    to@,
                    value as nat,
                ),
                allowances: approved(
                    old(self)@.allowances,
                    from@,
                    caller@,
                    (allowance_of(old(self)@.allowances, from@, caller@) - value - old(self)@.metadata.fee) as nat,
                ),
                history: old(self)@.history.push(
                    record_of(
                        caller@,
                        Operation::TransferFrom,
                        Some(from@),
                        Some(to@),
                        value,
                        old(self)@.metadata.fee,
                        old(self)@.history.len() as int,
                        now,
                    ),
                ),
                ..old(self)@
            }),
    {
        let fee = self.metadata.fee;
        let allowed = self.allowances.get(from, caller);
        if allowed < value || allowed - value < fee {
            return Err(TxError::InsufficientAllowance);
        }
        let bal = self.balances.get(from);
        if bal < value || bal - value < fee {
            return Err(TxError::InsufficientBalance);
        }
        charge_fee(&mut self.balances, from, &self.metadata.fee_to, fee);
        move_balance(&mut self.balances, from, to, value);
        self.allowances.set(from, caller, allowed - value - fee);
        let index = self.history.append(
            Some(caller.clone()),
            Operation::TransferFrom,
            Some(from.clone()),
            Some(to.clone()),
            value,
            fee,
            now,
        );
        Ok(index)
    }

    /// The caller pays the fee and lets `spender` move up to `value + fee` of
    /// its balance, replacing any earlier allowance.
    pub fn approve(&mut self, caller: &Account, spender: &Account, value: u64, now: u64) -> (r: TxReceipt)
        requires
            old(self).wf(),
        ensures
            final(self).wf(),
            conserved(final(self)@),
            r == if balance_in(old(self)@, caller@) < old(self)@.metadata.fee {
                Err(TxError::InsufficientBalance)
            } else if value + old(self)@.metadata.fee > u64::MAX {
                Err(TxError::Overflow)
            } else {
                Ok(old(self)@.history.len() as usize)
            },
            r is Err ==> final(self)@ == old(self)@,
            r is Ok ==> final(self)@ == (LedgerView {
                balances: fee_charged(
                    old(self)@.balances,
                    caller@,
                    old(self)@.metadata.fee_to,
                    old(self)@.metadata.fee as nat,
                ),
                allowances: approved(
                    old(self)@.allowances,
                    caller@,
                    spender@,
                    (value + old(self)@.metadata.fee) as nat,
                ),
                history: old(self)@.history.push(
                    record_of(
                        caller@,
                        Operation::Approve,
                        Some(caller@),
                        Some(spender@),
                        (value + old(self)@.metadata.fee) as u64,
                        old(self)@.metadata.fee,
                        old(self)@.history.len() as int,
                        now,
                    ),
                ),
                ..old(self)@
            }),
    {
        let fee = self.metadata.fee;
        let bal = self.balances.get(caller);
        if bal < fee {
            return Err(TxError::InsufficientBalance);
        }
        if value > u64::MAX - fee {
            return Err(TxError::Overflow);
        }
        charge_fee(&mut self.balances, caller, &self.metadata.fee_to, fee);
        let v = value + fee;
        self.allowances.set(caller, spender, v);
        let index = self.history.append(
            Some(caller.clone()),
            Operation::Approve,
            Some(caller.clone()),
            Some(spender.clone()),
            v,
            fee,
            now,
        );
        Ok(index)
    }

    /// The owner of a mintable token creates `value` new tokens for `to`.
    pub fn mint(&mut self, caller: &Account, to: &Account, value: u64, now: u64) -> (r: TxReceipt)
        requires
            old(self).wf(),
        ensures
            final(self).wf(),
            conserved(final(self)@),
            r == if !old(self)@.metadata.mintable || caller@ != old(self)@.metadata.owner {
                Err(TxError::Unauthorized)
            } else if old(self)@.metadata.total_supply + value > u64::MAX
                || balance_in(old(self)@, to@) + value > u64::MAX {
                Err(TxError::Overflow)
            } else {
                Ok(old(self)@.history.len() as usize)
            },
            r is Err ==> final(self)@ == old(self)@,
            r is Ok ==> final(self)@ == (LedgerView {
                metadata: MetadataView {
                    total_supply: (old(self)@.metadata.total_supply + value) as u64,
                    ..old(self)@.metadata
                },
                balances: stored(old(self)@.balances, to@, (balance_in(old(self)@, to@) + value) as nat),
                history: old(self)@.history.push(
                    record_of(
                        caller@,
                        Operation::Mint,
                        None,
                        Some(to@),
                        value,
                        0,
                        old(self)@.history.len() as int,
                        now,
                    ),
                ),
                ..old(self)@
            }),
    {
        if !self.metadata.mintable || !caller.same_as(&self.metadata.owner) {
            return Err(TxError::Unauthorized);
        }
        let supply = self.metadata.total_supply;
        let bal = self.balances.get(to);
        if value > u64::MAX - supply || value > u64::MAX - bal {
            return Err(TxError::Overflow);
        }
        self.balances.set(to, bal + value);
        self.metadata.total_supply = supply + value;
        let index = self.history.append(
            Some(caller.clone()),
            Operation::Mint,
            None,
            Some(to.clone()),
            value,
            0,
            now,
        );
        Ok(index)
    }

    /// Destroys `value` tokens of `from`, at the request of `from` itself or of
    /// the owner, when the token is burnable.
    pub fn burn(&mut self, caller: &Account, from: &Account, value: u64, now: u64) -> (r: TxReceipt)
        requires
            old(self).wf(),
        ensures
            final(self).wf(),
            conserved(final(self)@),
            r == if !old(self)@.metadata.burnable || (caller@ != from@ && caller@
                != old(self)@.metadata.owner) {
                Err(TxError::Unauthorized)
            } else if balance_in(old(self)@, from@) < value {
                Err(TxError::InsufficientBalance)
            } else {
                Ok(old(self)@.history.len() as usize)
            },
            r is Err ==> final(self)@ == old(self)@,
            r is Ok ==> final(self)@ == (LedgerView {
                metadata: MetadataView {
                    total_supply: (old(self)@.metadata.total_supply - value) as u64,
                    ..old(self)@.metadata
                },
                balances: stored(old(self)@.balances, from@, (balance_in(old(self)@, from@) - value) as nat),
                history: old(self)@.history.push(
                    record_of(
                        caller@,
                        Operation::Burn,
                        Some(from@),
                        None,
                        value,
                        0,
                        old(self)@.history.len() as int,
                        now,
                    ),
                ),
                ..old(self)@
            }),
    {
        if !self.metadata.burnable || (!caller.same_as(from) && !caller.same_as(&self.metadata.owner)) {
            return Err(TxError::Unauthorized);
        }
        let bal = self.balances.get(from);
        if bal < value {
            return Err(TxError::InsufficientBalance);
        }
        proof {
            self.balances.lemma_amount_le_sum(from@);
            self.balances.lemma_sum_is_total();
        }
        self.balances.set(from, bal - value);
        self.metadata.total_supply = self.metadata.total_supply - value;
        let index = self.history.append(
            Some(caller.clone()),
            Operation::Burn,
            Some(from.clone()),
            None,
            value,
            0,
            now,
        );
        Ok(index)
    }

    /// The owner replaces the logo.
    pub fn set_logo(&mut self, caller: &Account, logo: String) -> (r: Result<(), TxError>)
        requires
            old(self).wf(),
        ensures
            final(self).wf(),
            conserved(final(self)@),
            r == if caller@ == old(self)@.metadata.owner { Ok(()) } else { Err(TxError::Unauthorized) },
            r is Err ==> final(self)@ == old(self)@,
            r is Ok ==> final(self)@ == (LedgerView {
                metadata: MetadataView { logo: logo@, ..old(self)@.metadata },
                ..old(self)@
            }),
    {
        if !caller.same_as(&self.metadata.owner) {
            return Err(TxError::Unauthorized);
        }
        self.metadata.logo = logo;
        Ok(())
    }

    /// The owner replaces the fee.
    pub fn set_fee(&mut self, caller: &Account, fee: u64) -> (r: Result<(), TxError>)
        requires
            old(self).wf(),
        ensures
            final(self).wf(),
            conserved(final(self)@),
            r == if caller@ == old(self)@.metadata.owner { Ok(()) } else { Err(TxError::Unauthorized) },
            r is Err ==> final(self)@ == old(self)@,
            r is Ok ==> final(self)@ == (LedgerView {
                metadata: MetadataView { fee, ..old(self)@.metadata },
                ..old(self)@
            }),
    {
        if !caller.same_as(&self.metadata.owner) {
            return Err(TxError::Unauthorized);
        }
        self.metadata.fee = fee;
        Ok(())
    }

    /// The owner replaces the account that receives fees.
    pub fn set_fee_to(&mut self, caller: &Account, fee_to: Account) -> (r: Result<(), TxError>)
        requires
            old(self).wf(),
        ensures
            final(self).wf(),
            conserved(final(self)@),
            r == if caller@ == old(self)@.metadata.owner { Ok(()) } else { Err(TxError::Unauthorized) },
            r is Err ==> final(self)@ == old(self)@,
            r is Ok ==> final(self)@ == (LedgerView {
                metadata: MetadataView { fee_to: fee_to@, ..old(self)@.metadata },
                ..old(self)@
            }),
    {
        if !caller.same_as(&self.metadata.owner) {
            return Err(TxError::Unauthorized);
        }
        self.metadata.fee_to = fee_to;
        Ok(())
    }

    /// The owner hands ownership to another account.
    pub fn set_owner(&mut self, caller: &Account, owner: Account) -> (r: Result<(), TxError>)
        requires
            old(self).wf(),
        ensures
            final(self).wf(),
            conserved(final(self)@),
            r == if caller@ == old(self)@.metadata.owner { Ok(()) } else { Err(TxError::Unauthorized) },
            r is Err ==> final(self)@ == old(self)@,
            r is Ok ==> final(self)@ == (LedgerView {
                metadata: MetadataView { owner: owner@, ..old(self)@.metadata },
                ..old(self)@
            }),
    {
        if !caller.same_as(&self.metadata.owner) {
            return Err(TxError::Unauthorized);
        }
        self.metadata.owner = owner;
        Ok(())
    }

    /// Captures the whole state, history included, as a snapshot.
    pub fn export(&self) -> (r: Snapshot)
        requires
            self.wf(),
        ensures
            exported_from(r, self@),
    {
        let balances = self.balances.to_vec();
        let allowances = self.allowances.to_rows();
        let history = self.history.to_vec();
        proof {
            self.balances.lemma_view();
            self.allowances.lemma_view();
            self.balances.lemma_sum_is_total();
            lemma_total(pairs_of(balances@));
        }
        Snapshot {
            version: SNAPSHOT_VERSION,
            metadata: self.metadata.clone(),
            balances,
            allowances,
            history,
        }
    }

    /// A ledger in the state that a snapshot describes; a snapshot that is
    /// not valid is refused as `Malformed` and nothing is built from it.
    pub fn import(s: Snapshot) -> (r: Result<Ledger, TxError>)
        ensures
            imported_as(s, r),
    {
        if s.version != SNAPSHOT_VERSION {
            return Err(TxError::Malformed);
        }
        let balances = match AmountMap::from_entries(copy_entries(&s.balances)) {
            Some(m) => m,
            None => {
                return Err(TxError::Malformed);
            },
        };
        proof {
            balances.lemma_view();
            balances.lemma_sum_is_total();
        }
        if !balances.sum_equals(s.metadata.total_supply) {
            return Err(TxError::Malformed);
        }
        let allowances = match AllowanceMatrix::from_rows(&s.allowances) {
            Some(m) => m,
            None => {
                return Err(TxError::Malformed);
            },
        };
        proof {
            allowances.lemma_view();
        }
        let history = match History::from_records(s.history) {
            Some(h) => h,
            None => {
                return Err(TxError::Malformed);
            },
        };
        Ok(Ledger { metadata: s.metadata, balances, allowances, history })
    }

    /// The rows of the allowance matrix, in storage order.
    pub closed spec fn allowance_rows(&self) -> RowsView {
        self.allowances.rows()
    }

    /// The matrix is what its rows describe.
    pub proof fn lemma_allowance_rows(&self)
        ensures
            self@.allowances == crate::allowances::matrix_of(self.allowance_rows()),
    {
        self.allowances.lemma_view();
    }

    /// The balance of `a`; zero for an account never seen.
    pub fn balance_of(&self, a: &Account) -> (r: u64)
        requires
            self.wf(),
        ensures
            r == balance_in(self@, a@),
    {
        self.balances.get(a)
    }

    /// How much `spender` may still move out of `owner`'s balance.
    pub fn allowance(&self, owner: &Account, spender: &Account) -> (r: u64)
        requires
            self.wf(),
        ensures
            r == allowance_of(self@.allowances, owner@, spender@),
    {
        self.allowances.get(owner, spender)
    }

    pub fn name(&self) -> (r: String)
        ensures
            r@ == self@.metadata.name,
    {
        self.metadata.name.clone()
    }

    pub fn symbol(&self) -> (r: String)
        ensures
            r@ == self@.metadata.symbol,
    {
        self.metadata.symbol.clone()
    }

    pub fn get_logo(&self) -> (r: String)
        ensures
            r@ == self@.metadata.logo,
    {
        self.metadata.logo.clone()
    }

    pub fn decimals(&self) -> (r: u8)
        ensures
            r == self@.metadata.decimals,
    {
        self.metadata.decimals
    }

    pub fn total_supply(&self) -> (r: u64)
        ensures
            r == self@.metadata.total_supply,
    {
        self.metadata.total_supply
    }

    pub fn owner(&self) -> (r: Account)
        ensures
            r@ == self@.metadata.owner,
    {
        self.metadata.owner.clone()
    }

    /// A copy of the token descriptor.
    pub fn get_metadata(&self) -> (r: Metadata)
        ensures
            r@ == self@.metadata,
    {
        self.metadata.clone()
    }

    /// The number of records in the history log.
    pub fn history_size(&self) -> (r: usize)
        ensures
            r == self@.history.len(),
    {
        self.history.len()
    }

    /// The record at `index`.
    pub fn get_transaction(&self, index: usize) -> (r: Result<OpRecord, TxError>)
        requires
            self.wf(),
        ensures
            r is Ok <==> index < self@.history.len(),
            r matches Ok(x) ==> x@ == self@.history[index as int] && x.index == index,
            r matches Err(e) ==> e == TxError::NotFound,
    {
        match self.history.get(index) {
            Some(x) => {
                proof {
                    assert(self.history@[index as int].index == index);
                }
                Ok(x)
            },
            None => Err(TxError::NotFound),
        }
    }

    /// The records `[start, start + limit)`, cut at the end of the log.
    pub fn get_transactions(&self, start: usize, limit: usize) -> (r: Vec<OpRecord>)
        ensures
            views_of(r@) == window(self@.history, start as int, limit as int),
    {
        self.history.range(start, limit)
    }

    /// Every record, in order.
    pub fn all_history(&self) -> (r: Vec<OpRecord>)
        ensures
            views_of(r@) == self@.history,
    {
        self.history.to_vec()
    }

    /// The records in which `a` is caller, sender or receiver.
    pub fn get_history_by_account(&self, a: &Account) -> (r: Vec<OpRecord>)
        ensures
            views_of(r@) == involving(self@.history, a@),
    {
        let n = self.history.count_involving(a);
        let r = self.history.page_involving(a, 0, n);
        proof {
            let s = involving(self@.history, a@);
            assert(s.subrange(0, s.len() as int) =~= s);
        }
        r
    }

    /// The number of records in which `a` takes part.
    pub fn get_user_transaction_amount(&self, a: &Account) -> (r: usize)
        ensures
            r == involving(self@.history, a@).len(),
    {
        self.history.count_involving(a)
    }

    /// The records in which `a` takes part, `[start, start + limit)` of them,
    /// counted among those records only.
    pub fn get_user_transactions(&self, a: &Account, start: usize, limit: usize) -> (r: Vec<OpRecord>)
        ensures
            views_of(r@) == window(involving(self@.history, a@), start as int, limit as int),
    {
        self.history.page_involving(a, start, limit)
    }

    /// The number of (owner, spender) allowance entries, or `usize::MAX` if
    /// there were more.
    pub fn get_allowance_size(&self) -> (r: usize)
        requires
            self.wf(),
        ensures
            r == if entry_count(self.allowance_rows()) <= usize::MAX {
                entry_count(self.allowance_rows())
            } else {
                usize::MAX as int
            },
    {
        self.allowances.size()
    }

    /// The allowances that `who` has granted, as (spender, amount) entries.
    pub fn get_user_approvals(&self, who: &Account) -> (r: Vec<(Account, u64)>)
        requires
            self.wf(),
        ensures
            valid_pairs(pairs_of(r@)),
            map_of(pairs_of(r@)) == row_of(self@.allowances, who@),
    {
        self.allowances.approvals_of(who)
    }

    /// A summary of the token; `cycles` is what the host reports holding.
    pub fn get_token_info(&self, cycles: u64) -> (r: TokenInfo)
        requires
            self.wf(),
        ensures
            r.metadata@ == self@.metadata,
            r.fee_to@ == self@.metadata.fee_to,
            r.history_size == self@.history.len(),
            r.deploy_time == if self@.history.len() > 0 { self@.history[0].timestamp } else { 0 },
            r.holder_number == self@.balances.dom().len(),
            r.cycles == cycles,
    {
        let deploy_time = match self.history.get(0) {
            Some(x) => x.timestamp,
            None => 0,
        };
        TokenInfo {
            metadata: self.metadata.clone(),
            fee_to: self.metadata.fee_to.clone(),
            history_size: self.history.len(),
            deploy_time,
            holder_number: self.balances.len(),
            cycles,
        }
    }

    /// The holders `[start, start + limit)` in rank order: larger balance
    /// first, equal balances by account bytes.
    pub fn get_holders(&self, start: usize, limit: usize) -> (r: Vec<(Account, u64)>)
        requires
            self.wf(),
        ensures
            pairs_of(r@) == window(ranking_of(self@.balances), start as int, limit as int),
    {
        proof {
            self.balances.lemma_view();
        }
        let mut ranked = rank_entries(self.balances.entries());
        let ghost t = ranked@;
        let n = ranked.len();
        let lo = if start < n { start } else { n };
        let hi = if limit < n - lo { lo + limit } else { n };
        let mut tail = ranked.split_off(lo);
        tail.truncate(hi - lo);
        proof {
            assert(tail@ =~= t.subrange(lo as int, hi as int));
            assert(pairs_of(tail@) =~= pairs_of(t).subrange(lo as int, hi as int));
        }
        tail
    }
}

} // verus!
