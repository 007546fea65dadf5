//! Notifying the recipient of a transfer. The transfer is committed first;
//! the notification is a best-effort exchange with the recipient canister
//! that the host carries out step by step, and its outcome never changes
//! the committed transfer or what the caller is told.

use vstd::prelude::*;
use crate::account::{Account, is_authenticating, is_self_authenticating};
use crate::ledger::{Ledger, TxReceipt, transfer_receipt, transferred};

verus! {

/// What the recipient of a transfer is told.
#[derive(Debug)]
pub struct TransactionNotification {
    pub from: Account,
    pub to: Account,
    pub amount: u64,
}

/// The next call that the host should make to the recipient.
#[derive(Debug)]
pub enum NotifyStep {
    /// Nothing more to do.
    Done,
    /// Ask the recipient whether it wants to be notified (`wants_notify`).
    AskWantsNotify(TransactionNotification),
    /// Deliver the notification (`on_receive_transfer`).
    Deliver(TransactionNotification),
}

/// The notification carries the sender, the recipient and the amount.
pub open spec fn describes(n: TransactionNotification, from: Seq<u8>, to: Seq<u8>, amount: u64) -> bool {
    n.from@ == from && n.to@ == to && n.amount == amount
}

/// Transfers `value` from `caller` to `to`, then says whether the recipient
/// is to be asked about a notification: only after a transfer that succeeded,
/// and only for a recipient that is not a self-authenticating user.
pub fn transfer(ledger: &mut Ledger, caller: &Account, to: &Account, value: u64, now: u64) -> (r: (
    TxReceipt,
    NotifyStep,
))
    requires
        old(ledger).wf(),
    ensures
        final(ledger).wf(),
        r.0 == transfer_receipt(old(ledger)@, caller@, value),
        r.0 is Err ==> final(ledger)@ == old(ledger)@,
        r.0 is Ok ==> final(ledger)@ == transferred(old(ledger)@, caller@, to@, value, now),
        r.1 is AskWantsNotify <==> r.0 is Ok && !is_self_authenticating(to@),
        r.1 is Done <==> !(r.0 is Ok && !is_self_authenticating(to@)),
        r.1 matches NotifyStep::AskWantsNotify(n) ==> describes(n, caller@, to@, value),
{
    let receipt = ledger.transfer(caller, to, value, now);
    let step = if receipt.is_ok() && !is_authenticating(to) {
        NotifyStep::AskWantsNotify(
            TransactionNotification { from: caller.clone(), to: to.clone(), amount: value },
        )
    } else {
        NotifyStep::Done
    };
    (receipt, step)
}

/// The step after the recipient answered `wants_notify`; `None` when the call
/// failed (no such method, or not a canister). Only a recipient that said yes
/// gets the notification.
pub fn on_wants_notify(n: TransactionNotification, reply: Option<bool>) -> (r: NotifyStep)
    ensures
        r is Deliver <==> reply == Some(true),
        r is Done <==> reply != Some(true),
        r matches NotifyStep::Deliver(m) ==> describes(m, n.from@, n.to@, n.amount),
{
    match reply {
        Some(true) => NotifyStep::Deliver(n),
        _ => NotifyStep::Done,
    }
}

} // verus!
