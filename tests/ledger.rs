use token_ledger::account::{is_authenticating, Account};
use token_ledger::history::{OpRecord, Operation};
use token_ledger::ledger::{Ledger, TxError};
use token_ledger::metadata::Metadata;
use token_ledger::notify::{on_wants_notify, transfer, NotifyStep, TransactionNotification};
use token_ledger::snapshot::{Snapshot, SNAPSHOT_VERSION};

const T0: u64 = 7;

fn acc(b: u8) -> Account {
    Account::new(vec![b])
}

fn ledger(owner: &Account, supply: u64, fee: u64, fee_to: &Account) -> Ledger {
    Ledger::init(
        Metadata {
            name: String::from("token"),
            symbol: String::from("TKN"),
            total_supply: supply,
            owner: owner.clone(),
            fee,
            fee_to: fee_to.clone(),
            ..Metadata::default()
        },
        T0,
    )
}

fn holders_sum(l: &Ledger) -> u64 {
    l.get_holders(0, usize::MAX).iter().map(|e| e.1).sum()
}

#[test]
fn scenario_basic_transfer() {
    let (a, b, f) = (acc(1), acc(2), acc(9));
    let mut l = ledger(&a, 1000, 1, &f);
    assert_eq!(l.transfer(&a, &b, 10, 8), Ok(1));
    assert_eq!(l.balance_of(&a), 989);
    assert_eq!(l.balance_of(&b), 10);
    assert_eq!(l.balance_of(&f), 1);
    assert_eq!(l.history_size(), 2);
}

#[test]
fn scenario_insufficient_balance() {
    let (a, b, f) = (acc(1), acc(2), acc(9));
    let mut l = ledger(&a, 1000, 0, &f);
    l.transfer(&a, &b, 10, 8).unwrap();
    let size = l.history_size();
    assert_eq!(l.transfer(&b, &a, 1_000_000, 9), Err(TxError::InsufficientBalance));
    assert_eq!(l.balance_of(&b), 10);
    assert_eq!(l.history_size(), size);
}

#[test]
fn scenario_approve_transfer_from() {
    let (a, c, d, f) = (acc(1), acc(3), acc(4), acc(9));
    let mut l = ledger(&a, 1000, 5, &f);
    l.approve(&a, &c, 100, 8).unwrap();
    assert_eq!(l.allowance(&a, &c), 105);
    assert!(l.transfer_from(&c, &a, &d, 100, 9).is_ok());
    assert_eq!(l.allowance(&a, &c), 0);
    assert_eq!(l.get_user_approvals(&a).len(), 0);
    assert_eq!(l.balance_of(&d), 100);
    assert_eq!(l.balance_of(&a), 1000 - 5 - 105);
    assert_eq!(l.balance_of(&f), 10);
    let rec = l.get_transaction(2).unwrap();
    assert_eq!(rec.op, Operation::TransferFrom);
    assert_eq!(rec.caller, Some(c.clone()));
    assert_eq!(rec.from, Some(a.clone()));
    assert_eq!(rec.to, Some(d.clone()));
    assert_eq!(rec.amount, 100);
    assert_eq!(rec.fee, 5);
}

#[test]
fn scenario_unauthorized_mint() {
    let (a, x, f) = (acc(1), acc(5), acc(9));
    let mut l = ledger(&a, 1000, 0, &f);
    assert_eq!(l.mint(&x, &x, 1, 8), Err(TxError::Unauthorized));
    assert_eq!(l.total_supply(), 1000);
    let mut m = Ledger::init(
        Metadata { total_supply: 1000, owner: a.clone(), mintable: false, ..Metadata::default() },
        T0,
    );
    assert_eq!(m.mint(&a, &x, 1, 8), Err(TxError::Unauthorized));
    assert_eq!(m.total_supply(), 1000);
    assert_eq!(m.history_size(), 1);
}

#[test]
fn conservation_over_a_sequence() {
    let (a, b, c, f) = (acc(1), acc(2), acc(3), acc(9));
    let mut l = ledger(&a, 1000, 2, &f);
    l.transfer(&a, &b, 100, 8).unwrap();
    assert_eq!(holders_sum(&l), l.total_supply());
    l.mint(&a, &c, 50, 9).unwrap();
    assert_eq!(l.total_supply(), 1050);
    assert_eq!(holders_sum(&l), l.total_supply());
    l.approve(&b, &c, 20, 10).unwrap();
    l.transfer_from(&c, &b, &a, 20, 11).unwrap();
    assert_eq!(holders_sum(&l), l.total_supply());
    l.burn(&b, &b, 10, 12).unwrap();
    assert_eq!(l.total_supply(), 1040);
    assert_eq!(holders_sum(&l), l.total_supply());
    l.burn(&a, &c, 50, 13).unwrap();
    assert_eq!(l.balance_of(&c), 0);
    assert_eq!(holders_sum(&l), l.total_supply());
}

#[test]
fn failures_change_nothing() {
    let (a, b, c, f) = (acc(1), acc(2), acc(3), acc(9));
    let mut l = ledger(&a, 1000, 1, &f);
    l.approve(&a, &c, 10, 8).unwrap();
    let before = l.export();
    assert_eq!(l.transfer(&b, &a, 1, 9), Err(TxError::InsufficientBalance));
    assert_eq!(l.transfer_from(&c, &a, &b, 50, 9), Err(TxError::InsufficientAllowance));
    assert_eq!(l.approve(&b, &c, 5, 9), Err(TxError::InsufficientBalance));
    assert_eq!(l.approve(&a, &c, u64::MAX, 9), Err(TxError::Overflow));
    assert_eq!(l.mint(&b, &b, 5, 9), Err(TxError::Unauthorized));
    assert_eq!(l.mint(&a, &b, u64::MAX, 9), Err(TxError::Overflow));
    assert_eq!(l.burn(&b, &a, 5, 9), Err(TxError::Unauthorized));
    assert_eq!(l.burn(&a, &a, 5000, 9), Err(TxError::InsufficientBalance));
    let after = l.export();
    assert_eq!(after.balances.len(), before.balances.len());
    for e in before.balances.iter() {
        assert_eq!(l.balance_of(&e.0), e.1);
    }
    assert_eq!(l.allowance(&a, &c), 11);
    assert_eq!(l.get_allowance_size(), 1);
    assert_eq!(after.history.len(), before.history.len());
    assert_eq!(l.total_supply(), 1000);
}

#[test]
fn history_grows_by_one() {
    let (a, b, f) = (acc(1), acc(2), acc(9));
    let mut l = ledger(&a, 1000, 0, &f);
    assert_eq!(l.transfer(&a, &b, 1, 8), Ok(1));
    assert_eq!(l.approve(&a, &b, 1, 9), Ok(2));
    assert_eq!(l.mint(&a, &b, 1, 10), Ok(3));
    assert_eq!(l.burn(&b, &b, 1, 11), Ok(4));
    assert_eq!(l.transfer_from(&b, &a, &b, 1, 12), Ok(5));
    assert_eq!(l.history_size(), 6);
    for i in 0..6 {
        assert_eq!(l.get_transaction(i).unwrap().index, i);
    }
    assert_eq!(l.get_transaction(6).unwrap_err(), TxError::NotFound);
    let ops: Vec<Operation> = l.all_history().iter().map(|r| r.op).collect();
    assert_eq!(
        ops,
        vec![
            Operation::Mint,
            Operation::Transfer,
            Operation::Approve,
            Operation::Mint,
            Operation::Burn,
            Operation::TransferFrom
        ]
    );
    let mint = l.get_transaction(3).unwrap();
    assert_eq!(mint.from, None);
    assert_eq!(mint.to, Some(b.clone()));
    let burn = l.get_transaction(4).unwrap();
    assert_eq!(burn.from, Some(b.clone()));
    assert_eq!(burn.to, None);
    assert_eq!(burn.timestamp, 11);
}

#[test]
fn allowance_never_underflows() {
    let (a, c, d, f) = (acc(1), acc(3), acc(4), acc(9));
    let mut l = ledger(&a, 1000, 1, &f);
    l.approve(&a, &c, 10, 8).unwrap();
    assert_eq!(l.allowance(&a, &c), 11);
    assert_eq!(l.transfer_from(&c, &a, &d, 11, 9), Err(TxError::InsufficientAllowance));
    assert_eq!(l.allowance(&a, &c), 11);
    assert_eq!(l.balance_of(&d), 0);
    l.transfer_from(&c, &a, &d, 4, 10).unwrap();
    assert_eq!(l.allowance(&a, &c), 6);
    assert_eq!(l.transfer_from(&c, &a, &d, 6, 11), Err(TxError::InsufficientAllowance));
    l.transfer_from(&c, &a, &d, 5, 12).unwrap();
    assert_eq!(l.allowance(&a, &c), 0);
    assert_eq!(l.get_allowance_size(), 0);
}

#[test]
fn snapshot_round_trip() {
    let (a, b, c, f) = (acc(1), acc(2), acc(3), acc(9));
    let mut l = ledger(&a, 1000, 1, &f);
    l.transfer(&a, &b, 100, 8).unwrap();
    l.approve(&a, &c, 30, 9).unwrap();
    l.approve(&b, &a, 7, 10).unwrap();
    let snap = l.export();
    assert_eq!(snap.version, SNAPSHOT_VERSION);
    let r = Ledger::import(snap).unwrap();
    for x in [&a, &b, &c, &f] {
        assert_eq!(r.balance_of(x), l.balance_of(x));
        for y in [&a, &b, &c, &f] {
            assert_eq!(r.allowance(x, y), l.allowance(x, y));
        }
    }
    assert_eq!(r.get_metadata().name, l.get_metadata().name);
    assert_eq!(r.total_supply(), l.total_supply());
    assert_eq!(r.owner(), l.owner());
    assert_eq!(r.history_size(), l.history_size());
    assert_eq!(r.get_transaction(2).unwrap().amount, 31);
    assert_eq!(r.get_holders(0, 10), l.get_holders(0, 10));
    assert_eq!(r.get_holders(0, 10).len(), 3);
}

fn valid_snapshot() -> Snapshot {
    let (a, b, f) = (acc(1), acc(2), acc(9));
    let mut l = ledger(&a, 1000, 0, &f);
    l.transfer(&a, &b, 10, 8).unwrap();
    l.approve(&a, &b, 3, 9).unwrap();
    l.export()
}

#[test]
fn import_rejects_malformed_snapshots() {
    assert!(Ledger::import(valid_snapshot()).is_ok());

    let mut s = valid_snapshot();
    s.version = SNAPSHOT_VERSION + 1;
    assert_eq!(Ledger::import(s).err(), Some(TxError::Malformed));

    let mut s = valid_snapshot();
    s.balances.push((acc(1), 1));
    s.metadata.total_supply += 1;
    assert_eq!(Ledger::import(s).err(), Some(TxError::Malformed));

    let mut s = valid_snapshot();
    s.balances.push((acc(7), 0));
    assert_eq!(Ledger::import(s).err(), Some(TxError::Malformed));

    let mut s = valid_snapshot();
    s.metadata.total_supply += 1;
    assert_eq!(Ledger::import(s).err(), Some(TxError::Malformed));

    let mut s = valid_snapshot();
    s.allowances.push((acc(5), Vec::new()));
    assert_eq!(Ledger::import(s).err(), Some(TxError::Malformed));

    let mut s = valid_snapshot();
    s.allowances.push((acc(1), vec![(acc(3), 4)]));
    assert_eq!(Ledger::import(s).err(), Some(TxError::Malformed));

    let mut s = valid_snapshot();
    s.history[1].index = 5;
    assert_eq!(Ledger::import(s).err(), Some(TxError::Malformed));
}

#[test]
fn zero_balances_are_removed() {
    let (a, b, f) = (acc(1), acc(2), acc(9));
    let mut l = ledger(&a, 100, 0, &f);
    l.transfer(&a, &b, 100, 8).unwrap();
    assert_eq!(l.get_token_info(0).holder_number, 1);
    assert_eq!(l.get_holders(0, 10), vec![(b.clone(), 100)]);
}

#[test]
fn self_transfer_pays_only_the_fee() {
    let (a, f) = (acc(1), acc(9));
    let mut l = ledger(&a, 100, 3, &f);
    assert_eq!(l.transfer(&a, &a, 50, 8), Ok(1));
    assert_eq!(l.balance_of(&a), 97);
    assert_eq!(l.balance_of(&f), 3);
}

#[test]
fn holders_ranked_by_balance_then_account() {
    let (a, b, c, d, f) = (acc(1), acc(2), acc(3), Account::new(vec![2, 0]), acc(9));
    let mut l = ledger(&c, 100, 0, &f);
    l.transfer(&c, &d, 20, 8).unwrap();
    l.transfer(&c, &b, 20, 8).unwrap();
    l.transfer(&c, &a, 30, 8).unwrap();
    let h = l.get_holders(0, 10);
    assert_eq!(h, vec![(a.clone(), 30), (c.clone(), 30), (b.clone(), 20), (d.clone(), 20)]);
    assert_eq!(l.get_holders(1, 2), vec![(c.clone(), 30), (b.clone(), 20)]);
    assert_eq!(l.get_holders(3, 10), vec![(d.clone(), 20)]);
    assert!(l.get_holders(4, 10).is_empty());
    assert!(l.get_holders(9, usize::MAX).is_empty());
}

#[test]
fn history_pages() {
    let (a, b, c, f) = (acc(1), acc(2), acc(3), acc(9));
    let mut l = ledger(&a, 100, 0, &f);
    l.transfer(&a, &b, 1, 8).unwrap();
    l.transfer(&a, &c, 1, 9).unwrap();
    l.transfer(&a, &b, 1, 10).unwrap();
    let page: Vec<usize> = l.get_transactions(1, 2).iter().map(|r| r.index).collect();
    assert_eq!(page, vec![1, 2]);
    assert!(l.get_transactions(4, 1).is_empty());
    assert_eq!(l.get_transactions(3, usize::MAX).len(), 1);
    assert_eq!(l.get_user_transaction_amount(&b), 2);
    let page: Vec<usize> = l.get_user_transactions(&b, 1, 5).iter().map(|r| r.index).collect();
    assert_eq!(page, vec![3]);
    let all: Vec<usize> = l.get_history_by_account(&c).iter().map(|r: &OpRecord| r.index).collect();
    assert_eq!(all, vec![2]);
    assert_eq!(l.get_user_transaction_amount(&a), 4);
    assert!(l.get_user_transactions(&a, 4, 1).is_empty());
}

#[test]
fn burn_by_holder_or_owner() {
    let (a, b, c, f) = (acc(1), acc(2), acc(3), acc(9));
    let mut l = ledger(&a, 100, 0, &f);
    l.transfer(&a, &b, 50, 8).unwrap();
    l.burn(&b, &b, 10, 9).unwrap();
    l.burn(&a, &b, 10, 10).unwrap();
    assert_eq!(l.burn(&c, &b, 1, 11), Err(TxError::Unauthorized));
    assert_eq!(l.balance_of(&b), 30);
    assert_eq!(l.total_supply(), 80);
    let mut m = Ledger::init(
        Metadata { total_supply: 10, owner: a.clone(), burnable: false, ..Metadata::default() },
        T0,
    );
    assert_eq!(m.burn(&a, &a, 1, 8), Err(TxError::Unauthorized));
}

#[test]
fn token_info_and_defaults() {
    let d = Metadata::default();
    assert_eq!(d.owner.as_bytes(), &vec![4u8]);
    assert_eq!(d.fee_to, Account::anonymous());
    assert_eq!(d.fee, 0);
    assert!(d.name.is_empty());
    let (a, f) = (acc(1), acc(9));
    let l = ledger(&a, 100, 0, &f);
    let info = l.get_token_info(55);
    assert_eq!(info.deploy_time, T0);
    assert_eq!(info.history_size, 1);
    assert_eq!(info.cycles, 55);
    assert_eq!(info.fee_to, f);
    assert_eq!(info.metadata.symbol, "TKN");
}

#[test]
fn anonymous_account_bytes() {
    assert_eq!(Account::anonymous().as_bytes(), &vec![4u8]);
    assert_ne!(Account::anonymous(), Account::new(Vec::new()));
}

#[test]
fn self_authenticating_identifiers() {
    let mut user = vec![0u8; 28];
    user.push(2);
    assert!(is_authenticating(&Account::new(user.clone())));
    user[28] = 1;
    assert!(!is_authenticating(&Account::new(user)));
    assert!(!is_authenticating(&Account::new(vec![2])));
    assert!(!is_authenticating(&Account::anonymous()));
}

#[test]
fn account_order() {
    assert!(acc(1).less_than(&acc(2)));
    assert!(!acc(2).less_than(&acc(1)));
    assert!(Account::new(vec![1]).less_than(&Account::new(vec![1, 0])));
    assert!(!acc(1).less_than(&acc(1)));
}

#[test]
fn notification_steps() {
    let (a, f) = (acc(1), acc(9));
    let canister = Account::new(vec![0, 0, 0, 0, 0, 0, 0, 1, 1, 1]);
    let mut user_bytes = vec![7u8; 28];
    user_bytes.push(2);
    let user = Account::new(user_bytes);
    let mut l = ledger(&a, 100, 0, &f);

    let (r, step) = transfer(&mut l, &a, &canister, 10, 8);
    assert_eq!(r, Ok(1));
    let n = match step {
        NotifyStep::AskWantsNotify(n) => n,
        other => panic!("unexpected step {:?}", other),
    };
    assert_eq!(n.from, a);
    assert_eq!(n.to, canister);
    assert_eq!(n.amount, 10);

    let (r, step) = transfer(&mut l, &a, &user, 10, 9);
    assert_eq!(r, Ok(2));
    assert!(matches!(step, NotifyStep::Done));

    let (r, step) = transfer(&mut l, &a, &canister, 1000, 10);
    assert_eq!(r, Err(TxError::InsufficientBalance));
    assert!(matches!(step, NotifyStep::Done));

    let note = || TransactionNotification { from: a.clone(), to: canister.clone(), amount: 10 };
    assert!(matches!(on_wants_notify(note(), Some(true)), NotifyStep::Deliver(_)));
    assert!(matches!(on_wants_notify(note(), Some(false)), NotifyStep::Done));
    assert!(matches!(on_wants_notify(note(), None), NotifyStep::Done));
    assert_eq!(l.balance_of(&canister), 10);
}
