#![allow(deprecated)]

use ic_kit::mock_principals::{alice, bob, john};
use ic_kit::Principal;
use token_ledger::account::Account;
use token_ledger::history::Operation;
use token_ledger::ledger::{Ledger, TxError};
use token_ledger::metadata::Metadata;

const CYCLES: u64 = 100_000;
const NOW: u64 = 1_640_000_000_000_000_000;

fn acct(p: Principal) -> Account {
    Account::new(p.as_slice().to_vec())
}

fn initialize_tests() -> Ledger {
    Ledger::init(
        Metadata {
            logo: String::from("logo"),
            name: String::from("token"),
            symbol: String::from("TOKEN"),
            decimals: 2,
            total_supply: 1_000,
            owner: acct(alice()),
            fee: 1,
            ..Metadata::default()
        },
        NOW,
    )
}

#[test]
fn functionality_test() {
    let mut l = initialize_tests();
    let alice = acct(alice());
    let bob = acct(bob());
    let john = acct(john());

    // initialization tests
    assert_eq!(l.balance_of(&alice), 1_000, "balanceOf did not return the correct value");
    assert_eq!(l.total_supply(), 1_000, "totalSupply did not return the correct value");
    assert_eq!(l.symbol(), String::from("TOKEN"), "symbol did not return the correct value");
    assert_eq!(l.owner(), alice, "owner did not return the correct value");
    assert_eq!(l.name(), String::from("token"), "name did not return the correct value");
    assert_eq!(l.get_logo(), String::from("logo"), "getLogo did not return the correct value");
    assert_eq!(l.decimals(), 2, "decimals did not return the correct value");
    assert_eq!(l.get_holders(0, 10).len(), 1, "get_holders returned the correct amount of holders after initialization");
    assert_eq!(l.get_transaction(0).unwrap().op, Operation::Mint, "get_transaction returnded a Mint operation");

    let token_info = l.get_token_info(CYCLES);
    assert_eq!(token_info.fee_to, Account::anonymous(), "tokenInfo.fee_to did not return the correct value");
    assert_eq!(token_info.history_size, 1, "tokenInfo.history_size did not return the correct value");
    assert!(token_info.deploy_time > 0, "tokenInfo.deploy_time did not return the correct value");
    assert_eq!(token_info.holder_number, 1, "tokenInfo.holder_number did not return the correct value");
    assert_eq!(token_info.cycles, 100_000, "tokenInfo.cycles did not return the correct value");

    let metadata = l.get_metadata();
    assert_eq!(metadata.total_supply, 1_000, "metadata.total_supply did not return the correct value");
    assert_eq!(metadata.symbol, String::from("TOKEN"), "metadata.symbol did not return the correct value");
    assert_eq!(metadata.name, String::from("token"), "metadata.name did not return the correct value");
    assert_eq!(metadata.logo, String::from("logo"), "metadata.logo did not return the correct value");
    assert_eq!(metadata.decimals, 2, "metadata.decimals did not return the correct value");
    assert_eq!(metadata.fee, 1, "metadata.fee did not return the correct value");
    assert_eq!(metadata.fee_to, Account::anonymous(), "metadata.fee_to did not return the correct value");

    // set fee test
    l.set_fee(&alice, 2).unwrap();
    assert_eq!(2, l.get_metadata().fee, "Failed to update the fee_to");

    // set fee_to test
    l.set_fee_to(&alice, john.clone()).unwrap();
    assert_eq!(john, l.get_metadata().fee_to, "Failed to set fee");
    l.set_fee_to(&alice, Account::anonymous()).unwrap();

    // set logo
    l.set_logo(&alice, String::from("new_logo")).unwrap();
    assert_eq!("new_logo", l.get_logo());

    // test transfers
    let transfer_alice_balance_expected = l.balance_of(&alice) - 10 - l.get_metadata().fee;
    let transfer_bob_balance_expected = l.balance_of(&bob) + 10;
    let transfer_john_balance_expected = l.balance_of(&john);
    let transfer_transaction_amount_expected = l.get_transactions(0, 10).len() + 1;
    let transfer_user_transaction_amount_expected = l.get_user_transaction_amount(&alice) + 1;
    l.transfer(&alice, &bob, 10, NOW).map_err(|err| println!("{:?}", err)).ok();

    assert_eq!(l.balance_of(&alice), transfer_alice_balance_expected, "Transfer did not transfer the expected amount to Alice");
    assert_eq!(l.balance_of(&bob), transfer_bob_balance_expected, "Transfer did not transfer the expected amount to Bob");
    assert_eq!(l.balance_of(&john), transfer_john_balance_expected, "Transfer did not transfer the expected amount to John");
    assert_eq!(l.get_transactions(0, 10).len(), transfer_transaction_amount_expected, "transfer operation did not produce a transaction");
    assert_eq!(l.get_user_transaction_amount(&alice), transfer_user_transaction_amount_expected, "get_user_transaction_amount returned the wrong value after a transfer");
    assert_eq!(l.get_user_transactions(&alice, 0, 10).len(), transfer_user_transaction_amount_expected, "get_user_transactions returned the wrong value after a transfer");
    assert_eq!(l.get_holders(0, 10).len(), 3, "get_holders returned the correct amount of holders after transfer");
    assert_eq!(l.get_transaction(1).unwrap().op, Operation::Transfer, "get_transaction returnded a Transfer operation");

    // test allowances
    l.approve(&alice, &bob, 100, NOW).map_err(|err| println!("{:?}", err)).ok();
    assert_eq!(l.allowance(&alice, &bob), 100 + l.get_metadata().fee, "Approve did not give the correct allowance");
    assert_eq!(l.get_allowance_size(), 1, "getAllowanceSize returns the correct value");
    assert_eq!(l.get_user_approvals(&alice).len(), 1, "getUserApprovals not returning the correct value");

    // test transfer_from
    // an allowance of Alice over Bob's balance of 5 + fee, to test transfer_from
    l.approve(&bob, &alice, 5, NOW).unwrap();
    assert_eq!(l.allowance(&bob, &alice), 5 + l.get_metadata().fee);

    let transfer_from_alice_balance_expected = l.balance_of(&alice);
    let transfer_from_bob_balance_expected = l.balance_of(&bob) - 5 - l.get_metadata().fee;
    let transfer_from_john_balance_expected = l.balance_of(&john) + 5;
    let transfer_from_transaction_amount_expected = l.get_transactions(0, 10).len() + 1;

    l.transfer_from(&alice, &bob, &john, 5, NOW).map_err(|err| println!("{:?}", err)).ok();

    assert_eq!(l.balance_of(&alice), transfer_from_alice_balance_expected, "transfer_from transferred the correct value for alice");
    assert_eq!(l.balance_of(&bob), transfer_from_bob_balance_expected, "transfer_from transferred the correct value for bob");
    assert_eq!(l.balance_of(&john), transfer_from_john_balance_expected, "transfer_from transferred the correct value for john");
    assert_eq!(l.allowance(&bob, &alice), 0, "allowance has not been spent");
    assert_eq!(l.get_transactions(0, 10).len(), transfer_from_transaction_amount_expected, "transfer_from operation did not produce a transaction");

    // Transferring more than the balance
    assert_eq!(l.transfer(&alice, &alice, 1_000_000, NOW), Err(TxError::InsufficientBalance), "alice was able to transfer more than is allowed");
    // Transferring more than the balance
    assert_eq!(l.transfer_from(&alice, &bob, &john, 1_000_000, NOW), Err(TxError::InsufficientAllowance), "alice was able to transfer more than is allowed");

    //set owner test
    l.set_owner(&alice, bob.clone()).unwrap();
    assert_eq!(bob, l.owner(), "Failed to set new owner");
}

#[test]
fn permission_tests() {
    let mut l = initialize_tests();
    let bob = acct(bob());
    let john = acct(john());

    assert_eq!(l.set_logo(&bob, String::from("forbidden")), Err(TxError::Unauthorized));
    assert_eq!(l.set_fee(&bob, 123), Err(TxError::Unauthorized));
    assert_eq!(l.set_fee_to(&bob, john), Err(TxError::Unauthorized));
    assert_eq!(l.set_owner(&bob, bob.clone()), Err(TxError::Unauthorized));
}
