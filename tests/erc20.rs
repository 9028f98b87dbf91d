use kitties::erc20::{Approval, Erc20, Erc20Event, Error, Transfer};

const ALICE: u64 = 1;
const BOB: u64 = 2;
const EVE: u64 = 5;

fn assert_transfer_event(events: &[Erc20Event], transfer_index: usize, expected_value: u128) {
    match events[transfer_index] {
        Erc20Event::Transfer(transfer) => assert_eq!(expected_value, transfer.value),
        _ => panic!("Expected a Transfer Event"),
    }
}

#[test]
fn new_works() {
    let erc20 = Erc20::new(ALICE, 100);
    assert_eq!(1, erc20.events().len());
    assert_transfer_event(erc20.events(), 0, 100);
}

#[test]
fn total_supply_works() {
    let erc20 = Erc20::new(ALICE, 100);
    assert_transfer_event(erc20.events(), 0, 100);
    assert_eq!(erc20.total_supply(), 100);
}

#[test]
fn balance_of_works() {
    let erc20 = Erc20::new(ALICE, 100);
    assert_transfer_event(erc20.events(), 0, 100);
    assert_eq!(erc20.balance_of(ALICE), 100);
    assert_eq!(erc20.balance_of(BOB), 0);
}

#[test]
fn transfer_works() {
    let mut erc20 = Erc20::new(ALICE, 100);
    assert_transfer_event(erc20.events(), 0, 100);
    assert_eq!(erc20.balance_of(BOB), 0);
    assert_eq!(erc20.transfer(ALICE, BOB, 10), Ok(()));
    assert_transfer_event(erc20.events(), 1, 10);
    assert_eq!(erc20.balance_of(BOB), 10);
}

#[test]
fn invalid_transfer_should_fail() {
    let mut erc20 = Erc20::new(ALICE, 100);
    assert_transfer_event(erc20.events(), 0, 100);
    assert_eq!(erc20.balance_of(BOB), 0);
    assert_eq!(erc20.transfer(BOB, EVE, 10), Err(Error::InsufficientBalance));
    assert_eq!(erc20.balance_of(ALICE), 100);
    assert_eq!(erc20.balance_of(BOB), 0);
    assert_eq!(erc20.balance_of(EVE), 0);
}

#[test]
fn issue_works() {
    let mut erc20 = Erc20::new(ALICE, 100);
    assert_transfer_event(erc20.events(), 0, 100);
    assert_eq!(erc20.balance_of(ALICE), 100);
    assert_eq!(erc20.issue(ALICE, 10), Ok(()));
    assert_eq!(erc20.balance_of(ALICE), 110);
}

#[test]
fn burn_works() {
    let mut erc20 = Erc20::new(ALICE, 100);
    assert_transfer_event(erc20.events(), 0, 100);
    assert_eq!(erc20.balance_of(ALICE), 100);
    assert_eq!(erc20.burn(ALICE, 10), Ok(()));
    assert_eq!(erc20.balance_of(ALICE), 90);
}

#[test]
fn transfer_from_works() {
    let mut erc20 = Erc20::new(ALICE, 100);
    assert_transfer_event(erc20.events(), 0, 100);
    assert_eq!(erc20.transfer_from(ALICE, ALICE, EVE, 10), Err(Error::InsufficientAllowance));
    assert_eq!(erc20.approve(ALICE, BOB, 10), Ok(()));
    assert_eq!(erc20.events().len(), 2);
    assert_eq!(erc20.transfer_from(BOB, ALICE, EVE, 10), Ok(()));
    assert_transfer_event(erc20.events(), 2, 10);
    assert_eq!(erc20.balance_of(EVE), 10);
}

#[test]
fn approve_records_allowance_and_event() {
    let mut erc20 = Erc20::new(ALICE, 100);
    assert_eq!(erc20.approve(ALICE, BOB, 30), Ok(()));
    assert_eq!(erc20.allowance(ALICE, BOB), 30);
    assert_eq!(erc20.allowance(BOB, ALICE), 0);
    assert_eq!(
        erc20.events()[1],
        Erc20Event::Approval(Approval { owner: ALICE, spender: BOB, value: 30 })
    );
    assert_eq!(erc20.transfer_from(BOB, ALICE, EVE, 12), Ok(()));
    assert_eq!(erc20.allowance(ALICE, BOB), 18);
    assert_eq!(erc20.balance_of(ALICE), 88);
    assert_eq!(
        erc20.events()[2],
        Erc20Event::Transfer(Transfer { from: Some(ALICE), to: Some(EVE), value: 12 })
    );
}

#[test]
fn transfer_from_without_balance_fails() {
    let mut erc20 = Erc20::new(ALICE, 100);
    assert_eq!(erc20.approve(BOB, EVE, 50), Ok(()));
    assert_eq!(erc20.transfer_from(EVE, BOB, ALICE, 20), Err(Error::InsufficientBalance));
    assert_eq!(erc20.allowance(BOB, EVE), 50);
    assert_eq!(erc20.balance_of(ALICE), 100);
}

#[test]
fn issue_by_other_account_fails() {
    let mut erc20 = Erc20::new(ALICE, 100);
    assert_eq!(erc20.issue(BOB, 10), Err(Error::InvalidIssuer));
    assert_eq!(erc20.total_supply(), 100);
}

#[test]
fn burn_more_than_balance_fails() {
    let mut erc20 = Erc20::new(ALICE, 100);
    assert_eq!(erc20.burn(BOB, 1), Err(Error::InsufficientBalance));
    assert_eq!(erc20.burn(ALICE, 101), Err(Error::InsufficientBalance));
    assert_eq!(erc20.total_supply(), 100);
    assert_eq!(erc20.burn(ALICE, 100), Ok(()));
    assert_eq!(erc20.total_supply(), 0);
    assert_eq!(
        erc20.events()[1],
        Erc20Event::Transfer(Transfer { from: Some(ALICE), to: None, value: 100 })
    );
}
