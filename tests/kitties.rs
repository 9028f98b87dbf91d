use kitties::dna::{combine_kitties, random_value};
use kitties::{combine_dna, Kitty, KittyError, KittyEvent, KittyRegistry, MemoryLedger};

const DEPOSIT_VALUE: u128 = 10;
const SEED: [u8; 32] = [7u8; 32];
const ALICE: u64 = 1;
const BOB: u64 = 2;

fn new_test_ext() -> (KittyRegistry, MemoryLedger) {
    let mut ledger = MemoryLedger::new();
    assert!(ledger.set_free_balance(1, 500));
    assert!(ledger.set_free_balance(2, 500));
    (KittyRegistry::new(DEPOSIT_VALUE, SEED), ledger)
}

#[test]
fn kitty_create_works() {
    let (mut kitties, mut ledger) = new_test_ext();
    assert_eq!(kitties.create(&mut ledger, 1), Ok(0));
}

#[test]
fn kitty_transfer_works() {
    let (mut kitties, mut ledger) = new_test_ext();
    assert_eq!(kitties.create(&mut ledger, 1), Ok(0));
    assert_eq!(kitties.transfer(&mut ledger, 1, 2, 0), Ok(()));
}

#[test]
fn kitty_transfer_fails_not_valid_kitty() {
    let (mut kitties, mut ledger) = new_test_ext();
    assert_eq!(kitties.create(&mut ledger, 1), Ok(0));
    assert_eq!(kitties.transfer(&mut ledger, 1, 3, 2), Err(KittyError::InvalidKittyId));
}

#[test]
fn kitty_transfer_fails_not_valid_owner() {
    let (mut kitties, mut ledger) = new_test_ext();
    assert_eq!(kitties.create(&mut ledger, 1), Ok(0));
    assert_eq!(kitties.transfer(&mut ledger, 2, 3, 0), Err(KittyError::NotValidOwner));
}

#[test]
fn kitty_transfer_fails_not_valid_receiver() {
    let (mut kitties, mut ledger) = new_test_ext();
    assert_eq!(kitties.create(&mut ledger, 1), Ok(0));
    assert_eq!(kitties.transfer(&mut ledger, 1, 1, 0), Err(KittyError::NotValidReceiver));
}

#[test]
fn kitty_breed_works() {
    let (mut kitties, mut ledger) = new_test_ext();
    assert_eq!(kitties.create(&mut ledger, 1), Ok(0));
    assert_eq!(kitties.create(&mut ledger, 1), Ok(1));
    assert_eq!(kitties.breed(&mut ledger, 1, 0, 1), Ok(2));
}

#[test]
fn kitty_breed_fails_not_valid_kitty() {
    let (mut kitties, mut ledger) = new_test_ext();
    assert_eq!(kitties.create(&mut ledger, 1), Ok(0));
    assert_eq!(kitties.breed(&mut ledger, 1, 3, 0), Err(KittyError::InvalidKittyId));
}

#[test]
fn kitty_breed_fails_same_parents() {
    let (mut kitties, mut ledger) = new_test_ext();
    assert_eq!(kitties.create(&mut ledger, 1), Ok(0));
    assert_eq!(kitties.breed(&mut ledger, 1, 0, 0), Err(KittyError::RequireDifferentParent));
}

#[test]
fn combine_dna_takes_bits_by_selector() {
    assert_eq!(combine_dna(0xFF, 0x00, 0x0F), 0x0F);
    assert_eq!(combine_dna(0x00, 0xFF, 0x0F), 0xF0);
    assert_eq!(combine_dna(0xAA, 0x55, 0xFF), 0xAA);
    assert_eq!(combine_dna(0xAA, 0x55, 0x00), 0x55);
    assert_eq!(combine_dna(0b1100_1010, 0b0011_0101, 0b1010_1010), 0b1001_1111);
}

#[test]
fn combine_kitties_combines_each_byte() {
    let mut a = [0u8; 16];
    let mut b = [0u8; 16];
    let mut s = [0u8; 16];
    for i in 0..16 {
        a[i] = i as u8;
        b[i] = 0xF0 | i as u8;
        s[i] = if i % 2 == 0 { 0xFF } else { 0x00 };
    }
    let child = combine_kitties(&Kitty(a), &Kitty(b), &s);
    for i in 0..16 {
        assert_eq!(child.0[i], if i % 2 == 0 { a[i] } else { b[i] });
    }
}

#[test]
fn random_value_hashes_scale_encoded_seed_material() {
    let seed = [3u8; 32];
    let mut material = seed.to_vec();
    material.extend_from_slice(&0x0102_0304_0506_0708u64.to_le_bytes());
    material.extend_from_slice(&9u32.to_le_bytes());
    let expected = sp_crypto_hashing::blake2_128(&material);
    assert_eq!(random_value(&seed, 0x0102_0304_0506_0708, 9), expected);
    assert_ne!(random_value(&seed, 0x0102_0304_0506_0708, 10), expected);
}

#[test]
fn create_allocates_consecutive_ids() {
    let (mut kitties, mut ledger) = new_test_ext();
    for expected in 0..5u32 {
        assert_eq!(kitties.kitties_count(), expected);
        assert_eq!(kitties.create(&mut ledger, ALICE), Ok(expected));
    }
    assert_eq!(kitties.kitties_count(), 5);
    assert_eq!(kitties.owned_kitties(ALICE), vec![0, 1, 2, 3, 4]);
}

#[test]
fn create_assigns_owner_and_reserves_deposit() {
    let (mut kitties, mut ledger) = new_test_ext();
    assert_eq!(kitties.create(&mut ledger, BOB), Ok(0));
    assert_eq!(kitties.kitty_owner(0), Some(BOB));
    assert_eq!(ledger.reserved_balance(BOB), DEPOSIT_VALUE);
    assert_eq!(ledger.free_balance(BOB), 500 - DEPOSIT_VALUE);
    assert_eq!(kitties.kitty_parents(0), None);
    assert_eq!(kitties.events(), &vec![KittyEvent::Created(BOB, 0)]);
    let dna = random_value(&SEED, BOB, 0);
    assert_eq!(kitties.kitties(0).unwrap().0, dna);
    assert!(kitties.kitties(1).is_none());
}

#[test]
fn create_fails_without_deposit() {
    let (mut kitties, mut ledger) = new_test_ext();
    assert_eq!(kitties.create(&mut ledger, 3), Err(KittyError::InsufficientDeposit));
    assert_eq!(kitties.kitties_count(), 0);
    assert_eq!(ledger.reserved_balance(3), 0);
    assert!(kitties.events().is_empty());
}

#[test]
fn transfer_by_non_owner_changes_nothing() {
    let (mut kitties, mut ledger) = new_test_ext();
    assert_eq!(kitties.create(&mut ledger, ALICE), Ok(0));
    assert_eq!(kitties.transfer(&mut ledger, BOB, BOB, 0), Err(KittyError::NotValidOwner));
    assert_eq!(kitties.kitty_owner(0), Some(ALICE));
    assert_eq!(kitties.owned_kitties(ALICE), vec![0]);
    assert!(kitties.owned_kitties(BOB).is_empty());
    assert_eq!(ledger.reserved_balance(ALICE), DEPOSIT_VALUE);
    assert_eq!(ledger.reserved_balance(BOB), 0);
    assert_eq!(kitties.events().len(), 1);
}

#[test]
fn transfer_fails_without_receiver_deposit() {
    let (mut kitties, mut ledger) = new_test_ext();
    assert_eq!(kitties.create(&mut ledger, ALICE), Ok(0));
    assert_eq!(kitties.transfer(&mut ledger, ALICE, 9, 0), Err(KittyError::InsufficientDeposit));
    assert_eq!(kitties.kitty_owner(0), Some(ALICE));
    assert_eq!(ledger.reserved_balance(ALICE), DEPOSIT_VALUE);
}

#[test]
fn transfer_moves_ownership_and_deposit() {
    let (mut kitties, mut ledger) = new_test_ext();
    assert_eq!(kitties.create(&mut ledger, ALICE), Ok(0));
    assert_eq!(ledger.reserved_balance(ALICE), 10);
    assert_eq!(kitties.transfer(&mut ledger, ALICE, BOB, 0), Ok(()));
    assert_eq!(ledger.reserved_balance(BOB), 10);
    assert_eq!(ledger.reserved_balance(ALICE), 0);
    assert_eq!(ledger.free_balance(ALICE), 500);
    assert_eq!(ledger.free_balance(BOB), 490);
    assert_eq!(kitties.kitty_owner(0), Some(BOB));
    assert!(kitties.owned_kitties(ALICE).is_empty());
    assert_eq!(kitties.owned_kitties(BOB), vec![0]);
    assert_eq!(kitties.events()[1], KittyEvent::Transferred(ALICE, BOB, 0));
}

#[test]
fn breed_unknown_parent_fails() {
    let (mut kitties, mut ledger) = new_test_ext();
    assert_eq!(kitties.create(&mut ledger, ALICE), Ok(0));
    assert_eq!(kitties.breed(&mut ledger, ALICE, 0, 1), Err(KittyError::InvalidKittyId));
    assert_eq!(kitties.breed(&mut ledger, ALICE, 5, 5), Err(KittyError::InvalidKittyId));
    assert_eq!(kitties.kitties_count(), 1);
}

#[test]
fn breed_fails_without_deposit() {
    let (mut kitties, mut ledger) = new_test_ext();
    assert_eq!(kitties.create(&mut ledger, ALICE), Ok(0));
    assert_eq!(kitties.create(&mut ledger, ALICE), Ok(1));
    assert_eq!(kitties.breed(&mut ledger, 4, 0, 1), Err(KittyError::InsufficientDeposit));
    assert_eq!(kitties.kitties_count(), 2);
    assert!(kitties.kitty_children(0).is_empty());
    assert!(kitties.kitty_partners(0).is_empty());
}

#[test]
fn breed_records_genealogy_and_deposit() {
    let (mut kitties, mut ledger) = new_test_ext();
    assert_eq!(kitties.create(&mut ledger, ALICE), Ok(0));
    assert_eq!(kitties.create(&mut ledger, ALICE), Ok(1));
    assert_eq!(kitties.breed(&mut ledger, ALICE, 0, 1), Ok(2));
    assert_eq!(kitties.kitty_parents(2), Some((0, 1)));
    assert!(kitties.kitty_children(0).contains(&2));
    assert!(kitties.kitty_children(1).contains(&2));
    assert!(kitties.kitty_partners(0).contains(&1));
    assert!(kitties.kitty_partners(1).contains(&0));
    assert_eq!(kitties.kitty_owner(2), Some(ALICE));
    assert_eq!(ledger.reserved_balance(ALICE), 3 * DEPOSIT_VALUE);
    assert_eq!(kitties.events()[2], KittyEvent::Breeded(ALICE, 0, 1, 2));

    let selector = random_value(&SEED, ALICE, 2);
    let dna0 = kitties.kitties(0).unwrap().0;
    let dna1 = kitties.kitties(1).unwrap().0;
    let child = kitties.kitties(2).unwrap().0;
    for i in 0..16 {
        assert_eq!(child[i], combine_dna(dna0[i], dna1[i], selector[i]));
    }
}

#[test]
fn breeding_same_pair_twice_keeps_partners_unique() {
    let (mut kitties, mut ledger) = new_test_ext();
    assert_eq!(kitties.create(&mut ledger, ALICE), Ok(0));
    assert_eq!(kitties.create(&mut ledger, ALICE), Ok(1));
    assert_eq!(kitties.breed(&mut ledger, ALICE, 0, 1), Ok(2));
    assert_eq!(kitties.breed(&mut ledger, ALICE, 0, 1), Ok(3));
    assert_eq!(kitties.breed(&mut ledger, ALICE, 1, 0), Ok(4));
    assert_eq!(kitties.kitty_partners(0), vec![1]);
    assert_eq!(kitties.kitty_partners(1), vec![0]);
    assert_eq!(kitties.kitty_children(0), vec![2, 3, 4]);
    assert_eq!(kitties.kitty_children(1), vec![2, 3, 4]);
}

#[test]
fn breeding_links_siblings() {
    let (mut kitties, mut ledger) = new_test_ext();
    assert_eq!(kitties.create(&mut ledger, ALICE), Ok(0));
    assert_eq!(kitties.create(&mut ledger, ALICE), Ok(1));
    assert_eq!(kitties.create(&mut ledger, ALICE), Ok(2));
    assert_eq!(kitties.breed(&mut ledger, ALICE, 0, 1), Ok(3));
    assert_eq!(kitties.breed(&mut ledger, ALICE, 0, 2), Ok(4));
    assert_eq!(kitties.kitty_siblings(4), vec![3]);
    assert!(kitties.kitty_siblings(3).contains(&4));
    assert!(kitties.kitty_siblings(0).is_empty());
    assert_eq!(kitties.kitty_partners(0), vec![1, 2]);
    assert_eq!(kitties.kitty_partners(3), Vec::<u32>::new());
    assert!(kitties.kitty_siblings(9).is_empty());
}

#[test]
fn ledger_refuses_balance_that_does_not_fit() {
    let mut ledger = MemoryLedger::new();
    assert!(ledger.set_free_balance(ALICE, 100));
    let mut kitties = KittyRegistry::new(100, SEED);
    assert_eq!(kitties.create(&mut ledger, ALICE), Ok(0));
    assert!(!ledger.set_free_balance(ALICE, u128::MAX));
    assert_eq!(ledger.free_balance(ALICE), 0);
    assert!(ledger.set_free_balance(ALICE, u128::MAX - 100));
    assert_eq!(ledger.reserved_balance(ALICE), 100);
    assert_eq!(kitties.deposit(), 100);
}
