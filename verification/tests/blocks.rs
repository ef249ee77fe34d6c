use rsnano::blocks::{block_priority, Block, BlockType, Epoch, PrivateKey, Signature, DEV_WORK_THRESHOLD};
use rsnano::lattice::{dev_genesis_block_of, dev_genesis_key, SavedBlockLatticeBuilder};
use rsnano::open_builder::TestLegacyOpenBlockBuilder;
use rsnano::primitives::{Account, Amount, BlockHash, UnixTimestamp};
use rsnano::unsaved_lattice::UnsavedBlockLatticeBuilder;

#[test]
fn open_block() {
    let mut lattice = SavedBlockLatticeBuilder::new();
    let key = PrivateKey::from_u64(42);
    let send = lattice.genesis().send(key.account(), Amount::raw(1));
    lattice.advance_time();
    let open = lattice.account(&key).receive(&send.block);

    let (prio_balance, prio_time) = block_priority(&open, None);

    assert_eq!(prio_balance, open.balance());
    assert_eq!(prio_time, open.timestamp());
}

#[test]
fn receive_block() {
    let mut lattice = SavedBlockLatticeBuilder::new();
    let key = PrivateKey::from_u64(42);
    let send1 = lattice.genesis().send(key.account(), Amount::raw(1));
    lattice.advance_time();
    let send2 = lattice.genesis().send(key.account(), Amount::raw(1));
    lattice.advance_time();
    let open = lattice.account(&key).receive(&send1.block);
    lattice.advance_time();
    let receive = lattice.account(&key).receive(&send2.block);

    let (prio_balance, prio_time) = block_priority(&receive, Some(&open));

    assert_eq!(prio_balance, receive.balance());
    assert_eq!(prio_time, open.timestamp());
}

#[test]
fn send_priority_uses_previous_balance() {
    let mut lattice = SavedBlockLatticeBuilder::new();
    let key = PrivateKey::from_u64(42);
    let send1 = lattice.genesis().send(key.account(), Amount::raw(10));
    lattice.advance_time();
    let open = lattice.account(&key).receive(&send1.block);
    lattice.advance_time();
    let send_back = lattice.account(&key).send(Account::from_u64(7), Amount::raw(10));

    let (prio_balance, prio_time) = block_priority(&send_back, Some(&open));

    assert_eq!(send_back.balance(), Amount::raw(0));
    assert_eq!(prio_balance, Amount::raw(10));
    assert_eq!(prio_time, open.timestamp());
}

#[test]
fn create_open_block() {
    let block = TestLegacyOpenBlockBuilder::new().build_saved();
    let open = &block.block;
    if open.block_type != BlockType::LegacyOpen {
        panic!("not an open block");
    }
    assert_eq!(open.source_field(), Some(BlockHash::from_u64(1)));
    assert_eq!(open.representative, Account::from_u64(2));
    assert_ne!(open.account, Account::zero());
    assert_ne!(open.signature(), Signature::zero());
    assert!(open.verify_signature(&open.account));
    assert!(open.difficulty() >= DEV_WORK_THRESHOLD);

    assert!(block.successor().is_none());
    assert_eq!(block.balance(), Amount::raw(5));
    assert_eq!(block.height(), 1);
    assert_eq!(block.timestamp(), UnixTimestamp::new(2));
    assert_eq!(block.source_epoch(), Epoch::Epoch0);
}

#[test]
fn state_send() {
    let mut lattice = UnsavedBlockLatticeBuilder::new();
    let key1 = PrivateKey::from_u64(42);
    let genesis_key = dev_genesis_key();
    let genesis_block = dev_genesis_block_of(&genesis_key);

    let send = lattice.genesis().send(key1.account(), Amount::raw(1));

    let expected = Block::new_state(
        &genesis_key,
        genesis_block.hash(),
        genesis_key.public_key(),
        Amount::raw(u128::MAX - 1),
        key1.account().as_hash(),
        send.work(),
    );
    assert_eq!(send, expected);
    assert!(send.difficulty() >= DEV_WORK_THRESHOLD);
    assert!(send.verify_signature(&genesis_key.account()));
}

#[test]
fn send_twice() {
    let mut lattice = UnsavedBlockLatticeBuilder::new();
    let key1 = PrivateKey::from_u64(42);
    let genesis_key = dev_genesis_key();

    let send1 = lattice.genesis().send(key1.account(), Amount::raw(1));
    let send2 = lattice.genesis().send(key1.account(), Amount::raw(2));

    let expected = Block::new_state(
        &genesis_key,
        send1.hash(),
        genesis_key.public_key(),
        Amount::raw(u128::MAX - 3),
        key1.account().as_hash(),
        send2.work(),
    );
    assert_eq!(send2, expected);
}

#[test]
fn state_open() {
    let mut lattice = UnsavedBlockLatticeBuilder::new();
    let key1 = PrivateKey::from_u64(42);
    let send = lattice.genesis().send(key1.account(), Amount::raw(1));

    let open = lattice.account(&key1).receive(&send);

    let expected = Block::new_state(
        &key1,
        BlockHash::zero(),
        key1.public_key(),
        Amount::raw(1),
        send.hash(),
        open.work(),
    );
    assert_eq!(open, expected);
    assert!(send.difficulty() >= DEV_WORK_THRESHOLD);
    assert!(open.difficulty() >= DEV_WORK_THRESHOLD);
    assert!(open.verify_signature(&key1.account()));
}

#[test]
fn state_receive() {
    let mut lattice = UnsavedBlockLatticeBuilder::new();
    let key1 = PrivateKey::from_u64(42);
    let send1 = lattice.genesis().send(key1.account(), Amount::raw(1));
    let send2 = lattice.genesis().send(key1.account(), Amount::raw(2));
    let open = lattice.account(&key1).receive(&send1);

    let receive = lattice.account(&key1).receive(&send2);

    let expected = Block::new_state(
        &key1,
        open.hash(),
        key1.public_key(),
        Amount::raw(3),
        send2.hash(),
        receive.work(),
    );
    assert_eq!(receive, expected);
}

#[test]
fn genesis_public_key() {
    let key = dev_genesis_key();
    let account = key.account();
    assert_eq!(
        account,
        Account::from_halves(
            0xB0311EA55708D6A53C75CDBF88300259,
            0xC6D018522FE3D4D0A242E431F9E8B6D0
        )
    );
}

#[test]
fn hash_changes_with_content() {
    let key = PrivateKey::from_u64(1);
    let a = Block::new_legacy_receive(&key, BlockHash::from_u64(1), BlockHash::from_u64(2), 0);
    let b = Block::new_legacy_receive(&key, BlockHash::from_u64(1), BlockHash::from_u64(3), 0);
    assert_ne!(a.hash(), b.hash());
    assert_eq!(a.hash(), a.hash());
}

#[test]
fn signature_verifies_only_under_the_signing_account() {
    let key = PrivateKey::from_u64(5);
    let other = PrivateKey::from_u64(6);
    let block = Block::new_legacy_change(&key, BlockHash::from_u64(9), Account::from_u64(3), 0);
    assert!(block.verify_signature(&key.account()));
    assert!(!block.verify_signature(&other.account()));
    let tampered = Block {
        representative: Account::from_u64(4),
        ..block
    };
    assert!(!tampered.verify_signature(&key.account()));
}

#[test]
fn generated_work_meets_the_threshold_for_its_root() {
    let key = PrivateKey::from_u64(5);
    let block = Block::new_legacy_change(&key, BlockHash::from_u64(9), Account::from_u64(3), 0)
        .with_generated_work();
    assert!(block.difficulty() >= DEV_WORK_THRESHOLD);
    assert_eq!(block.root(), BlockHash::from_u64(9));
    let moved = Block {
        previous: BlockHash::from_u64(10),
        ..block
    };
    assert_ne!(moved.difficulty(), block.difficulty());
}
