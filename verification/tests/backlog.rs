use rsnano::backlog_index::{BacklogEntry, BacklogIndex};
use rsnano::backlog_scan::{
    rate_limit_wait, scan_batch, AccountInfo, ActivatedInfo, ConfirmationHeightInfo,
};
use rsnano::block_processing::BlockStatus;
use rsnano::blocks::Epoch;
use rsnano::bounded_backlog::{
    removed_after_rollbacks, rollback_due, rollback_target_count, BoundedBacklog,
    BoundedBacklogConfig, RollbackOutcome,
};
use rsnano::bucketing::Bucketing;
use rsnano::config::BacklogScanConfig;
use rsnano::open_builder::TestLegacyOpenBlockBuilder;
use rsnano::primitives::{Account, Amount, BlockHash, UnixTimestamp};

const TEST_BUCKET_COUNT: usize = 5;

fn entry(account: u64, hash: u64, bucket_index: usize, priority: u64) -> BacklogEntry {
    BacklogEntry {
        account: Account::from_u64(account),
        hash: BlockHash::from_u64(hash),
        bucket_index,
        priority: UnixTimestamp::new(priority),
    }
}

#[test]
fn backlog_index_empty() {
    let mut index = BacklogIndex::new(TEST_BUCKET_COUNT);
    assert_eq!(index.len(), 0);
    assert_eq!(index.contains(&BlockHash::from_u64(1)), false);

    assert!(index.top(0, 100, |_| unreachable!()).is_empty());
    assert!(index.next(&BlockHash::zero(), 100).is_empty());

    assert_eq!(index.erase_hash(&BlockHash::from_u64(1)), false);
    assert_eq!(index.erase_account(&Account::from_u64(1)), false);
}

#[test]
fn insert_one() {
    let mut index = BacklogIndex::new(TEST_BUCKET_COUNT);
    let entry = BacklogEntry::new_test_instance();

    let inserted = index.insert(entry.clone());

    assert!(inserted);
    assert_eq!(index.len(), 1);
    assert!(index.contains(&entry.hash));
    assert_eq!(index.len_of_bucket(entry.bucket_index), 1);
    assert_eq!(index.len_of_bucket(entry.bucket_index + 1), 0);
}

#[test]
fn insert_two() {
    let mut index = BacklogIndex::new(TEST_BUCKET_COUNT);
    let entry1 = BacklogEntry::new_test_instance();
    let entry2 = BacklogEntry {
        account: Account::from_u64(1000),
        hash: BlockHash::from_u64(1001),
        ..BacklogEntry::new_test_instance()
    };

    index.insert(entry1.clone());
    let inserted = index.insert(entry2.clone());

    assert!(inserted);
    assert_eq!(index.len(), 2);
    assert!(index.contains(&entry1.hash));
    assert!(index.contains(&entry2.hash));
    assert_eq!(index.len_of_bucket(entry1.bucket_index), 2);
}

#[test]
fn insert_many() {
    let mut index = BacklogIndex::new(TEST_BUCKET_COUNT);

    let entry1 = BacklogEntry {
        account: Account::from_u64(1000),
        hash: BlockHash::from_u64(1001),
        ..BacklogEntry::new_test_instance()
    };
    let entry2 = BacklogEntry {
        account: Account::from_u64(2000),
        hash: BlockHash::from_u64(2001),
        priority: UnixTimestamp::new(1),
        ..BacklogEntry::new_test_instance()
    };
    let entry3 = BacklogEntry {
        account: Account::from_u64(2000),
        hash: BlockHash::from_u64(2002),
        priority: UnixTimestamp::new(1),
        ..BacklogEntry::new_test_instance()
    };
    let entry4 = BacklogEntry {
        account: Account::from_u64(2000),
        hash: BlockHash::from_u64(2003),
        priority: UnixTimestamp::new(2),
        ..BacklogEntry::new_test_instance()
    };

    assert!(index.insert(entry1));
    assert!(index.insert(entry2));
    assert!(index.insert(entry3));
    assert!(index.insert(entry4));

    assert_eq!(index.len(), 4);
    // all four in bucket 1, the oldest timestamps first
    assert_eq!(
        index.top(1, usize::MAX, |_| true),
        vec![
            BlockHash::from_u64(1001),
            BlockHash::from_u64(2003),
            BlockHash::from_u64(2001),
            BlockHash::from_u64(2002)
        ]
    );
}

#[test]
fn dont_insert_duplicate() {
    let mut index = BacklogIndex::new(TEST_BUCKET_COUNT);
    let entry = BacklogEntry::new_test_instance();

    index.insert(entry.clone());
    let inserted = index.insert(entry.clone());

    assert!(!inserted);
    assert_eq!(index.len(), 1);
}

#[test]
fn erase_account() {
    let mut index = BacklogIndex::new(TEST_BUCKET_COUNT);

    let entry1 = entry(1000, 1001, 1, 300);
    let entry2 = entry(2000, 2001, 1, 1);
    let entry3 = entry(2000, 2002, 1, 1);
    let entry4 = entry(2000, 2003, 1, 2);

    index.insert(entry1.clone());
    index.insert(entry2.clone());
    index.insert(entry3);
    index.insert(entry4);

    index.erase_account(&entry2.account);

    assert_eq!(index.len(), 1);
    assert!(index.contains(&entry1.hash));
    assert_eq!(index.len_of_bucket(1), 1);
    assert_eq!(index.top(1, usize::MAX, |_| true), vec![entry1.hash]);
}

#[test]
fn erase_by_hash() {
    let mut index = BacklogIndex::new(TEST_BUCKET_COUNT);

    let entry1 = entry(1000, 1001, 1, 300);
    let entry2 = entry(2000, 2001, 1, 1);
    let entry3 = entry(2000, 2002, 1, 1);

    index.insert(entry1.clone());
    index.insert(entry2.clone());
    index.insert(entry3.clone());

    index.erase_hash(&entry1.hash);
    index.erase_hash(&entry2.hash);

    assert_eq!(index.len(), 1);
    assert!(index.contains(&entry3.hash));
    assert_eq!(index.len_of_bucket(1), 1);
    assert_eq!(index.top(1, usize::MAX, |_| true), vec![entry3.hash]);
}

#[test]
fn top() {
    let mut index = BacklogIndex::new(TEST_BUCKET_COUNT);

    let entry1 = entry(1000, 1001, 3, 1);
    let entry2 = entry(2000, 2001, 3, 10000);
    // Same priority as entry2
    let entry3 = entry(3000, 3001, 3, 2);
    // filtered out!
    let entry4 = entry(4000, 4001, 3, 2);
    // different bucket
    let entry5 = entry(5000, 5001, 1, 2);

    index.insert(entry1.clone());
    index.insert(entry2.clone());
    index.insert(entry3.clone());
    index.insert(entry4.clone());
    index.insert(entry5.clone());

    let top_all = index.top(3, usize::MAX, |h| *h != entry4.hash);

    // ordered by ascending priority (=descending timestamp)
    assert_eq!(top_all, vec![entry2.hash, entry3.hash, entry1.hash]);

    let top_limit = index.top(3, 2, |h| *h != entry4.hash);
    assert_eq!(top_limit, vec![entry2.hash, entry3.hash]);
}

#[test]
fn next() {
    let mut index = BacklogIndex::new(TEST_BUCKET_COUNT);

    let entry1 = entry(1000, 1001, 3, 1);
    let entry2 = entry(2000, 2001, 3, 10000);
    // Same priority as entry2
    let entry3 = entry(3000, 3001, 3, 2);

    index.insert(entry1.clone());
    index.insert(entry2.clone());
    index.insert(entry3.clone());

    let next_all = index.next(&entry1.hash, usize::MAX);
    assert_eq!(next_all, vec![entry2.hash, entry3.hash]);

    let next_limit = index.next(&entry1.hash, 1);
    assert_eq!(next_limit, vec![entry2.hash]);
}

#[test]
fn next_max_hash() {
    let mut index = BacklogIndex::new(TEST_BUCKET_COUNT);
    index.insert(BacklogEntry::new_test_instance());
    let next = index.next(&BlockHash::max(), usize::MAX);
    assert!(next.is_empty());
}

#[test]
fn erase_after_insert_removes_only_that_hash() {
    let mut index = BacklogIndex::new(TEST_BUCKET_COUNT);
    index.insert(entry(1, 11, 2, 5));
    index.insert(entry(1, 12, 2, 6));
    assert!(index.erase_hash(&BlockHash::from_u64(11)));
    assert!(!index.contains(&BlockHash::from_u64(11)));
    assert!(index.contains(&BlockHash::from_u64(12)));
    assert_eq!(index.len_of_bucket(2), 1);
}

#[test]
fn rollback_targets_are_the_excess_up_to_a_batch() {
    let config = BoundedBacklogConfig::default_config();
    assert_eq!(rollback_target_count(100, &config), 0);
    assert_eq!(rollback_target_count(100_010, &config), 10);
    assert_eq!(rollback_target_count(200_000, &config), 32);
    assert!(!rollback_due(100_001, 100_000, &config));
    assert!(rollback_due(100_001, 100_001, &config));
}

#[test]
fn bounded_backlog_inserts_by_bucket_and_gathers_overfull_buckets() {
    let config = BoundedBacklogConfig {
        max_backlog: 1,
        bucket_threshold: 1,
        batch_size: 10,
        max_queued_notifications: 1,
    };
    let mut backlog = BoundedBacklog::new(Bucketing::new(), config);
    let open = TestLegacyOpenBlockBuilder::new().build_saved();
    let other = TestLegacyOpenBlockBuilder::new()
        .source(BlockHash::from_u64(99))
        .build_saved();
    assert!(backlog.insert(&open, None));
    assert!(!backlog.insert(&open, None));
    assert_eq!(backlog.len(), 1);
    assert!(backlog.gather_targets(10, &|_: &BlockHash| true).is_empty());

    assert!(backlog.insert(&other, None));
    let targets = backlog.gather_targets(10, &|_: &BlockHash| true);
    assert_eq!(targets.len(), 2);
    let limited = backlog.gather_targets(1, &|_: &BlockHash| true);
    assert_eq!(limited.len(), 1);
    let vetoed = backlog.gather_targets(10, &|h: &BlockHash| *h != open.hash());
    assert_eq!(vetoed, vec![other.hash()]);

    backlog.erase_hashes(&[open.hash()]);
    assert!(!backlog.contains(&open.hash()));
    assert!(backlog.contains(&other.hash()));
    backlog.erase_accounts(&[other.account()]);
    assert_eq!(backlog.len(), 0);
}

#[test]
fn activation_stops_at_the_confirmed_frontier() {
    let mut backlog = BoundedBacklog::new(Bucketing::new(), BoundedBacklogConfig::default_config());
    let open = TestLegacyOpenBlockBuilder::new().build_saved();
    assert!(!backlog.activate_step(&open, None, &open.hash()));
    assert_eq!(backlog.len(), 0);
    assert!(backlog.activate_step(&open, None, &BlockHash::zero()));
    assert!(!backlog.activate_step(&open, None, &BlockHash::zero()));
    assert_eq!(backlog.len(), 1);
}

#[test]
fn rolled_back_hashes_leave_the_index() {
    let targets = [
        BlockHash::from_u64(1),
        BlockHash::from_u64(2),
        BlockHash::from_u64(3),
    ];
    let outcomes = vec![
        RollbackOutcome::Skipped,
        RollbackOutcome::Missing,
        RollbackOutcome::RolledBack(vec![BlockHash::from_u64(3), BlockHash::from_u64(4)]),
    ];
    assert_eq!(
        removed_after_rollbacks(&targets, &outcomes),
        vec![
            BlockHash::from_u64(2),
            BlockHash::from_u64(3),
            BlockHash::from_u64(4)
        ]
    );
}

fn activated(account: u64, block_count: u64, height: u64) -> ActivatedInfo {
    ActivatedInfo {
        account: Account::from_u64(account),
        account_info: AccountInfo {
            head: BlockHash::from_u64(account),
            representative: Account::from_u64(1),
            open_block: BlockHash::from_u64(account),
            balance: Amount::raw(1),
            modified: UnixTimestamp::new(0),
            block_count,
            epoch: Epoch::Epoch0,
        },
        conf_info: ConfirmationHeightInfo {
            height,
            frontier: BlockHash::from_u64(account),
        },
    }
}

#[test]
fn scan_batch_activates_accounts_with_unconfirmed_blocks() {
    let accounts = [activated(5, 3, 3), activated(7, 4, 2), activated(9, 1, 0)];
    let batch = scan_batch(&accounts, 2, Account::from_u64(5));
    assert_eq!(batch.scanned.len(), 2);
    assert_eq!(batch.activated, vec![accounts[1]]);
    assert_eq!(batch.next, Account::from_u64(8));

    let all = scan_batch(&accounts, 10, Account::from_u64(5));
    assert_eq!(all.activated, vec![accounts[1], accounts[2]]);
    assert_eq!(all.next, Account::from_u64(10));

    let none = scan_batch(&[], 10, Account::from_u64(5));
    assert_eq!(none.next, Account::from_u64(5));

    let last = scan_batch(&[activated(0, 1, 0)], 10, Account::zero());
    assert_eq!(last.next, Account::from_u64(1));
}

#[test]
fn rate_limit_wait_is_half_a_batch_interval() {
    let config = BacklogScanConfig::default_config();
    // 10 batches per second: 100 ms per batch, half of it
    assert_eq!(rate_limit_wait(&config).as_millis(), 50);
    let slow = BacklogScanConfig {
        enabled: true,
        batch_size: 1000,
        rate_limit: 10,
    };
    assert_eq!(rate_limit_wait(&slow).as_millis(), 500);
    let fast = BacklogScanConfig {
        enabled: true,
        batch_size: 1,
        rate_limit: 1_000_000,
    };
    assert_eq!(rate_limit_wait(&fast).as_millis(), 10);
}

#[test]
fn batch_inserts_only_blocks_that_made_progress() {
    let mut backlog = BoundedBacklog::new(Bucketing::new(), BoundedBacklogConfig::default_config());
    let open = TestLegacyOpenBlockBuilder::new().build_saved();
    let other = TestLegacyOpenBlockBuilder::new()
        .source(BlockHash::from_u64(99))
        .build_saved();
    let third = TestLegacyOpenBlockBuilder::new()
        .source(BlockHash::from_u64(98))
        .build_saved();
    backlog.insert_batch(&[
        (BlockStatus::Progress, Some(open.clone()), None),
        (BlockStatus::Fork, Some(other.clone()), None),
        (BlockStatus::Progress, None, None),
        (BlockStatus::Progress, Some(third.clone()), None),
        (BlockStatus::Progress, Some(open.clone()), None),
    ]);
    assert_eq!(backlog.len(), 2);
    assert!(backlog.contains(&open.hash()));
    assert!(!backlog.contains(&other.hash()));
    assert!(backlog.contains(&third.hash()));
}

#[test]
fn scan_pass_visits_every_account_once() {
    let ledger = [activated(2, 1, 0), activated(5, 3, 3), activated(7, 4, 2), activated(9, 1, 0)];
    let mut next = Account::zero();
    let mut visited = Vec::new();
    loop {
        let from: Vec<ActivatedInfo> = ledger
            .iter()
            .copied()
            .filter(|i| i.account >= next)
            .collect();
        let batch = scan_batch(&from, 3, next);
        if batch.scanned.is_empty() {
            break;
        }
        visited.extend(batch.scanned.iter().copied());
        next = batch.next;
    }
    assert_eq!(visited, ledger.to_vec());
}
