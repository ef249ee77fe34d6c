use rsnano::bucketing::Bucketing;
use rsnano::frontier_scan::{Frontier, FrontierScan, FrontierScanConfig};
use rsnano::ordered_heads::{FrontierHead, OrderedHeads};
use rsnano::primitives::{Account, Amount, BlockHash, Duration, Timestamp};

fn head(start: u64, end: u64) -> FrontierHead {
    FrontierHead::new(Account::from_u64(start), Account::from_u64(end))
}

fn test_now() -> Timestamp {
    Timestamp::new(1_000_000)
}

#[test]
fn ordered_heads_empty() {
    let heads = OrderedHeads::new();

    assert_eq!(heads.len(), 0);
    assert!(heads.iter().is_empty());
    assert!(heads.ordered_by_timestamp().is_empty());
}

#[test]
fn push_back_one_head() {
    let mut heads = OrderedHeads::new();

    heads.push_back(head(1, 10));

    assert_eq!(heads.len(), 1);
    assert_eq!(heads.iter().len(), 1);
    assert_eq!(heads.ordered_by_timestamp().len(), 1);
}

#[test]
fn push_back_multiple() {
    let mut heads = OrderedHeads::new();

    heads.push_back(head(1, 10));
    heads.push_back(head(10, 20));
    heads.push_back(head(20, 30));

    assert_eq!(heads.len(), 3);
    assert_eq!(heads.iter().len(), 3);
    assert_eq!(heads.ordered_by_timestamp().len(), 3);
}

#[test]
fn order_by_timestamp() {
    let mut heads = OrderedHeads::new();
    let now = test_now();

    heads.push_back(FrontierHead {
        timestamp: now.plus(Duration::from_secs(100)),
        ..head(1, 10)
    });
    heads.push_back(FrontierHead {
        timestamp: now.plus(Duration::from_secs(99)),
        ..head(10, 20)
    });
    heads.push_back(FrontierHead {
        timestamp: now.plus(Duration::from_secs(101)),
        ..head(20, 30)
    });

    let ordered = heads.ordered_by_timestamp();
    assert_eq!(ordered[0].start, Account::from_u64(10));
    assert_eq!(ordered[1].start, Account::from_u64(1));
    assert_eq!(ordered[2].start, Account::from_u64(20));
}

#[test]
fn modify_nothing() {
    let mut heads = OrderedHeads::new();
    heads.push_back(head(1, 10));

    heads.modify(&Account::from_u64(1), |h| h);

    assert_eq!(heads.iter()[0].timestamp, Timestamp::zero());
    assert_eq!(heads.len(), 1);
    assert_eq!(heads.ordered_by_timestamp().len(), 1);
    assert_eq!(heads.iter().len(), 1);
}

#[test]
fn modify_timestamp() {
    let mut heads = OrderedHeads::new();
    heads.push_back(head(1, 10));

    let now = test_now();
    heads.modify(&Account::from_u64(1), |h| FrontierHead {
        timestamp: now,
        ..h
    });

    assert_eq!(heads.iter()[0].timestamp, now);
    assert_eq!(heads.len(), 1);
    assert_eq!(heads.ordered_by_timestamp().len(), 1);
    assert_eq!(heads.ordered_by_timestamp()[0].timestamp, now);
}

#[test]
fn modify_duplicate_timestamp() {
    let mut heads = OrderedHeads::new();
    heads.push_back(head(1, 10));
    heads.push_back(head(10, 20));

    let now = test_now();
    heads.modify(&Account::from_u64(1), |h| FrontierHead {
        timestamp: now,
        ..h
    });

    let ordered = heads.ordered_by_timestamp();
    assert_eq!(ordered.len(), 2);
    assert_eq!(ordered[0].start, Account::from_u64(10));
    assert_eq!(ordered[0].timestamp, Timestamp::zero());
    assert_eq!(ordered[1].start, Account::from_u64(1));
    assert_eq!(ordered[1].timestamp, now);
}

#[test]
fn find_first_less_than_or_equal_to() {
    let mut heads = OrderedHeads::new();
    heads.push_back(head(1, 10));
    heads.push_back(head(10, 20));

    let find = |a: u64| heads.find_first_less_than_or_equal_to(Account::from_u64(a));
    assert_eq!(find(0), None);
    assert_eq!(find(1), Some(Account::from_u64(1)));
    assert_eq!(find(2), Some(Account::from_u64(1)));
    assert_eq!(find(9), Some(Account::from_u64(1)));
    assert_eq!(find(10), Some(Account::from_u64(10)));
    assert_eq!(find(10), Some(Account::from_u64(10)));
    assert_eq!(find(20), Some(Account::from_u64(10)));
    assert_eq!(find(30), Some(Account::from_u64(10)));
}

#[test]
fn ignore_duplicate_insert() {
    let mut heads = OrderedHeads::new();
    heads.push_back(head(1, 10));
    heads.push_back(head(1, 10));
    assert_eq!(heads.len(), 1);
    assert_eq!(heads.iter().len(), 1);
    assert_eq!(heads.ordered_by_timestamp().len(), 1);
}

#[test]
fn iter_is_ordered_by_start() {
    let mut heads = OrderedHeads::new();
    heads.push_back(head(20, 30));
    heads.push_back(head(1, 10));
    heads.push_back(head(10, 20));
    let starts: Vec<Account> = heads.iter().iter().map(|h| h.start).collect();
    assert_eq!(
        starts,
        vec![
            Account::from_u64(1),
            Account::from_u64(10),
            Account::from_u64(20)
        ]
    );
}

#[test]
fn bucket_creation() {
    assert_eq!(Bucketing::new().bucket_count(), 63);
}

#[test]
fn bucket_0() {
    assert_eq!(Bucketing::new().bucket_index(Amount::raw(0)), 0);
    assert_eq!(Bucketing::new().bucket_index(Amount::raw(1)), 0);
    assert_eq!(Bucketing::new().bucket_index(Amount::raw((1 << 79) - 1)), 0);
}

#[test]
fn bucket_1() {
    assert_eq!(Bucketing::new().bucket_index(Amount::raw(1 << 79)), 1);
}

#[test]
fn nano_index() {
    assert_eq!(Bucketing::new().bucket_index(Amount::nano(1)), 14);
}

#[test]
fn knano_index() {
    assert_eq!(Bucketing::new().bucket_index(Amount::nano(1000)), 49);
}

#[test]
fn max_index() {
    assert_eq!(Bucketing::new().bucket_index(Amount::max()), 62);
}

fn small_scan() -> FrontierScan {
    FrontierScan::new(FrontierScanConfig {
        head_parallelism: 2,
        consideration_count: 2,
        candidates: 3,
        cooldown: Duration::from_secs(5),
        max_pending: 16,
    })
}

fn frontier(account: u64) -> Frontier {
    Frontier {
        account: Account::from_u64(account),
        hash: BlockHash::from_u64(account),
    }
}

#[test]
fn frontier_scan_default_config() {
    let config = FrontierScanConfig::default();
    assert_eq!(config.head_parallelism, 128);
    assert_eq!(config.consideration_count, 4);
    assert_eq!(config.candidates, 1000);
    assert_eq!(config.cooldown, Duration::from_secs(5));
    assert_eq!(config.max_pending, 16);
}

#[test]
fn frontier_scan_hands_out_head_starts_in_timestamp_order() {
    let mut scan = small_scan();
    let now = test_now();
    // the first head starts at 1, skipping the burn account
    assert_eq!(scan.next(now), Account::from_u64(1));
    // the second head, not asked yet, comes next
    assert_eq!(
        scan.next(now),
        Account::from_halves(u128::MAX >> 1, u128::MAX)
    );
    // both asked once; consideration count 2 lets the first be asked again
    assert_eq!(scan.next(now), Account::from_u64(1));
    assert_eq!(
        scan.next(now),
        Account::from_halves(u128::MAX >> 1, u128::MAX)
    );
    // both asked twice and within the cooldown: none is due
    assert_eq!(scan.next(now), Account::zero());
    // after the cooldown the least recently asked is due again
    let later = now.plus(Duration::from_secs(6));
    assert_eq!(scan.next(later), Account::from_u64(1));
}

#[test]
fn frontier_scan_moves_on_after_enough_responses() {
    let mut scan = small_scan();
    let now = test_now();
    scan.next(now);
    // first response: not done yet (consideration count 2)
    assert!(!scan.process(Account::from_u64(1), &[frontier(5), frontier(3), frontier(9)]));
    // second response: done, the largest of the three smallest candidates is next
    assert!(scan.process(Account::from_u64(1), &[frontier(7), frontier(2)]));
    // the head now continues from 5 (candidates 2, 3, 5 were kept)
    scan.next(now);
    assert_eq!(scan.next(now), Account::from_u64(5));
}
