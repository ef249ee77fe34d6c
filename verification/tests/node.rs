use rsnano::block_processing::{
    unchecked_action, BlockProcessorConfig, BlockSource, BlockStatus, UncheckedAction,
};
use rsnano::blocks::{Block, BlockDetails, BlockSideband, Epoch, PrivateKey, SavedBlock};
use rsnano::config::{
    AccountSetsConfig, BacklogScanConfig, BacklogScanToml, ConfirmingSetConfig,
    ConfirmingSetInfo, HintedSchedulerConfig, HintedSchedulerToml, MonitorToml,
    OptimisticSchedulerConfig, OptimisticSchedulerToml, TcpConfig, TcpToml,
};
use rsnano::confirmation_solicitor::{ConfirmationSolicitor, LastVote, PeeredRep};
use rsnano::confirming_set::{cement_step, BatchReport, CementStep, CementedBlock, ConfirmingSet, Entry};
use rsnano::network::ChannelId;
use rsnano::ordered_blocks::{BlockEntry, OrderedBlocks};
use rsnano::primitives::{Account, Amount, BlockHash, Duration, Timestamp, UnixTimestamp};
use rsnano::timer::{CancellationToken, TimerStartEvent, TimerStartType};

#[test]
fn can_be_nulled() {
    let mut token = CancellationToken::new_null();
    assert_eq!(token.wait_for_cancellation(Duration::from_secs(u64::MAX)), false);
    assert_eq!(token.is_cancelled(), false);
    assert_eq!(token.wait_for_cancellation(Duration::from_secs(u64::MAX)), false);
    assert_eq!(token.is_cancelled(), false);
}

#[test]
fn nulled_cancellation_token_returns_configured_responses() {
    let mut token = CancellationToken::new_null_with_uncancelled_waits(2);

    assert_eq!(token.wait_for_cancellation(Duration::from_secs(u64::MAX)), false);
    assert_eq!(token.is_cancelled(), false);
    assert_eq!(token.wait_for_cancellation(Duration::from_secs(u64::MAX)), false);
    assert_eq!(token.is_cancelled(), false);
    assert_eq!(token.wait_for_cancellation(Duration::from_secs(u64::MAX)), true);
    assert_eq!(token.is_cancelled(), true);
    assert_eq!(token.wait_for_cancellation(Duration::from_secs(u64::MAX)), true);
    assert_eq!(token.is_cancelled(), true);
}

#[test]
fn can_track_waits() {
    let mut token = CancellationToken::new_null();
    let duration = Duration::from_secs(123);

    token.wait_for_cancellation(duration);

    assert_eq!(token.waits().as_slice(), [duration]);
}

#[test]
fn cancel_stops_a_real_token() {
    let mut token = CancellationToken::new();
    assert!(!token.wait_for_cancellation(Duration::from_millis(1)));
    token.cancel();
    assert!(token.is_cancelled());
    assert!(token.wait_for_cancellation(Duration::from_millis(1)));
    let mut scripted = CancellationToken::new_null();
    scripted.cancel();
    assert!(!scripted.is_cancelled());
}

#[test]
fn timer_start_event() {
    let event = TimerStartEvent {
        thread_name: "timer".to_string(),
        start_type: TimerStartType::RunOnceThenStart,
        interval: Duration::from_secs(1),
    };
    assert_eq!(event.clone(), event);
}

#[test]
fn tcp_defaults() {
    let config = TcpConfig::default();
    assert_eq!(config.max_inbound_connections, 2048);
    assert_eq!(config.max_outbound_connections, 2048);
    assert_eq!(config.max_attempts, 60);
    assert_eq!(config.max_attempts_per_ip, 1);
    assert_eq!(config.connect_timeout, Duration::from_secs(60));
    let dev = TcpConfig::for_dev_network();
    assert_eq!(dev.max_attempts_per_ip, 128);
    assert_eq!(dev.connect_timeout, Duration::from_secs(5));
}

#[test]
fn tcp_toml_merge() {
    let mut config = TcpConfig::default();
    let toml = TcpToml {
        max_inbound_connections: Some(5),
        max_outbound_connections: None,
        max_attempts: Some(7),
        max_attempts_per_ip: None,
        connect_timeout: Some(30),
        handshake_timeout: Some(1),
        io_timeout: Some(2),
    };
    config.merge_toml(&toml);
    assert_eq!(config.max_inbound_connections, 5);
    assert_eq!(config.max_outbound_connections, 2048);
    assert_eq!(config.max_attempts, 7);
    assert_eq!(config.max_attempts_per_ip, 1);
    assert_eq!(config.connect_timeout, Duration::from_secs(30));

    let written = TcpToml::from_config(&config);
    let mut copy = config;
    copy.merge_toml(&written);
    assert_eq!(copy, config);
    assert_eq!(written.connect_timeout, None);
}

#[test]
fn backlog_scan_toml_merge() {
    let mut config = BacklogScanConfig::default();
    assert!(config.enabled);
    assert_eq!(config.batch_size, 1000);
    assert_eq!(config.rate_limit, 10_000);
    config.merge_toml(&BacklogScanToml {
        enable: Some(false),
        batch_size: None,
        rate_limit: Some(5),
    });
    assert_eq!(
        config,
        BacklogScanConfig {
            enabled: false,
            batch_size: 1000,
            rate_limit: 5
        }
    );
    let toml = BacklogScanToml::from_config(&config);
    assert_eq!(toml.enable, Some(false));
    assert_eq!(toml.rate_limit, Some(5));
}

#[test]
fn hinted_scheduler_toml_merge() {
    let mut config = HintedSchedulerConfig {
        hinting_threshold_percent: 10,
        check_interval: Duration::from_millis(1000),
        block_cooldown: Duration::from_millis(5000),
        vacancy_threshold_percent: 20,
    };
    let toml = HintedSchedulerToml::from_config(&config);
    assert_eq!(toml.enable, Some(true));
    assert_eq!(toml.block_cooldown, Some(5000));
    config.merge_toml(&HintedSchedulerToml {
        enable: None,
        hinting_threshold: Some(50),
        check_interval: None,
        block_cooldown: Some(100),
        vacancy_threshold: None,
    });
    assert_eq!(config.hinting_threshold_percent, 50);
    assert_eq!(config.block_cooldown, Duration::from_millis(100));
    assert_eq!(config.check_interval, Duration::from_millis(1000));
    assert_eq!(config.vacancy_threshold_percent, 20);
}

#[test]
fn optimistic_scheduler_toml_merge() {
    let mut config = OptimisticSchedulerConfig {
        gap_threshold: 32,
        max_size: 1024,
    };
    let toml = OptimisticSchedulerToml::from_config(&config);
    assert_eq!(toml.gap_threshold, Some(32));
    config.merge_toml(&OptimisticSchedulerToml {
        enable: Some(false),
        gap_threshold: None,
        max_size: Some(7),
    });
    assert_eq!(config.gap_threshold, 32);
    assert_eq!(config.max_size, 7);
}

#[test]
fn monitor_toml_interval_in_seconds() {
    let toml = MonitorToml::from_interval(Duration::from_millis(60_500));
    assert_eq!(toml.enable, Some(true));
    assert_eq!(toml.interval, Some(60));
}

#[test]
fn section_defaults() {
    let sets = AccountSetsConfig::default();
    assert_eq!(sets.consideration_count, 4);
    assert_eq!(sets.priorities_max, 256 * 1024);
    assert_eq!(sets.blocking_max, 256 * 1024);
    assert_eq!(sets.cooldown, Duration::from_secs(3));
    let confirming = ConfirmingSetConfig::default();
    assert_eq!(confirming.batch_size, 256);
    assert_eq!(confirming.max_blocks, 128 * 128);
    assert_eq!(confirming.max_queued_notifications, 8);
    assert_eq!(confirming.max_deferred, 16 * 1024);
    assert_eq!(confirming.deferred_age_cutoff, Duration::from_secs(15 * 60));
    let info = ConfirmingSetInfo::default();
    assert_eq!((info.size, info.max_size), (0, 0));
}

#[test]
fn add_exists() {
    let mut confirming_set = ConfirmingSet::new(ConfirmingSetConfig::default());
    let hash = BlockHash::from_u64(1);
    confirming_set.add(hash, Timestamp::new(0));
    assert!(confirming_set.contains(&hash));
}

#[test]
fn confirming_set_batches_and_defers() {
    let mut set = ConfirmingSet::new(ConfirmingSetConfig::default());
    let now = Timestamp::new(10);
    for i in 1..=5u64 {
        assert!(set.add(BlockHash::from_u64(i), now));
    }
    assert!(!set.add(BlockHash::from_u64(1), now));
    assert_eq!(set.len(), 5);
    assert_eq!(set.info().size, 5);

    let batch = set.next_batch(2);
    assert_eq!(
        batch,
        vec![
            Entry {
                hash: BlockHash::from_u64(1),
                timestamp: now
            },
            Entry {
                hash: BlockHash::from_u64(2),
                timestamp: now
            }
        ]
    );
    // the entries after a full batch stay ready
    assert!(set.contains(&BlockHash::from_u64(3)));
    assert!(set.contains(&BlockHash::from_u64(1)));
    assert_eq!(set.len(), 5);
    assert_eq!(set.info().size, 3);

    set.defer(batch[1]);
    set.finish_batch();
    assert!(!set.contains(&BlockHash::from_u64(1)));
    assert!(set.contains(&BlockHash::from_u64(2)));
    assert_eq!(set.len(), 3);

    assert!(set.requeue(&[BlockHash::from_u64(2)]));
    assert!(!set.requeue(&[BlockHash::from_u64(2)]));
    assert_eq!(set.len(), 4);
}

#[test]
fn confirming_set_cleanup_evicts_old_deferred_blocks() {
    let config = ConfirmingSetConfig {
        max_deferred: 1,
        ..ConfirmingSetConfig::default()
    };
    let mut set = ConfirmingSet::new(config);
    let start = Timestamp::new(1_000_000_000);
    set.defer(Entry {
        hash: BlockHash::from_u64(1),
        timestamp: start,
    });
    set.defer(Entry {
        hash: BlockHash::from_u64(2),
        timestamp: start,
    });
    // too many deferred: the oldest goes
    let evicted = set.cleanup(start);
    assert_eq!(evicted.len(), 1);
    assert_eq!(evicted[0].hash, BlockHash::from_u64(1));
    // after the age cutoff the rest goes too
    let later = start.plus(Duration::from_secs(15 * 60 + 1));
    let evicted = set.cleanup(later);
    assert_eq!(evicted.len(), 1);
    assert!(!set.contains(&BlockHash::from_u64(2)));
}

#[test]
fn ordered_blocks_empty() {
    let blocks = OrderedBlocks::new();
    assert_eq!(blocks.len(), 0);
}

fn saved_block(source: u64) -> SavedBlock {
    let key = PrivateKey::from_u64(source);
    let block = Block::new_legacy_open(&key, BlockHash::from_u64(source), key.account(), 0);
    SavedBlock::new(
        block,
        BlockSideband {
            height: 1,
            timestamp: UnixTimestamp::new(0),
            successor: BlockHash::zero(),
            account: key.account(),
            balance: Amount::raw(1),
            details: BlockDetails::new(Epoch::Epoch0, false, true, false),
            source_epoch: Epoch::Epoch0,
        },
    )
}

#[test]
fn ordered_blocks_by_time_then_hash() {
    let mut blocks = OrderedBlocks::new();
    let a = BlockEntry {
        time: 5,
        block: saved_block(1),
    };
    let b = BlockEntry {
        time: 3,
        block: saved_block(2),
    };
    let c = BlockEntry {
        time: 9,
        block: saved_block(3),
    };
    assert!(blocks.insert(a));
    assert!(blocks.insert(b));
    assert!(blocks.insert(c));
    assert!(!blocks.insert(BlockEntry { time: 1, ..a }));
    assert_eq!(blocks.len(), 3);
    assert!(blocks.contains(&a.hash()));
    assert_eq!(blocks.first().unwrap().time, 3);
    assert_eq!(blocks.pop_last().unwrap().time, 9);
    assert_eq!(blocks.pop_first().unwrap().time, 3);
    assert_eq!(blocks.iter().len(), 1);
    assert!(!blocks.contains(&b.hash()));
}

#[test]
fn block_processor_queues() {
    let config = BlockProcessorConfig::new();
    assert_eq!(config.max_queue_size(BlockSource::Live), 128);
    assert_eq!(config.max_queue_size(BlockSource::Local), 16 * 1024);
    assert_eq!(config.priority(BlockSource::LiveOriginator), 1);
    assert_eq!(config.priority(BlockSource::Unchecked), 8);
    assert_eq!(config.priority(BlockSource::Local), 16);
    assert_eq!(config.priority(BlockSource::Forced), 32);
    assert_eq!(config.batch_max_time, Duration::from_millis(500));
}

#[test]
fn unchecked_actions() {
    let key = PrivateKey::from_u64(1);
    let send = Block::new_legacy_send(&PrivateKey::from_u64(1), BlockHash::from_u64(10), Account::from_u64(20), Amount::raw(1), 0);
    let saved_send = SavedBlock::new(
        send,
        BlockSideband {
            height: 2,
            timestamp: UnixTimestamp::new(0),
            successor: BlockHash::zero(),
            account: key.account(),
            balance: Amount::raw(1),
            details: BlockDetails::new(Epoch::Epoch0, true, false, false),
            source_epoch: Epoch::Epoch0,
        },
    );
    assert_eq!(
        unchecked_action(BlockStatus::Progress, &send, Some(&saved_send)),
        UncheckedAction::Trigger(send.hash(), Some(Account::from_u64(20)))
    );
    assert_eq!(
        unchecked_action(BlockStatus::GapPrevious, &send, None),
        UncheckedAction::Put(BlockHash::from_u64(10))
    );
    assert_eq!(
        unchecked_action(BlockStatus::GapSource, &send, None),
        UncheckedAction::Put(BlockHash::zero())
    );
    let receive = Block::new_legacy_receive(&PrivateKey::from_u64(1), BlockHash::from_u64(10), BlockHash::from_u64(30), 0);
    assert_eq!(
        unchecked_action(BlockStatus::GapSource, &receive, None),
        UncheckedAction::Put(BlockHash::from_u64(30))
    );
    let open = Block::new_legacy_open(&key, BlockHash::from_u64(30), key.account(), 0);
    assert_eq!(
        unchecked_action(BlockStatus::GapEpochOpenPending, &open, None),
        UncheckedAction::Put(key.account().as_hash())
    );
    assert_eq!(
        unchecked_action(BlockStatus::Fork, &open, None),
        UncheckedAction::Nothing
    );
}

fn rep(account: u64, channel: usize) -> PeeredRep {
    PeeredRep {
        account: Account::from_u64(account),
        channel_id: ChannelId::from(channel),
    }
}

#[test]
fn solicitor_queues_requests_per_channel() {
    let mut solicitor = ConfirmationSolicitor::new(true, 10);
    solicitor.prepare(&[rep(1, 1), rep(2, 2), rep(3, 3)]);
    let winner = BlockHash::from_u64(100);
    let root = BlockHash::from_u64(200);
    let votes = [(
        Account::from_u64(2),
        LastVote {
            hash: winner,
            timestamp: u64::MAX,
        },
    )];
    // rep 2 already voted final for the winner; rep 3's channel is full
    let error = solicitor.add(&winner, &root, true, &votes, &[false, false, true]);
    assert!(!error);
    let messages = solicitor.flush();
    assert_eq!(messages, vec![(ChannelId::from(1), vec![(winner, root)])]);

    // rep 3 left the round
    let error = solicitor.add(&winner, &root, true, &votes, &[true, false]);
    assert!(error);
}

#[test]
fn solicitor_splits_large_requests() {
    let mut solicitor = ConfirmationSolicitor::new(false, 10);
    solicitor.prepare(&[rep(1, 1)]);
    for i in 0..300u64 {
        solicitor.add(
            &BlockHash::from_u64(i),
            &BlockHash::from_u64(i + 1000),
            false,
            &[],
            &[false],
        );
    }
    let messages = solicitor.flush();
    assert_eq!(messages.len(), 2);
    assert_eq!(messages[0].1.len(), 255);
    assert_eq!(messages[1].1.len(), 45);
}

#[test]
fn solicitor_limits_broadcasts() {
    let mut solicitor = ConfirmationSolicitor::new(true, 2);
    solicitor.prepare(&[rep(1, 1), rep(2, 2)]);
    let winner = BlockHash::from_u64(100);
    let votes = [(
        Account::from_u64(1),
        LastVote {
            hash: BlockHash::from_u64(5),
            timestamp: 0,
        },
    )];
    // rep 1 voted for another block, rep 2 has not voted (one such is allowed)
    assert_eq!(
        solicitor.broadcast(&winner, &votes),
        Some(vec![ChannelId::from(1), ChannelId::from(2)])
    );
    assert!(solicitor.broadcast(&winner, &votes).is_some());
    assert!(solicitor.broadcast(&winner, &votes).is_some());
    // the dev network allows 4 broadcasts per round, counted from one
    assert_eq!(solicitor.broadcast(&winner, &votes), None);
}

#[test]
fn cementing_steps() {
    assert_eq!(cement_step(false, 0, false), (CementStep::Failed, false));
    assert_eq!(cement_step(true, 3, true), (CementStep::Cemented, false));
    assert_eq!(cement_step(true, 0, true), (CementStep::Cemented, true));
    assert_eq!(cement_step(true, 5, false), (CementStep::Again, false));
}

#[test]
fn batch_report_gives_each_cemented_block_its_entry_as_root() {
    let mut report = BatchReport::new();
    let root = BlockHash::from_u64(7);
    let blocks = [saved_block(1), saved_block(2)];
    report.record(root, &blocks);
    report.record(BlockHash::from_u64(8), &[]);
    assert_eq!(report.already_cemented, vec![BlockHash::from_u64(8)]);
    assert!(report.take_if_full(3).is_empty());
    let full = report.take_if_full(2);
    assert_eq!(
        full,
        vec![
            CementedBlock { block: blocks[0], confirmation_root: root },
            CementedBlock { block: blocks[1], confirmation_root: root },
        ]
    );
    assert!(report.take_cemented().is_empty());
}
