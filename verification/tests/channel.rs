use rsnano::channel::{Channel, IoOutcome, ReadError, WriteProgress};
use rsnano::messages::Peer;
use rsnano::bandwidth_limiter::BandwidthLimiter;
use rsnano::network::{ChannelDirection, ChannelId, ChannelMode, TrafficType};
use rsnano::primitives::{Account, Duration, Timestamp};

fn endpoint(last: u8, port: u16) -> Peer {
    let mut address = [0u8; 16];
    address[15] = last;
    Peer { address, port }
}

fn outbound_channel(now: Timestamp) -> Channel {
    Channel::new(
        ChannelId::from_usize(42),
        endpoint(1, 7075),
        endpoint(2, 7076),
        ChannelDirection::Outbound,
        u8::MAX,
        now,
    )
}

#[test]
fn new_channel_state() {
    let channel = outbound_channel(Timestamp::new(1000));
    assert_eq!(channel.channel_id(), ChannelId::from_usize(42));
    assert_eq!(channel.peering_addr(), Some(endpoint(2, 7076)));
    assert_eq!(channel.peering_addr_or_peer_addr(), endpoint(2, 7076));
    assert_eq!(channel.timeout().as_secs(), 120);
    assert_eq!(channel.mode(), ChannelMode::Undefined);
    assert_eq!(channel.last_activity(), Timestamp::new(1000));
    assert_eq!(channel.last_bootstrap_attempt(), Timestamp::zero());
    assert!(channel.is_alive());
    assert!(!channel.timed_out());
    assert_eq!(channel.node_id(), None);
}

#[test]
fn inbound_channel_has_no_peering_address() {
    let mut channel = Channel::new(
        ChannelId::from_usize(1),
        endpoint(1, 7075),
        endpoint(2, 50000),
        ChannelDirection::Inbound,
        21,
        Timestamp::new(0),
    );
    assert_eq!(channel.peering_addr(), None);
    assert_eq!(channel.peering_addr_or_peer_addr(), endpoint(2, 50000));
    channel.set_peering_addr(endpoint(2, 7075));
    assert_eq!(channel.peering_addr_or_peer_addr(), endpoint(2, 7075));
}

#[test]
fn setters() {
    let mut channel = outbound_channel(Timestamp::new(0));
    channel.set_protocol_version(20);
    channel.set_mode(ChannelMode::Realtime);
    channel.set_node_id(Account::from_u64(9));
    channel.set_last_bootstrap_attempt(Timestamp::new(5));
    channel.set_timeout(Duration::from_millis(30_500));
    assert_eq!(channel.protocol_version(), 20);
    assert_eq!(channel.mode(), ChannelMode::Realtime);
    assert_eq!(channel.node_id(), Some(Account::from_u64(9)));
    assert_eq!(channel.last_bootstrap_attempt(), Timestamp::new(5));
    assert_eq!(channel.timeout().as_secs(), 30);
}

#[test]
fn times_out_after_inactivity() {
    let mut channel = outbound_channel(Timestamp::new(1000));
    assert!(!channel.check_timeout(Timestamp::new(1000 + 120_000)));
    assert!(channel.is_alive());
    assert!(channel.check_timeout(Timestamp::new(1000 + 120_001)));
    assert!(channel.timed_out());
    assert!(channel.is_closed());
    assert_eq!(channel.timeout().as_secs(), 0);
    // a dead channel stays dead
    assert!(channel.check_timeout(Timestamp::new(0)));
}

#[test]
fn activity_postpones_timeout() {
    let mut channel = outbound_channel(Timestamp::new(0));
    channel.read_succeeded(10, Timestamp::new(100_000));
    assert!(!channel.check_timeout(Timestamp::new(200_000)));
    channel.read_failed();
    assert!(channel.is_closed());
    assert!(!channel.timed_out());
}

#[test]
fn read_outcomes() {
    let mut channel = outbound_channel(Timestamp::new(0));
    assert_eq!(channel.read_outcome(IoOutcome::WouldBlock, Timestamp::new(5)), Ok(0));
    assert_eq!(channel.last_activity(), Timestamp::new(0));
    assert_eq!(channel.read_outcome(IoOutcome::Transferred(12), Timestamp::new(7)), Ok(12));
    assert_eq!(channel.last_activity(), Timestamp::new(7));
    assert!(channel.is_alive());
    assert_eq!(
        channel.read_outcome(IoOutcome::Transferred(0), Timestamp::new(9)),
        Err(ReadError::RemoteClosed)
    );
    assert!(channel.is_closed());

    let mut channel = outbound_channel(Timestamp::new(0));
    assert_eq!(
        channel.read_outcome(IoOutcome::Failed, Timestamp::new(9)),
        Err(ReadError::Stream)
    );
    assert!(channel.is_closed());
}

#[test]
fn write_outcomes() {
    let mut channel = outbound_channel(Timestamp::new(0));
    assert_eq!(
        channel.write_outcome(0, 10, IoOutcome::Transferred(4), Timestamp::new(1)),
        WriteProgress::Continue(4)
    );
    assert_eq!(
        channel.write_outcome(4, 10, IoOutcome::WouldBlock, Timestamp::new(2)),
        WriteProgress::Continue(4)
    );
    assert_eq!(channel.last_activity(), Timestamp::new(0));
    assert_eq!(
        channel.write_outcome(4, 10, IoOutcome::Transferred(6), Timestamp::new(3)),
        WriteProgress::Finished
    );
    assert_eq!(channel.last_activity(), Timestamp::new(3));
    assert_eq!(
        channel.write_outcome(0, 10, IoOutcome::Failed, Timestamp::new(4)),
        WriteProgress::Closed
    );
    assert!(channel.is_closed());
}

#[test]
fn sending_needs_an_open_channel_room_and_bandwidth() {
    let now = Timestamp::new(0);
    let mut limiter = BandwidthLimiter::with_capacities(100, 100, 100, 100, now);
    let mut channel = outbound_channel(now);
    assert!(channel.may_send(10, &mut limiter, 60, TrafficType::Generic, now));
    assert_eq!(limiter.sizes(), (40, 100));
    // not enough tokens left for another 60 bytes
    assert!(!channel.may_send(10, &mut limiter, 60, TrafficType::Generic, now));
    // the bootstrap limiter is separate
    assert!(channel.may_send(10, &mut limiter, 60, TrafficType::BootstrapServer, now));
    // a full queue refuses without paying
    assert!(!channel.may_send(0, &mut limiter, 10, TrafficType::Generic, now));
    assert_eq!(limiter.sizes(), (40, 40));
    channel.close();
    assert!(!channel.may_send(10, &mut limiter, 10, TrafficType::Generic, now));
    assert_eq!(limiter.sizes(), (40, 40));
}
