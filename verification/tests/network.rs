use rsnano::bandwidth_limiter::{BandwidthLimiter, RateLimiter, TokenBucket};
use rsnano::network::{
    ChannelId, ChannelMode, DataReceiver, NullDataReceiver, NullDataReceiverFactory,
    ReceiveResult, TrafficType,
};
use rsnano::primitives::{Duration, Timestamp};

#[test]
fn test_limit() {
    let start = Timestamp::new(1_000);
    let capacity = (10_f64 * 1.5) as usize;
    let mut limiter = RateLimiter::with_capacity(10, capacity, start);
    assert_eq!(limiter.should_pass(15, start), true);
    assert_eq!(limiter.should_pass(1, start), false);
    let later = start.plus(Duration::from_millis(100));
    assert_eq!(limiter.should_pass(1, later), true);
    assert_eq!(limiter.should_pass(1, later), false);
}

#[test]
fn rate_limiter_refills_up_to_capacity() {
    let start = Timestamp::new(0);
    let mut limiter = RateLimiter::new(100, start);
    assert_eq!(limiter.size(), 100);
    assert!(limiter.should_pass(100, start));
    assert_eq!(limiter.size(), 0);
    // half a second gives back half the rate
    let half = start.plus(Duration::from_millis(500));
    assert!(!limiter.should_pass(60, half));
    assert_eq!(limiter.size(), 50);
    // a long pause refills no more than the capacity
    let much_later = half.plus(Duration::from_secs(60));
    assert!(limiter.should_pass(100, much_later));
    assert!(!limiter.should_pass(1, much_later));
}

#[test]
fn zero_limit_lets_everything_pass() {
    let now = Timestamp::new(5);
    let mut limiter = RateLimiter::new(0, now);
    for _ in 0..10 {
        assert!(limiter.should_pass(1_000_000, now));
    }
}

#[test]
fn token_bucket_requests_larger_than_capacity_fail() {
    let now = Timestamp::new(0);
    let mut bucket = TokenBucket::new(10, 10, now);
    assert!(!bucket.try_consume(11, now));
    assert_eq!(bucket.size(), 10);
}

#[test]
fn bandwidth_limiter_separates_bootstrap_traffic() {
    let now = Timestamp::new(0);
    let mut limiter = BandwidthLimiter::with_capacities(10, 10, 5, 5, now);
    assert!(limiter.should_pass(10, TrafficType::Generic, now));
    assert!(!limiter.should_pass(1, TrafficType::Vote, now));
    assert!(limiter.should_pass(5, TrafficType::BootstrapServer, now));
    assert!(!limiter.should_pass(1, TrafficType::BootstrapServer, now));
    assert_eq!(limiter.sizes(), (0, 0));
    limiter.reset_capacity(20, 20, TrafficType::Generic, now);
    assert_eq!(limiter.sizes(), (20, 0));
}

#[test]
fn channel_ids() {
    assert_eq!(ChannelId::from(7).as_usize(), 7);
    assert_eq!(ChannelId::loopback().as_usize(), 0);
    assert_eq!(ChannelId::max_id().as_usize(), usize::MAX);
    assert!(ChannelId::min_id() < ChannelId::from(1));
}

#[test]
fn channel_mode_names() {
    assert_eq!(ChannelMode::Undefined.as_str(), "undefined");
    assert_eq!(ChannelMode::Realtime.as_str(), "realtime");
}

#[test]
fn null_receiver_continues() {
    let factory = NullDataReceiverFactory::new();
    let mut receiver: NullDataReceiver = factory.create_receiver();
    assert_eq!(receiver.receive(&[1, 2, 3]), ReceiveResult::Continue);
    assert_eq!(receiver.try_unpause(), ReceiveResult::Continue);
}
