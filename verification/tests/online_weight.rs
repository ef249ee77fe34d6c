use rsnano::messages::Networks;
use rsnano::online_weight::{max_samples, medium_weight, OnlineWeightSampler};
use rsnano::primitives::Amount;

#[test]
fn median_of_samples() {
    let items = vec![Amount::raw(5), Amount::raw(1), Amount::raw(9), Amount::raw(3)];
    assert_eq!(medium_weight(&items), Amount::raw(5));
    let items = vec![Amount::raw(5), Amount::raw(1), Amount::raw(9)];
    assert_eq!(medium_weight(&items), Amount::raw(5));
    assert_eq!(medium_weight(&vec![]), Amount::zero());
    assert_eq!(medium_weight(&vec![Amount::raw(7)]), Amount::raw(7));
}

#[test]
fn samples_per_network() {
    assert_eq!(max_samples(Networks::NanoTestNetwork), 288);
    assert_eq!(max_samples(Networks::NanoLiveNetwork), 4032);
    assert_eq!(max_samples(Networks::NanoDevNetwork), 4032);
}

#[test]
fn trend_without_samples_is_zero() {
    let sampler = OnlineWeightSampler::new(Networks::NanoDevNetwork);
    assert_eq!(sampler.calculate_trend(), Amount::zero());
}

#[test]
fn trend_is_median_of_samples() {
    let mut sampler = OnlineWeightSampler::new(Networks::NanoDevNetwork);
    sampler.sample(Amount::raw(10), 1);
    sampler.sample(Amount::raw(30), 2);
    sampler.sample(Amount::raw(20), 3);
    assert_eq!(sampler.calculate_trend(), Amount::raw(20));
}

#[test]
fn old_samples_are_dropped() {
    let mut sampler = OnlineWeightSampler::new(Networks::NanoTestNetwork);
    for i in 0..288u64 {
        sampler.sample(Amount::raw(1), i);
    }
    assert_eq!(sampler.calculate_trend(), Amount::raw(1));
    // the newest 288 samples are all large now
    for i in 288..576u64 {
        sampler.sample(Amount::raw(100), i);
    }
    assert_eq!(sampler.calculate_trend(), Amount::raw(100));
}

#[test]
fn sample_at_same_time_replaces() {
    let mut sampler = OnlineWeightSampler::new(Networks::NanoDevNetwork);
    sampler.sample(Amount::raw(10), 5);
    sampler.sample(Amount::raw(50), 5);
    assert_eq!(sampler.calculate_trend(), Amount::raw(50));
}
