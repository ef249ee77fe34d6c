use rsnano::network::ChannelId;
use rsnano::flooding::non_pr_channels;
use rsnano::peer_scoring::PeerScoring;

fn ids(values: &[usize]) -> Vec<ChannelId> {
    values.iter().map(|v| ChannelId::from_usize(*v)).collect()
}

#[test]
fn empty_scoring_hands_out_nothing() {
    let mut scoring = PeerScoring::new(2);
    assert_eq!(scoring.len(), 0);
    assert_eq!(scoring.available(), 0);
    assert_eq!(scoring.channel(&[]), None);
}

#[test]
fn channel_is_used_up_to_the_limit() {
    let mut scoring = PeerScoring::new(2);
    scoring.sync(ids(&[1, 2]));
    assert_eq!(scoring.available(), 2);
    assert_eq!(scoring.channel(&[]), Some(ChannelId::from_usize(1)));
    assert_eq!(scoring.channel(&[]), Some(ChannelId::from_usize(1)));
    assert_eq!(scoring.available(), 1);
    assert_eq!(scoring.channel(&[]), Some(ChannelId::from_usize(2)));
    assert_eq!(scoring.channel(&[]), Some(ChannelId::from_usize(2)));
    assert_eq!(scoring.channel(&[]), None);
    assert_eq!(scoring.available(), 0);
    assert_eq!(scoring.len(), 2);
}

#[test]
fn channels_with_full_queues_are_skipped() {
    let mut scoring = PeerScoring::new(2);
    scoring.sync(ids(&[1, 2]));
    assert_eq!(
        scoring.channel(&ids(&[1])),
        Some(ChannelId::from_usize(2))
    );
    assert_eq!(scoring.channel(&ids(&[1, 2])), None);
    assert_eq!(scoring.len(), 1);
}

#[test]
fn response_frees_a_request_but_not_the_last() {
    let mut scoring = PeerScoring::new(2);
    scoring.sync(ids(&[1]));
    scoring.channel(&[]);
    scoring.channel(&[]);
    assert_eq!(scoring.available(), 0);
    scoring.received_message(ChannelId::from_usize(1));
    assert_eq!(scoring.available(), 1);
    assert_eq!(scoring.channel(&[]), Some(ChannelId::from_usize(1)));
    scoring.received_message(ChannelId::from_usize(1));
    scoring.received_message(ChannelId::from_usize(1));
    // one request stays outstanding
    scoring.channel(&[]);
    assert_eq!(scoring.channel(&[]), None);
}

#[test]
fn timeout_drops_dead_channels_and_decays() {
    let mut scoring = PeerScoring::new(1);
    scoring.sync(ids(&[1, 2]));
    assert_eq!(scoring.channel(&[]), Some(ChannelId::from_usize(1)));
    assert_eq!(scoring.channel(&[]), Some(ChannelId::from_usize(2)));
    assert_eq!(scoring.available(), 0);
    scoring.timeout(&ids(&[2]));
    assert_eq!(scoring.len(), 1);
    assert_eq!(scoring.available(), 2);
    assert_eq!(scoring.channel(&[]), Some(ChannelId::from_usize(1)));
    assert_eq!(scoring.channel(&[]), Some(ChannelId::from_usize(2)));
    assert_eq!(scoring.channel(&[]), None);
}

#[test]
fn zero_limit_still_allows_a_first_request() {
    let mut scoring = PeerScoring::new(0);
    scoring.sync(ids(&[1]));
    assert_eq!(scoring.channel(&[]), Some(ChannelId::from_usize(1)));
    assert_eq!(scoring.channel(&[]), None);
}

#[test]
fn flood_reaches_some_non_representatives() {
    let channels = ids(&[1, 2, 3, 4, 5]);
    let prs = ids(&[2, 4]);
    assert_eq!(non_pr_channels(&channels, &prs, 2), ids(&[1, 3]));
    assert_eq!(non_pr_channels(&channels, &prs, 10), ids(&[1, 3, 5]));
    assert_eq!(non_pr_channels(&channels, &prs, 0), ids(&[]));
    assert_eq!(non_pr_channels(&channels, &[], 4), ids(&[1, 2, 3, 4]));
}
