use rsnano::bootstrap::BootstrapMode;
use rsnano::keepalive::{
    cleanup_interval, keepalive_or_connect, reachout_peers, KeepaliveAction, KeepaliveMessageFactory,
};
use rsnano::network::ChannelId;
use rsnano::messages::{Keepalive, Message, Peer};

fn peer(last: u8, port: u16) -> Peer {
    let mut address = [0u8; 16];
    address[15] = last;
    Peer { address, port }
}

fn sampled() -> [Peer; 8] {
    [
        peer(1, 1),
        peer(2, 2),
        peer(3, 3),
        peer(4, 4),
        peer(5, 5),
        peer(6, 6),
        peer(7, 7),
        peer(8, 8),
    ]
}

fn peers_of(message: Message) -> [Peer; 8] {
    match message {
        Message::Keepalive(k) => k.peers,
        _ => panic!("not a keepalive"),
    }
}

#[test]
fn own_keepalive_with_external_address() {
    let factory = KeepaliveMessageFactory::new(peer(9, 7075));
    let peers = peers_of(factory.create_keepalive_self(sampled(), 54000));
    assert_eq!(peers[0], peer(9, 7075));
    assert_eq!(peers[1], Peer { address: [0; 16], port: 0 });
    assert_eq!(peers[2], peer(1, 1));
    assert_eq!(peers[3], peer(2, 2));
    assert_eq!(&peers[4..], &sampled()[4..]);
}

#[test]
fn own_keepalive_without_external_address() {
    let factory = KeepaliveMessageFactory::new(Peer { address: [0; 16], port: 7075 });
    let peers = peers_of(factory.create_keepalive_self(sampled(), 54000));
    assert_eq!(peers[0], Peer { address: [0; 16], port: 54000 });
    let factory = KeepaliveMessageFactory::new(peer(9, 0));
    let peers = peers_of(factory.create_keepalive_self(sampled(), 54000));
    assert_eq!(peers[0], Peer { address: [0; 16], port: 54000 });
}

#[test]
fn keepalive_passes_on_sampled_peers() {
    let factory = KeepaliveMessageFactory::new(peer(9, 7075));
    assert_eq!(peers_of(factory.create_keepalive(sampled())), sampled());
}

#[test]
fn bootstrap_mode_names() {
    assert_eq!(BootstrapMode::Legacy.as_str(), "legacy");
    assert_eq!(BootstrapMode::Lazy.as_str(), "lazy");
    assert_eq!(BootstrapMode::WalletLazy.as_str(), "wallet_lazy");
    assert_eq!(BootstrapMode::Ascending.as_str(), "ascending");
}

#[test]
fn keepalive_goes_to_existing_channel_or_connects() {
    assert_eq!(
        keepalive_or_connect(Some(ChannelId::from_usize(4))),
        KeepaliveAction::SendKeepalive(ChannelId::from_usize(4))
    );
    assert_eq!(keepalive_or_connect(None), KeepaliveAction::Connect);
}

#[test]
fn reachout_skips_unspecified_peers() {
    let mut peers = sampled();
    peers[1] = Peer { address: [0; 16], port: 7075 };
    peers[5] = Peer { address: [0; 16], port: 0 };
    let targets = reachout_peers(&Keepalive { peers });
    assert_eq!(
        targets,
        vec![peer(1, 1), peer(3, 3), peer(4, 4), peer(5, 5), peer(7, 7), peer(8, 8)]
    );
}

#[test]
fn cleanup_intervals() {
    assert_eq!(cleanup_interval(true).as_secs(), 1);
    assert_eq!(cleanup_interval(false).as_secs(), 5);
}
