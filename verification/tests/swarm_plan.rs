use libp2p::identity::Keypair;
use libp2p::multiaddr::{Multiaddr, Protocol};
use libp2p::PeerId;
use p2p_transport::address::Address;
use p2p_transport::builder::{P2PTransportBuilder, QuicConfig, SwarmAction};
use p2p_transport::cli::{BootNode, TransportArgs};
use p2p_transport::peer::PeerKey;
use p2p_transport::AgentInfo;
use std::path::PathBuf;

fn addr(s: &str) -> Address {
    Address::parse(s).unwrap()
}

fn bytes(s: &str) -> Vec<u8> {
    s.parse::<Multiaddr>().unwrap().to_vec()
}

fn boot(id: PeerId, a: &str) -> BootNode {
    BootNode { peer_id: PeerKey::from_bytes(&id.to_bytes()).unwrap(), address: addr(a) }
}

fn quic() -> QuicConfig {
    QuicConfig { mtu_discovery_max: 1452, keep_alive_interval_ms: 5000, max_idle_timeout_ms: 60000 }
}

fn builder(b1: PeerId, b2: PeerId) -> P2PTransportBuilder<&'static str> {
    let args = TransportArgs {
        key: PathBuf::from("key"),
        p2p_listen_addrs: vec![addr("/ip4/0.0.0.0/udp/9000/quic-v1")],
        p2p_public_addrs: vec![addr("/ip4/1.2.3.4/udp/9000/quic-v1")],
        boot_nodes: vec![boot(b1, "/ip4/5.5.5.5/udp/1/quic-v1")],
        network: "/dht/testnet/1.0.0".to_string(),
        protocol_id: "/testing/1.0.0".to_string(),
        whitelist: PathBuf::from("whitelist"),
    };
    let keypair = Keypair::generate_ed25519();
    P2PTransportBuilder::from_cli(args, keypair, quic(), "proto", AgentInfo { name: "n", version: "v" })
        .with_listen_addrs(vec![addr("/ip4/0.0.0.0/udp/9001/quic-v1")])
        .with_boot_nodes(vec![boot(b2, "/ip4/6.6.6.6/udp/2/quic-v1")])
}

fn view(a: &SwarmAction) -> (u8, Vec<u8>, Vec<u8>) {
    match a {
        SwarmAction::Listen(x) => (0, x.as_bytes().to_vec(), vec![]),
        SwarmAction::AddExternalAddress(x) => (1, x.as_bytes().to_vec(), vec![]),
        SwarmAction::Dial(b) => (2, b.address.as_bytes().to_vec(), b.peer_id.as_bytes().to_vec()),
    }
}

fn fresh_peer() -> PeerId {
    Keypair::generate_ed25519().public().to_peer_id()
}

#[test]
fn plan_without_relay_listens_announces_and_dials_in_order() {
    let (b1, b2) = (fresh_peer(), fresh_peer());
    let acts: Vec<_> = builder(b1, b2).swarm_actions().iter().map(view).collect();
    assert_eq!(
        acts,
        vec![
            (0, bytes("/ip4/0.0.0.0/udp/9000/quic-v1"), vec![]),
            (0, bytes("/ip4/0.0.0.0/udp/9001/quic-v1"), vec![]),
            (1, bytes("/ip4/1.2.3.4/udp/9000/quic-v1"), vec![]),
            (2, bytes("/ip4/5.5.5.5/udp/1/quic-v1"), b1.to_bytes()),
            (2, bytes("/ip4/6.6.6.6/udp/2/quic-v1"), b2.to_bytes()),
        ]
    );
}

#[test]
fn plan_with_relay_and_no_relay_addresses_relays_through_boot_nodes() {
    let (b1, b2) = (fresh_peer(), fresh_peer());
    let acts: Vec<_> = builder(b1, b2).with_relay(true).swarm_actions().iter().map(view).collect();
    assert_eq!(acts.len(), 7);
    let r1 = "/ip4/5.5.5.5/udp/1/quic-v1"
        .parse::<Multiaddr>()
        .unwrap()
        .with(Protocol::P2p(b1))
        .with(Protocol::P2pCircuit);
    let r2 = "/ip4/6.6.6.6/udp/2/quic-v1"
        .parse::<Multiaddr>()
        .unwrap()
        .with(Protocol::P2p(b2))
        .with(Protocol::P2pCircuit);
    assert_eq!(acts[5], (0, r1.to_vec(), vec![]));
    assert_eq!(acts[6], (0, r2.to_vec(), vec![]));
}

#[test]
fn plan_with_relay_addresses_listens_through_them() {
    let (b1, b2) = (fresh_peer(), fresh_peer());
    let acts: Vec<_> = builder(b1, b2)
        .with_relay_addrs(vec![addr("/ip4/7.7.7.7/udp/3/quic-v1")])
        .swarm_actions()
        .iter()
        .map(view)
        .collect();
    assert_eq!(acts.len(), 6);
    let r = "/ip4/7.7.7.7/udp/3/quic-v1"
        .parse::<Multiaddr>()
        .unwrap()
        .with(Protocol::P2pCircuit);
    assert_eq!(acts[5], (0, r.to_vec(), vec![]));
}

#[test]
fn relay_addresses_are_unused_when_relay_is_turned_off() {
    let (b1, b2) = (fresh_peer(), fresh_peer());
    let acts = builder(b1, b2)
        .with_relay_addrs(vec![addr("/ip4/7.7.7.7/udp/3/quic-v1")])
        .with_relay(false)
        .swarm_actions();
    assert_eq!(acts.len(), 5);
}

#[test]
fn builder_settings() {
    let (b1, b2) = (fresh_peer(), fresh_peer());
    let b = builder(b1, b2)
        .with_public_addrs(vec![addr("/ip4/9.9.9.9/udp/9/quic-v1")])
        .with_quic_config(|mut q| {
            q.mtu_discovery_max = 1300;
            q
        });
    assert_eq!(b.quic_config().mtu_discovery_max, 1300);
    assert_eq!(b.quic_config().keep_alive_interval_ms, 5000);
    assert_eq!(*b.protocol(), "proto");
    assert_eq!(b.agent_info().name, "n");
    assert_eq!(b.boot_nodes().len(), 2);
    let kp = b.keypair();
    assert_eq!(b.local_peer_id().as_bytes(), kp.public().to_peer_id().to_bytes().as_slice());
    assert_eq!(b.swarm_actions().len(), 6);
}

#[test]
fn get_keypair_reads_ed25519_key_bytes() {
    let kp = libp2p::identity::ed25519::Keypair::generate();
    let bytes = kp.to_bytes();
    let decoded = p2p_transport::builder::get_keypair(&bytes).expect("a key pair");
    let id = decoded.public().to_peer_id();
    assert_eq!(id, Keypair::from(kp).public().to_peer_id());
    let mut expected = vec![0x00, 0x24, 0x08, 0x01, 0x12, 0x20];
    expected.extend_from_slice(&bytes[32..]);
    assert_eq!(id.to_bytes(), expected);
    assert_eq!(PeerKey::of_keypair(&decoded).as_bytes(), expected.as_slice());
}

#[test]
fn get_keypair_refuses_other_bytes() {
    assert!(p2p_transport::builder::get_keypair(&[0u8; 10]).is_none());
    let mut bytes = libp2p::identity::ed25519::Keypair::generate().to_bytes();
    bytes[40] ^= 0xff;
    assert!(p2p_transport::builder::get_keypair(&bytes).is_none());
}

#[test]
fn builder_methods_keep_the_identity() {
    let (b1, b2) = (fresh_peer(), fresh_peer());
    let b = builder(b1, b2);
    let before = b.local_peer_id();
    assert_eq!(before.as_bytes(), b.keypair().public().to_peer_id().to_bytes().as_slice());
    let after = b
        .with_relay(true)
        .with_public_addrs(vec![addr("/ip4/9.9.9.9/udp/9/quic-v1")])
        .with_relay_addrs(vec![addr("/ip4/7.7.7.7/udp/3/quic-v1")])
        .with_quic_config(|q| q)
        .local_peer_id();
    assert!(after.same_peer(&before));
}
