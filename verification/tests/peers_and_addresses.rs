use libp2p::identity::Keypair;
use libp2p::multiaddr::{Multiaddr, Protocol};
use libp2p::PeerId;
use p2p_transport::address::{Address, Component};
use p2p_transport::peer::PeerKey;

fn fresh_peer() -> PeerId {
    Keypair::generate_ed25519().public().to_peer_id()
}

#[test]
fn peer_key_parses_base58_peer_id() {
    let id = fresh_peer();
    let key = PeerKey::parse(&id.to_base58()).expect("a peer id parses");
    assert_eq!(key.as_bytes(), id.to_bytes().as_slice());
    assert_eq!(key.to_base58(), id.to_base58());
}

#[test]
fn peer_key_refuses_text_that_is_no_peer_id() {
    assert!(PeerKey::parse("not-a-peer").is_none());
    assert!(PeerKey::parse("").is_none());
    let id = fresh_peer();
    assert!(PeerKey::parse(&format!(" {}", id.to_base58())).is_none());
}

#[test]
fn peer_key_from_bytes_round_trips() {
    let id = fresh_peer();
    let key = PeerKey::from_bytes(&id.to_bytes()).expect("peer id bytes");
    let again = PeerKey::from_bytes(key.as_bytes()).expect("round trip");
    assert!(key.same_peer(&again));
    assert!(PeerKey::from_bytes(&[1, 2, 3]).is_none());
}

#[test]
fn peer_key_same_peer_compares_ids() {
    let a = fresh_peer();
    let b = fresh_peer();
    let ka = PeerKey::parse(&a.to_base58()).unwrap();
    let kb = PeerKey::parse(&b.to_base58()).unwrap();
    assert!(ka.same_peer(&ka.duplicate()));
    assert!(!ka.same_peer(&kb));
}

#[test]
fn peer_key_of_keypair_is_its_peer_id() {
    let k = Keypair::generate_ed25519();
    let key = PeerKey::of_keypair(&k);
    assert_eq!(key.as_bytes(), k.public().to_peer_id().to_bytes().as_slice());
}

#[test]
fn address_parses_multiaddr_text() {
    let text = "/ip4/127.0.0.1/udp/9000/quic-v1";
    let a = Address::parse(text).expect("an address");
    let m: Multiaddr = text.parse().unwrap();
    assert_eq!(a.as_bytes(), m.to_vec().as_slice());
    assert!(Address::parse("ip4/127.0.0.1").is_none());
    assert!(Address::parse("/ip4/300.0.0.1").is_none());
}

#[test]
fn address_local_quic_matches_multiaddr() {
    let a = Address::local_quic(9001);
    let m: Multiaddr = "/ip4/127.0.0.1/udp/9001/quic-v1".parse().unwrap();
    assert_eq!(a.as_bytes(), m.to_vec().as_slice());
    assert_eq!(
        a.as_bytes(),
        &[4, 127, 0, 0, 1, 0x91, 0x02, 0x23, 0x29, 0xcd, 0x03]
    );
}

#[test]
fn address_with_appends_components() {
    let id = fresh_peer();
    let key = PeerKey::parse(&id.to_base58()).unwrap();
    let base = Address::parse("/ip4/10.0.0.1/udp/4001/quic-v1").unwrap();
    let relayed = base.with(&Component::P2p(key)).with(&Component::P2pCircuit);
    let m: Multiaddr = "/ip4/10.0.0.1/udp/4001/quic-v1".parse().unwrap();
    let expected = m.with(Protocol::P2p(id)).with(Protocol::P2pCircuit);
    assert_eq!(relayed.as_bytes(), expected.to_vec().as_slice());
    // The result differs from the argument: the components were appended.
    assert!(relayed.as_bytes().len() > base.as_bytes().len());
}

#[test]
fn address_from_bytes_checks_encoding() {
    assert!(Address::from_bytes(vec![]).is_some());
    assert!(Address::from_bytes(vec![0xff, 0xff, 0xff]).is_none());
    let m: Multiaddr = "/ip4/1.2.3.4/udp/5/quic-v1".parse().unwrap();
    let a = Address::from_bytes(m.to_vec()).unwrap();
    assert_eq!(a.as_bytes(), m.to_vec().as_slice());
    assert_eq!(Address::empty().as_bytes().len(), 0);
}
