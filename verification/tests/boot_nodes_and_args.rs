use libp2p::identity::Keypair;
use libp2p::multiaddr::Multiaddr;
use libp2p::PeerId;
use p2p_transport::cli::{BootNode, TransportArgs, TESTING_PEERS_FILE};
use p2p_transport::peer::PeerKey;
use std::path::PathBuf;

fn fresh_peer() -> PeerId {
    Keypair::generate_ed25519().public().to_peer_id()
}

#[test]
fn boot_node_parses_peer_and_address() {
    let id = fresh_peer();
    let text = format!("{} /ip4/127.0.0.1/udp/9000/quic-v1", id);
    let b = BootNode::parse(&text).expect("a boot node");
    assert_eq!(b.peer_id.as_bytes(), id.to_bytes().as_slice());
    let m: Multiaddr = "/ip4/127.0.0.1/udp/9000/quic-v1".parse().unwrap();
    assert_eq!(b.address.as_bytes(), m.to_vec().as_slice());
}

#[test]
fn boot_node_ignores_surrounding_whitespace_and_extra_words() {
    let id = fresh_peer();
    let text = format!("\t {}\n\n/ip4/10.1.2.3/udp/1/quic-v1   trailing words", id);
    let b: BootNode = text.parse().expect("a boot node");
    let m: Multiaddr = "/ip4/10.1.2.3/udp/1/quic-v1".parse().unwrap();
    assert_eq!(b.address.as_bytes(), m.to_vec().as_slice());
}

#[test]
fn boot_node_errors() {
    let id = fresh_peer();
    assert_eq!(BootNode::parse("").unwrap_err(), "Boot node peer ID missing");
    assert_eq!(BootNode::parse("  \t ").unwrap_err(), "Boot node peer ID missing");
    assert_eq!(
        BootNode::parse("nonsense /ip4/127.0.0.1").unwrap_err(),
        "Invalid peer ID"
    );
    assert_eq!(
        BootNode::parse(&id.to_string()).unwrap_err(),
        "Boot node address missing"
    );
    assert_eq!(
        BootNode::parse(&format!("{id} not-an-address")).unwrap_err(),
        "Invalid address"
    );
    // The peer id is checked before the address is looked for.
    assert_eq!(BootNode::parse("nonsense").unwrap_err(), "Invalid peer ID");
}

#[test]
fn transport_args_listen_addrs_copies() {
    let a = p2p_transport::address::Address::local_quic(7000);
    let args = TransportArgs {
        key: PathBuf::from("k"),
        p2p_listen_addrs: vec![a.duplicate(), p2p_transport::address::Address::local_quic(7001)],
        p2p_public_addrs: vec![],
        boot_nodes: vec![],
        network: "n".to_string(),
        protocol_id: "p".to_string(),
        whitelist: PathBuf::from("w"),
    };
    let l = args.listen_addrs();
    assert_eq!(l.len(), 2);
    assert_eq!(l[0].as_bytes(), a.as_bytes());
}

#[test]
fn testing_args_build_a_local_network() {
    let ids: Vec<PeerId> = (0..3).map(|_| fresh_peer()).collect();
    let peers: Vec<PeerKey> = ids
        .iter()
        .map(|p| PeerKey::from_bytes(&p.to_bytes()).unwrap())
        .collect();
    let args = TransportArgs::testing_args(&peers);
    assert_eq!(args.len(), 3);
    for (i, a) in args.iter().enumerate() {
        let port = 9000 + i as u16;
        let m: Multiaddr = format!("/ip4/127.0.0.1/udp/{port}/quic-v1").parse().unwrap();
        assert_eq!(a.p2p_listen_addrs.len(), 1);
        assert_eq!(a.p2p_listen_addrs[0].as_bytes(), m.to_vec().as_slice());
        assert_eq!(a.p2p_public_addrs[0].as_bytes(), m.to_vec().as_slice());
        assert_eq!(a.key, PathBuf::from(format!("testnet/{}-key", ids[i])));
        assert_eq!(a.whitelist, PathBuf::from("testnet/whitelist"));
        assert_eq!(a.network, "dht/testnet/1.0.0");
        assert_eq!(a.protocol_id, "/testing/1.0.0");
        if i == 0 {
            assert!(a.boot_nodes.is_empty());
        } else {
            assert_eq!(a.boot_nodes.len(), 1);
            assert_eq!(a.boot_nodes[0].peer_id.as_bytes(), ids[0].to_bytes().as_slice());
            let first: Multiaddr = "/ip4/127.0.0.1/udp/9000/quic-v1".parse().unwrap();
            assert_eq!(a.boot_nodes[0].address.as_bytes(), first.to_vec().as_slice());
        }
    }
    assert_eq!(TESTING_PEERS_FILE, "testnet/authority_peers");
}

#[test]
fn boot_node_reads_back_its_peer_text() {
    let id = fresh_peer();
    let key = PeerKey::from_bytes(&id.to_bytes()).unwrap();
    let text = key.to_base58();
    assert!(!text.chars().any(char::is_whitespace));
    let b = BootNode::parse(&format!("{text} /ip4/1.2.3.4/udp/5/quic-v1")).unwrap();
    assert!(b.peer_id.same_peer(&key));
    let again = BootNode::parse(&format!("\n{text}\t \t/ip4/1.2.3.4/udp/5/quic-v1  x y")).unwrap();
    assert!(again.peer_id.same_peer(&key));
    assert_eq!(again.address.as_bytes(), b.address.as_bytes());
}
