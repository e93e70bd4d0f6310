use libp2p::identity::Keypair;
use libp2p::swarm::{ConnectionId, NetworkBehaviour};
use libp2p::{Multiaddr, PeerId};
use p2p_transport::behaviour::whitelist::{
    DefaultWhitelistProvider, StreamError, WhitelistBehavior, WhitelistConfig,
};
use p2p_transport::peer::PeerKey;
use p2p_transport::transport::TransportState;
use libp2p::swarm::ToSwarm;
use std::collections::VecDeque;
use std::task::{Context, Poll};
use std::path::PathBuf;
use std::time::Duration;

fn fresh_peer() -> PeerId {
    Keypair::generate_ed25519().public().to_peer_id()
}

fn key(p: &PeerId) -> PeerKey {
    PeerKey::from_bytes(&p.to_bytes()).unwrap()
}

fn allowed(w: &mut WhitelistBehavior, p: &PeerId) -> bool {
    let a: Multiaddr = "/ip4/127.0.0.1/udp/1/quic-v1".parse().unwrap();
    w.inner()
        .handle_established_inbound_connection(ConnectionId::new_unchecked(0), *p, &a, &a)
        .is_ok()
}

#[test]
fn whitelist_config_new_and_default() {
    assert_eq!(WhitelistConfig::new(Duration::from_secs(5)).nodes_update_interval, Duration::from_secs(5));
    assert_eq!(WhitelistConfig::default().nodes_update_interval, Duration::from_secs(60));
}

#[test]
fn default_provider_keeps_its_path() {
    let p = DefaultWhitelistProvider::new(PathBuf::from("/tmp/whitelist"));
    assert_eq!(p.file_path(), &PathBuf::from("/tmp/whitelist"));
}

#[test]
fn nodes_from_lines_skips_unparsable_lines_and_repeats() {
    let (a, b) = (fresh_peer(), fresh_peer());
    let lines = vec![
        Ok(a.to_string()),
        Ok("garbage".to_string()),
        Ok(String::new()),
        Ok(b.to_string()),
        Ok(a.to_string()),
        Ok(format!("{} ", b)),
    ];
    let nodes = DefaultWhitelistProvider::nodes_from_lines(&lines).unwrap();
    assert_eq!(nodes.len(), 2);
    assert_eq!(nodes[0].as_bytes(), a.to_bytes().as_slice());
    assert_eq!(nodes[1].as_bytes(), b.to_bytes().as_slice());
}

#[test]
fn nodes_from_lines_stops_at_first_read_error() {
    let a = fresh_peer();
    let lines = vec![
        Ok(a.to_string()),
        Err(StreamError("first".to_string())),
        Err(StreamError("second".to_string())),
    ];
    let e = DefaultWhitelistProvider::nodes_from_lines(&lines).unwrap_err();
    assert_eq!(e.0, "first");
    assert!(DefaultWhitelistProvider::nodes_from_lines(&vec![]).unwrap().is_empty());
}

#[test]
fn whitelist_update_allows_registered_nodes() {
    let (a, b, c) = (fresh_peer(), fresh_peer(), fresh_peer());
    let mut w = WhitelistBehavior::new();
    assert!(!allowed(&mut w, &a));
    let out = w.on_nodes_update(Ok(vec![key(&a), key(&b), key(&a)])).expect("changed");
    assert_eq!(out.len(), 2);
    assert!(allowed(&mut w, &a));
    assert!(allowed(&mut w, &b));
    assert!(!allowed(&mut w, &c));
    // The same set again changes nothing and is not reported.
    assert!(w.on_nodes_update(Ok(vec![key(&b), key(&a)])).is_none());
    // A new set: `a` drops out, `c` comes in.
    let out = w.on_nodes_update(Ok(vec![key(&b), key(&c)])).expect("changed");
    assert_eq!(out.len(), 2);
    assert!(!allowed(&mut w, &a));
    assert!(allowed(&mut w, &b));
    assert!(allowed(&mut w, &c));
}

#[test]
fn whitelist_failed_fetch_changes_nothing() {
    let a = fresh_peer();
    let mut w = WhitelistBehavior::new();
    w.on_nodes_update(Ok(vec![key(&a)])).unwrap();
    assert!(w.on_nodes_update(Err(StreamError("io".to_string()))).is_none());
    assert!(allowed(&mut w, &a));
    // An empty registered set disallows everyone that was registered.
    assert!(w.on_nodes_update(Ok(vec![])).is_some());
    assert!(!allowed(&mut w, &a));
}

#[test]
fn whitelist_allow_and_disallow_by_hand() {
    let a = fresh_peer();
    let mut w = WhitelistBehavior::new();
    w.allow_peer(key(&a));
    assert!(allowed(&mut w, &a));
    w.disallow_peer(key(&a));
    assert!(!allowed(&mut w, &a));
    // Registered nodes are unaffected by manual changes: reporting `a` re-allows it.
    assert!(w.on_nodes_update(Ok(vec![key(&a)])).is_some());
    assert!(allowed(&mut w, &a));
}

fn msg(t: &str, d: &[u8]) -> (String, Vec<u8>) {
    (t.to_string(), d.to_vec())
}

#[test]
fn topics_register_once() {
    let mut s = TransportState::new();
    s.register_topics(&vec!["blocks", "txs", "blocks"]);
    assert!(s.knows_topic("blocks"));
    assert!(s.knows_topic("txs"));
    assert!(!s.knows_topic("other"));
}

#[test]
fn failed_publish_is_queued_in_order() {
    let mut s = TransportState::new();
    s.on_publish_result("a", vec![1], true);
    s.on_publish_result("b", vec![2], false);
    s.on_publish_result("c", vec![3], false);
    assert_eq!(s.pending_messages(), vec![msg("b", &[2]), msg("c", &[3])]);
}

#[test]
fn retry_round_requeues_only_failures() {
    let mut s = TransportState::new();
    for (t, d) in [("a", 1u8), ("b", 2), ("c", 3), ("d", 4)] {
        s.on_publish_result(t, vec![d], false);
    }
    let batch = s.take_retry_batch();
    assert!(s.pending_messages().is_empty());
    assert_eq!(batch, VecDeque::from(vec![msg("a", &[1]), msg("b", &[2]), msg("c", &[3]), msg("d", &[4])]));
    s.finish_retry(batch, &vec![true, false, true, false]);
    assert_eq!(s.pending_messages(), vec![msg("b", &[2]), msg("d", &[4])]);
    let batch = s.take_retry_batch();
    s.finish_retry(batch, &vec![true, true]);
    assert!(s.pending_messages().is_empty());
}

#[test]
fn retry_round_keeps_everything_when_all_fail() {
    let mut s = TransportState::new();
    s.on_publish_result("x", vec![9, 9], false);
    s.on_publish_result("y", vec![], false);
    let batch = s.take_retry_batch();
    s.finish_retry(batch, &vec![false, false]);
    assert_eq!(s.pending_messages(), vec![msg("x", &[9, 9]), msg("y", &[])]);
}

fn closed_peers(w: &mut WhitelistBehavior) -> Vec<PeerId> {
    let mut cx = Context::from_waker(futures::task::noop_waker_ref());
    let mut closed = Vec::new();
    while let Poll::Ready(ev) = w.inner().poll(&mut cx) {
        match ev {
            ToSwarm::CloseConnection { peer_id, .. } => closed.push(peer_id),
            _ => {}
        }
    }
    closed
}

#[test]
fn whitelist_update_closes_only_dropped_peers() {
    let (a, b, c, d) = (fresh_peer(), fresh_peer(), fresh_peer(), fresh_peer());
    let mut w = WhitelistBehavior::new();
    w.on_nodes_update(Ok(vec![key(&a), key(&b), key(&c)])).unwrap();
    assert!(closed_peers(&mut w).is_empty());
    // `d` allowed by hand is not touched when it becomes registered.
    w.allow_peer(key(&d));
    w.on_nodes_update(Ok(vec![key(&b), key(&d)])).unwrap();
    assert_eq!(closed_peers(&mut w), vec![a, c]);
    assert!(allowed(&mut w, &d));
    // An unchanged report closes nothing.
    assert!(w.on_nodes_update(Ok(vec![key(&d), key(&b)])).is_none());
    assert!(closed_peers(&mut w).is_empty());
}
