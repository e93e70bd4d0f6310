//! Transport arguments and boot nodes.
use crate::address::{Address, addr_seq, copy_addresses, local_quic_bytes, multiaddr_text_bytes};
use crate::peer::{PeerKey, peer_id_base58, peer_id_text_bytes};
use crate::text::{
    all_space, char_is_whitespace, lemma_skip_space_run, lemma_skip_word_run, next_word,
    next_word_of, no_space,
};
use std::path::PathBuf;
use vstd::prelude::*;

verus! {

/// The file that lists the authority peers of a test network.
pub const TESTING_PEERS_FILE: &'static str = "testnet/authority_peers";

/// What a boot node's text `<peer_id> <address>` reads as: the peer's and the address's byte
/// encodings, or the message of the first part that is missing or does not parse. Words after the
/// address are ignored.
pub open spec fn boot_node_fields(s: Seq<char>) -> Result<(Seq<u8>, Seq<u8>), Seq<char>> {
    match next_word(s, 0) {
        None => Err("Boot node peer ID missing"@),
        Some((peer_text, end)) => match peer_id_text_bytes(peer_text) {
            None => Err("Invalid peer ID"@),
            Some(peer) => match next_word(s, end) {
                None => Err("Boot node address missing"@),
                Some((address_text, _)) => match multiaddr_text_bytes(address_text) {
                    None => Err("Invalid address"@),
                    Some(address) => Ok((peer, address)),
                },
            },
        },
    }
}

/// Whitespace around the peer id and the address, however much and of whatever kind, and
/// anything after the whitespace that ends the address, leave a boot node's text reading the
/// same: as the peer id and the address alone.
pub proof fn lemma_boot_node_fields_ignore_spacing(
    w1: Seq<char>,
    peer: Seq<char>,
    w2: Seq<char>,
    address: Seq<char>,
    tail: Seq<char>,
)
    requires
        all_space(w1),
        peer.len() > 0,
        no_space(peer),
        w2.len() > 0,
        all_space(w2),
        address.len() > 0,
        no_space(address),
        tail.len() == 0 || char_is_whitespace(tail[0]),
    ensures
        boot_node_fields(w1 + peer + w2 + address + tail) == (match peer_id_text_bytes(peer) {
            None => Err("Invalid peer ID"@),
            Some(k) => match multiaddr_text_bytes(address) {
                None => Err("Invalid address"@),
                Some(a) => Ok((k, a)),
            },
        }),
{
    let s = w1 + peer + w2 + address + tail;
    let i1 = w1.len() as int;
    let i2 = i1 + peer.len();
    let i3 = i2 + w2.len();
    let i4 = i3 + address.len();
    assert forall|k: int| 0 <= k < i1 implies char_is_whitespace(#[trigger] s[k]) by {
        assert(s[k] == w1[k]);
    }
    assert(s[i1] == peer[0]);
    lemma_skip_space_run(s, 0, i1);
    assert forall|k: int| i1 <= k < i2 implies !char_is_whitespace(#[trigger] s[k]) by {
        assert(s[k] == peer[k - i1]);
    }
    assert(s[i2] == w2[0]);
    lemma_skip_word_run(s, i1, i2);
    assert(s.subrange(i1, i2) =~= peer);
    assert forall|k: int| i2 <= k < i3 implies char_is_whitespace(#[trigger] s[k]) by {
        assert(s[k] == w2[k - i2]);
    }
    assert(s[i3] == address[0]);
    lemma_skip_space_run(s, i2, i3);
    assert forall|k: int| i3 <= k < i4 implies !char_is_whitespace(#[trigger] s[k]) by {
        assert(s[k] == address[k - i3]);
    }
    if tail.len() > 0 {
        assert(s[i4] == tail[0]);
    }
    lemma_skip_word_run(s, i3, i4);
    assert(s.subrange(i3, i4) =~= address);
}

/// The text `<peer id> <address>` of a peer id's text (such as `PeerKey::to_base58` writes) and
/// an address's text, each a single word, reads as that peer and that address; so does the same
/// text with any whitespace around the words and anything after whitespace that ends the
/// address.
pub proof fn lemma_boot_node_text_reads_back(
    peer: Seq<u8>,
    peer_text: Seq<char>,
    address: Seq<u8>,
    address_text: Seq<char>,
    w1: Seq<char>,
    w2: Seq<char>,
    tail: Seq<char>,
)
    requires
        peer_id_text_bytes(peer_text) == Some(peer),
        peer_text.len() > 0,
        no_space(peer_text),
        multiaddr_text_bytes(address_text) == Some(address),
        address_text.len() > 0,
        no_space(address_text),
        all_space(w1),
        w2.len() > 0,
        all_space(w2),
        tail.len() == 0 || char_is_whitespace(tail[0]),
    ensures
        boot_node_fields(peer_text + seq![' '] + address_text) == Ok::<
            (Seq<u8>, Seq<u8>),
            Seq<char>,
        >((peer, address)),
        boot_node_fields(w1 + peer_text + w2 + address_text + tail) == Ok::<
            (Seq<u8>, Seq<u8>),
            Seq<char>,
        >((peer, address)),
{
    lemma_boot_node_fields_ignore_spacing(w1, peer_text, w2, address_text, tail);
    let empty = Seq::<char>::empty();
    assert(all_space(empty));
    assert(all_space(seq![' ']));
    lemma_boot_node_fields_ignore_spacing(empty, peer_text, seq![' '], address_text, empty);
    assert(empty + peer_text + seq![' '] + address_text + empty =~= peer_text + seq![' ']
        + address_text);
}

/// A node to connect to at start-up.
#[derive(Debug)]
pub struct BootNode {
    pub peer_id: PeerKey,
    pub address: Address,
}

impl BootNode {
    /// Reads a boot node from the text `<peer_id> <address>`, words separated by whitespace.
    pub fn parse(s: &str) -> (r: Result<BootNode, &'static str>)
        ensures
            match r {
                Ok(b) => boot_node_fields(s@) == Ok::<(Seq<u8>, Seq<u8>), Seq<char>>(
                    (b.peer_id@, b.address@),
                ),
                Err(e) => boot_node_fields(s@) == Err::<(Seq<u8>, Seq<u8>), Seq<char>>(e@),
            },
    {
        let (peer_text, end) = match next_word_of(s, 0) {
            Some(w) => w,
            None => {
                return Err("Boot node peer ID missing");
            },
        };
        let peer_id = match PeerKey::parse(peer_text) {
            Some(k) => k,
            None => {
                return Err("Invalid peer ID");
            },
        };
        proof {
            let (w, e) = next_word(s@, 0)->Some_0;
            assert(e <= s@.len()) by {
                crate::text::lemma_next_word_end(s@, 0);
            }
        }
        let (address_text, _) = match next_word_of(s, end) {
            Some(w) => w,
            None => {
                return Err("Boot node address missing");
            },
        };
        let address = match Address::parse(address_text) {
            Some(a) => a,
            None => {
                return Err("Invalid address");
            },
        };
        Ok(BootNode { peer_id, address })
    }
}

/// The peers and addresses of a sequence of boot nodes, in order.
pub open spec fn boot_seq(v: Seq<BootNode>) -> Seq<(Seq<u8>, Seq<u8>)> {
    v.map_values(|b: BootNode| (b.peer_id@, b.address@))
}

impl BootNode {
    /// A copy of this boot node.
    pub fn duplicate(&self) -> (r: BootNode)
        ensures
            r.peer_id@ == self.peer_id@,
            r.address@ == self.address@,
    {
        BootNode { peer_id: self.peer_id.duplicate(), address: self.address.duplicate() }
    }
}

/// A copy of a sequence of boot nodes, in the same order.
pub fn copy_boot_nodes(v: &Vec<BootNode>) -> (r: Vec<BootNode>)
    ensures
        boot_seq(r@) == boot_seq(v@),
{
    let mut r: Vec<BootNode> = Vec::new();
    let mut i: usize = 0;
    while i < v.len()
        invariant
            i <= v.len(),
            boot_seq(r@) == boot_seq(v@.take(i as int)),
        decreases v.len() - i,
    {
        let b = v[i].duplicate();
        proof {
            assert(boot_seq(r@.push(b)) =~= boot_seq(r@).push((b.peer_id@, b.address@)));
            assert(boot_seq(v@.take(i + 1)) =~= boot_seq(v@.take(i as int)).push(
                (v@[i as int].peer_id@, v@[i as int].address@),
            ));
        }
        r.push(b);
        i = i + 1;
    }
    assert(v@.take(v@.len() as int) == v@);
    r
}

/// The path that `PathBuf::from` makes of the text `s`.
pub uninterp spec fn path_from_text(s: Seq<char>) -> PathBuf;

/// Calls `PathBuf::from(String)`.
#[verifier::external_body]
fn make_path(s: String) -> (p: PathBuf)
    ensures
        p == path_from_text(s@),
{
    PathBuf::from(s)
}

/// The transport's command-line arguments.
pub struct TransportArgs {
    /// Path to the libp2p key file.
    pub key: PathBuf,
    /// Addresses on which the node listens.
    pub p2p_listen_addrs: Vec<Address>,
    /// Public addresses at which the node can be reached.
    pub p2p_public_addrs: Vec<Address>,
    /// Nodes to connect to at start-up.
    pub boot_nodes: Vec<BootNode>,
    /// The network to join.
    pub network: String,
    /// The protocol id.
    pub protocol_id: String,
    /// Path to the whitelist file.
    pub whitelist: PathBuf,
}

/// The port of the `i`-th node of a test network.
pub open spec fn testing_port(i: int) -> u16 {
    (9000 + i) as u16
}

/// What the `i`-th arguments of a test network over `peers` hold: the node listens, and is
/// reachable, at QUIC on the local host on port `9000 + i`; it reads its key from
/// `testnet/<peer id>-key`; every node but the first boots from the first.
pub open spec fn testing_args_at(args: TransportArgs, peers: Seq<PeerKey>, i: int) -> bool {
    &&& args.key == path_from_text("testnet/"@ + peer_id_base58(peers[i]@) + "-key"@)
    &&& addr_seq(args.p2p_listen_addrs@) == seq![local_quic_bytes(testing_port(i))]
    &&& addr_seq(args.p2p_public_addrs@) == seq![local_quic_bytes(testing_port(i))]
    &&& boot_seq(args.boot_nodes@) == (if i == 0 {
        Seq::<(Seq<u8>, Seq<u8>)>::empty()
    } else {
        seq![(peers[0]@, local_quic_bytes(testing_port(0)))]
    })
    &&& args.network@ == "dht/testnet/1.0.0"@
    &&& args.protocol_id@ == "/testing/1.0.0"@
    &&& args.whitelist == path_from_text("testnet/whitelist"@)
}

proof fn lemma_local_quic_port_bytes(port: u16)
    ensures
        local_quic_bytes(port).len() == 11,
        local_quic_bytes(port)[7] == (port / 256) as u8,
        local_quic_bytes(port)[8] == (port % 256) as u8,
{
    reveal_with_fuel(crate::address::uvarint, 3);
    assert(crate::address::uvarint(4) == seq![4u8]);
    assert(crate::address::uvarint(273).len() == 2);
    assert(crate::address::uvarint(461).len() == 2);
}

/// Nodes on different ports listen at different addresses.
proof fn lemma_local_quic_distinct(p: u16, q: u16)
    requires
        p != q,
    ensures
        local_quic_bytes(p) != local_quic_bytes(q),
{
    lemma_local_quic_port_bytes(p);
    lemma_local_quic_port_bytes(q);
    if local_quic_bytes(p) == local_quic_bytes(q) {
        assert(p / 256 == q / 256);
        assert(p % 256 == q % 256);
        assert(p == 256 * (p / 256) + p % 256);
        assert(q == 256 * (q / 256) + q % 256);
    }
}

/// In a test network, every node announces exactly the one address it listens at, no two nodes
/// share that address, the first node boots from no one, and every other node boots from the
/// first node at the address the first node listens at.
pub proof fn lemma_testing_args_network(args: Seq<TransportArgs>, peers: Seq<PeerKey>)
    requires
        args.len() == peers.len(),
        peers.len() <= 65536 - 9000,
        forall|i: int| 0 <= i < peers.len() ==> testing_args_at(#[trigger] args[i], peers, i),
    ensures
        forall|i: int|
            0 <= i < args.len() ==> addr_seq((#[trigger] args[i]).p2p_public_addrs@) == addr_seq(
                args[i].p2p_listen_addrs@,
            ) && addr_seq(args[i].p2p_listen_addrs@).len() == 1,
        forall|i: int, j: int|
            0 <= i < args.len() && 0 <= j < args.len() && i != j ==> addr_seq(
                (#[trigger] args[i]).p2p_listen_addrs@,
            )[0] != addr_seq((#[trigger] args[j]).p2p_listen_addrs@)[0],
        args.len() > 0 ==> boot_seq(args[0].boot_nodes@).len() == 0,
        forall|i: int|
            0 < i < args.len() ==> boot_seq((#[trigger] args[i]).boot_nodes@) == seq![
                (peers[0]@, addr_seq(args[0].p2p_listen_addrs@)[0]),
            ],
{
    assert forall|i: int, j: int|
        0 <= i < args.len() && 0 <= j < args.len() && i != j implies addr_seq(
        (#[trigger] args[i]).p2p_listen_addrs@,
    )[0] != addr_seq((#[trigger] args[j]).p2p_listen_addrs@)[0] by {
        assert(testing_args_at(args[i], peers, i));
        assert(testing_args_at(args[j], peers, j));
        assert(testing_port(i) != testing_port(j));
        lemma_local_quic_distinct(testing_port(i), testing_port(j));
    }
    if args.len() > 0 {
        assert(testing_args_at(args[0], peers, 0));
    }
}

impl TransportArgs {
    /// The addresses on which the node listens.
    pub fn listen_addrs(&self) -> (r: Vec<Address>)
        ensures
            addr_seq(r@) == addr_seq(self.p2p_listen_addrs@),
    {
        copy_addresses(&self.p2p_listen_addrs)
    }

    /// The arguments of the nodes of a local test network, one per peer, in order.
    pub fn testing_args(peers: &Vec<PeerKey>) -> (r: Vec<TransportArgs>)
        requires
            peers.len() <= 65536 - 9000,
        ensures
            r.len() == peers.len(),
            forall|i: int| 0 <= i < peers.len() ==> testing_args_at(#[trigger] r@[i], peers@, i),
    {
        let mut args: Vec<TransportArgs> = Vec::new();
        let mut i: usize = 0;
        while i < peers.len()
            invariant
                i <= peers.len(),
                peers.len() <= 65536 - 9000,
                args.len() == i,
                forall|j: int| 0 <= j < i ==> testing_args_at(#[trigger] args@[j], peers@, j),
            decreases peers.len() - i,
        {
            let port: u16 = 9000 + i as u16;
            let addr = Address::local_quic(port);
            let mut key_text = "testnet/".to_owned();
            let peer_text = peers[i].to_base58();
            key_text.append(peer_text.as_str());
            key_text.append("-key");
            let boot_nodes: Vec<BootNode> = if i == 0 {
                Vec::new()
            } else {
                let mut v = Vec::new();
                v.push(BootNode { peer_id: peers[0].duplicate(), address: Address::local_quic(9000) });
                v
            };
            let mut listen = Vec::new();
            listen.push(addr.duplicate());
            let mut public = Vec::new();
            public.push(addr);
            let a = TransportArgs {
                key: make_path(key_text),
                p2p_listen_addrs: listen,
                p2p_public_addrs: public,
                boot_nodes,
                network: "dht/testnet/1.0.0".to_owned(),
                protocol_id: "/testing/1.0.0".to_owned(),
                whitelist: make_path("testnet/whitelist".to_owned()),
            };
            proof {
                assert(addr_seq(a.p2p_listen_addrs@) =~= seq![local_quic_bytes(testing_port(i as int))]);
                assert(addr_seq(a.p2p_public_addrs@) =~= seq![local_quic_bytes(testing_port(i as int))]);
                if i == 0 {
                    assert(boot_seq(a.boot_nodes@) =~= Seq::<(Seq<u8>, Seq<u8>)>::empty());
                } else {
                    assert(boot_seq(a.boot_nodes@) =~= seq![(peers@[0]@, local_quic_bytes(testing_port(0)))]);
                }
            }
            args.push(a);
            i = i + 1;
        }
        args
    }
}

impl std::str::FromStr for BootNode {
    type Err = &'static str;

    /// Reads a boot node from the text `<peer_id> <address>` (see `BootNode::parse`).
    fn from_str(s: &str) -> (r: Result<Self, Self::Err>)
        ensures
            match r {
                Ok(b) => boot_node_fields(s@) == Ok::<(Seq<u8>, Seq<u8>), Seq<char>>(
                    (b.peer_id@, b.address@),
                ),
                Err(e) => boot_node_fields(s@) == Err::<(Seq<u8>, Seq<u8>), Seq<char>>(e@),
            },
    {
        BootNode::parse(s)
    }
}

} // verus!
