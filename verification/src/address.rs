//! Network addresses, held as the byte encoding of their libp2p `Multiaddr`.
use crate::peer::{PeerKey, is_peer_id_bytes, opt_bytes_view};
use libp2p::multiaddr::{Multiaddr, Protocol};
use vstd::prelude::*;

verus! {

/// Whether `Multiaddr::try_from` accepts the bytes `b` as the encoding of an address.
pub uninterp spec fn multiaddr_bytes_valid(b: Seq<u8>) -> bool;

/// What `s.parse::<Multiaddr>()` followed by `Multiaddr::to_vec` gives for the text `s`
/// (`None` where the parse fails).
pub uninterp spec fn multiaddr_text_bytes(s: Seq<char>) -> Option<Seq<u8>>;

/// The unsigned LEB128 encoding of `n`, in which multiaddr writes protocol codes and lengths.
pub open spec fn uvarint(n: nat) -> Seq<u8>
    decreases n,
{
    if n < 128 {
        seq![n as u8]
    } else {
        seq![(n % 128 + 128) as u8] + uvarint(n / 128)
    }
}

/// Calls `Multiaddr::try_from(Vec<u8>)`, which reads the bytes protocol by protocol and keeps
/// them unchanged. Claims: the result is `multiaddr_bytes_valid(b)`, and no bytes (the empty
/// address) are always accepted.
#[verifier::external_body]
fn multiaddr_check(b: &[u8]) -> (r: bool)
    ensures
        r == multiaddr_bytes_valid(b@),
        b@.len() == 0 ==> r,
{
    Multiaddr::try_from(b.to_vec()).is_ok()
}

/// Calls `str::parse::<Multiaddr>` and, on success, `Multiaddr::to_vec`.
/// Claims: the result is `multiaddr_text_bytes(s)`, and the bytes of a parsed address are valid.
#[verifier::external_body]
fn multiaddr_parse_text(s: &str) -> (r: Option<Vec<u8>>)
    ensures
        opt_bytes_view(r) == multiaddr_text_bytes(s@),
        r matches Some(v) ==> multiaddr_bytes_valid(v@),
{
    s.parse::<Multiaddr>().ok().map(|a| a.to_vec())
}

/// One protocol component of an address.
pub enum Component {
    /// `/p2p/<peer id>`
    P2p(PeerKey),
    /// `/p2p-circuit`
    P2pCircuit,
    /// `/ip4/<a.b.c.d>`
    Ip4(u8, u8, u8, u8),
    /// `/udp/<port>`
    Udp(u16),
    /// `/quic-v1`
    QuicV1,
}

/// The bytes of a `/p2p/<peer id>` component for the peer id with byte encoding `peer`.
pub open spec fn p2p_bytes(peer: Seq<u8>) -> Seq<u8> {
    uvarint(421) + uvarint(peer.len()) + peer
}

/// The bytes of a `/p2p-circuit` component.
pub open spec fn p2p_circuit_bytes() -> Seq<u8> {
    uvarint(290)
}

/// The bytes with which multiaddr writes a component: its protocol code, then its data.
pub open spec fn component_bytes(c: Component) -> Seq<u8> {
    match c {
        Component::P2p(k) => p2p_bytes(k@),
        Component::P2pCircuit => p2p_circuit_bytes(),
        Component::Ip4(a, b, c, d) => uvarint(4) + seq![a, b, c, d],
        Component::Udp(port) => uvarint(273) + seq![(port / 256) as u8, (port % 256) as u8],
        Component::QuicV1 => uvarint(461),
    }
}

/// Whether a component's data can be written: a peer component holds a peer id.
pub open spec fn component_valid(c: Component) -> bool {
    match c {
        Component::P2p(k) => is_peer_id_bytes(k@),
        _ => true,
    }
}

/// Calls `Multiaddr::with`, which appends the component's encoding (`Protocol::write_bytes`) to
/// the address. Claims: the result is `addr` followed by `component_bytes(c)`, and is valid.
#[verifier::external_body]
fn multiaddr_with(addr: &[u8], c: &Component) -> (r: Vec<u8>)
    requires
        multiaddr_bytes_valid(addr@),
        component_valid(*c),
    ensures
        r@ == addr@ + component_bytes(*c),
        multiaddr_bytes_valid(r@),
{
    let a = Multiaddr::try_from(addr.to_vec()).expect("valid address bytes");
    let p = match c {
        Component::P2p(k) => Protocol::P2p(
            libp2p::PeerId::from_bytes(k.as_bytes()).expect("a peer key holds a peer id"),
        ),
        Component::P2pCircuit => Protocol::P2pCircuit,
        Component::Ip4(a, b, c, d) => Protocol::Ip4([*a, *b, *c, *d].into()),
        Component::Udp(port) => Protocol::Udp(*port),
        Component::QuicV1 => Protocol::QuicV1,
    };
    a.with(p).to_vec()
}

/// The byte encodings of a sequence of addresses, in order.
pub open spec fn addr_seq(v: Seq<Address>) -> Seq<Seq<u8>> {
    v.map_values(|a: Address| a@)
}

/// The encoding of `/ip4/127.0.0.1/udp/<port>/quic-v1`.
pub open spec fn local_quic_bytes(port: u16) -> Seq<u8> {
    component_bytes(Component::Ip4(127, 0, 0, 1)) + component_bytes(Component::Udp(port))
        + component_bytes(Component::QuicV1)
}

/// A copy of a sequence of addresses, in the same order.
pub fn copy_addresses(v: &Vec<Address>) -> (r: Vec<Address>)
    ensures
        addr_seq(r@) == addr_seq(v@),
{
    let mut r: Vec<Address> = Vec::new();
    let mut i: usize = 0;
    while i < v.len()
        invariant
            i <= v.len(),
            addr_seq(r@) == addr_seq(v@.take(i as int)),
        decreases v.len() - i,
    {
        let a = v[i].duplicate();
        proof {
            assert(addr_seq(r@.push(a)) =~= addr_seq(r@).push(a@));
            assert(addr_seq(v@.take(i + 1)) =~= addr_seq(v@.take(i as int)).push(v@[i as int]@));
        }
        r.push(a);
        i = i + 1;
    }
    assert(v@.take(v@.len() as int) == v@);
    r
}

/// A network address (a libp2p `Multiaddr`), held as its byte encoding.
#[derive(Debug)]
pub struct Address {
    bytes: Vec<u8>,
}

impl View for Address {
    type V = Seq<u8>;

    closed spec fn view(&self) -> Seq<u8> {
        self.bytes@
    }
}

impl Address {
    #[verifier::type_invariant]
    closed spec fn inv(&self) -> bool {
        multiaddr_bytes_valid(self.bytes@)
    }

    /// Every address holds a valid encoding.
    pub fn check_valid(&self)
        ensures
            multiaddr_bytes_valid(self@),
    {
        proof {
            use_type_invariant(self);
        }
    }

    /// The empty address.
    pub fn empty() -> (r: Address)
        ensures
            r@ == Seq::<u8>::empty(),
    {
        let bytes: Vec<u8> = Vec::new();
        let ok = multiaddr_check(bytes.as_slice());
        assert(ok);
        Address { bytes }
    }

    /// The address `/ip4/127.0.0.1/udp/<port>/quic-v1`: QUIC on the local host.
    pub fn local_quic(port: u16) -> (r: Address)
        ensures
            r@ == local_quic_bytes(port),
    {
        let a = Address::empty();
        let a = a.with(&Component::Ip4(127, 0, 0, 1));
        let a = a.with(&Component::Udp(port));
        let a = a.with(&Component::QuicV1);
        assert(a@ =~= local_quic_bytes(port));
        a
    }

    /// The address that `bytes` encode, or `None` where they encode none.
    pub fn from_bytes(bytes: Vec<u8>) -> (r: Option<Address>)
        ensures
            match r {
                Some(a) => multiaddr_bytes_valid(bytes@) && a@ == bytes@,
                None => !multiaddr_bytes_valid(bytes@),
            },
    {
        if multiaddr_check(bytes.as_slice()) {
            Some(Address { bytes })
        } else {
            None
        }
    }

    /// The address written as `s` (such as `/ip4/127.0.0.1/udp/9000/quic-v1`), or `None` where `s`
    /// is no address.
    pub fn parse(s: &str) -> (r: Option<Address>)
        ensures
            match r {
                Some(a) => multiaddr_text_bytes(s@) == Some(a@),
                None => multiaddr_text_bytes(s@) is None,
            },
    {
        match multiaddr_parse_text(s) {
            Some(v) => Some(Address { bytes: v }),
            None => None,
        }
    }

    /// The byte encoding of this address.
    pub fn as_bytes(&self) -> (r: &[u8])
        ensures
            r@ == self@,
    {
        self.bytes.as_slice()
    }

    /// A copy of this address.
    pub fn duplicate(&self) -> (r: Address)
        ensures
            r@ == self@,
    {
        proof {
            use_type_invariant(self);
        }
        let bytes = self.bytes.clone();
        assert(bytes@ =~= self.bytes@);
        Address { bytes }
    }

    /// This address with the component `c` appended.
    pub fn with(&self, c: &Component) -> (r: Address)
        requires
            component_valid(*c),
        ensures
            r@ == self@ + component_bytes(*c),
    {
        proof {
            use_type_invariant(self);
        }
        let bytes = multiaddr_with(self.bytes.as_slice(), c);
        Address { bytes }
    }
}

} // verus!
