//! Peers, held as the canonical byte encoding of their libp2p `PeerId`.
use crate::text::no_space;
use vstd::prelude::*;

verus! {

/// What `PeerId::from_bytes(b)` followed by `PeerId::to_bytes` gives for the bytes `b`
/// (`None` where `from_bytes` refuses them).
pub uninterp spec fn peer_id_bytes_reencoded(b: Seq<u8>) -> Option<Seq<u8>>;

/// What `s.parse::<PeerId>()` followed by `PeerId::to_bytes` gives for the text `s`
/// (`None` where the parse fails).
pub uninterp spec fn peer_id_text_bytes(s: Seq<char>) -> Option<Seq<u8>>;

/// `b` is the byte encoding of a peer id: libp2p accepts it and writes it back unchanged.
pub open spec fn is_peer_id_bytes(b: Seq<u8>) -> bool {
    peer_id_bytes_reencoded(b) == Some(b)
}

/// The view of an optional byte vector.
pub open spec fn opt_bytes_view(o: Option<Vec<u8>>) -> Option<Seq<u8>> {
    match o {
        Some(v) => Some(v@),
        None => None,
    }
}

/// Calls `PeerId::from_bytes` and, on success, `PeerId::to_bytes`.
/// Claims: the result is `peer_id_bytes_reencoded(bytes)`, and bytes written by `to_bytes`
/// are read back by `from_bytes` into the same peer id.
#[verifier::external_body]
fn peer_id_reencode(bytes: &[u8]) -> (r: Option<Vec<u8>>)
    ensures
        opt_bytes_view(r) == peer_id_bytes_reencoded(bytes@),
        r matches Some(v) ==> is_peer_id_bytes(v@),
{
    libp2p::PeerId::from_bytes(bytes).ok().map(|p| p.to_bytes())
}

/// Calls `str::parse::<PeerId>` (base58 text) and, on success, `PeerId::to_bytes`.
/// Claims: the result is `peer_id_text_bytes(s)`, and bytes written by `to_bytes`
/// are read back by `from_bytes` into the same peer id.
#[verifier::external_body]
fn peer_id_parse_text(s: &str) -> (r: Option<Vec<u8>>)
    ensures
        opt_bytes_view(r) == peer_id_text_bytes(s@),
        r matches Some(v) ==> is_peer_id_bytes(v@),
{
    s.parse::<libp2p::PeerId>().ok().map(|p| p.to_bytes())
}

/// What `PeerId::to_base58` writes for the peer id with byte encoding `b`.
pub uninterp spec fn peer_id_base58(b: Seq<u8>) -> Seq<char>;

/// Calls `PeerId::from_bytes`, then `PeerId::to_base58`, the text in which peer ids are shown.
/// Claims: the result is `peer_id_base58(bytes)`; it is non-empty text in the base58 alphabet,
/// so holds no whitespace; and `PeerId::from_str` reads it back (base58 decoding undoes base58
/// encoding) into the same peer id.
#[verifier::external_body]
fn peer_id_base58_text(bytes: &[u8]) -> (r: String)
    requires
        is_peer_id_bytes(bytes@),
    ensures
        r@ == peer_id_base58(bytes@),
        r@.len() > 0,
        no_space(r@),
        peer_id_text_bytes(r@) == Some(bytes@),
{
    libp2p::PeerId::from_bytes(bytes).expect("a peer key holds a peer id").to_base58()
}

/// The byte encoding of the peer id that `Keypair::public` and `PublicKey::to_peer_id` give for
/// the key pair `keypair` (a function of the key pair alone: the identity or SHA-256 multihash
/// of its public key).
pub uninterp spec fn keypair_peer_id(keypair: libp2p::identity::Keypair) -> Seq<u8>;

/// Calls `Keypair::public` and `PublicKey::to_peer_id`, then `PeerId::to_bytes`: the peer id of
/// the key pair's public key. Claims: the result is `keypair_peer_id(keypair)`, and it encodes a
/// peer id (bytes written by `to_bytes` are read back by `from_bytes` into the same peer id).
#[verifier::external_body]
fn keypair_peer_id_bytes(keypair: &libp2p::identity::Keypair) -> (r: Vec<u8>)
    ensures
        r@ == keypair_peer_id(*keypair),
        is_peer_id_bytes(r@),
{
    keypair.public().to_peer_id().to_bytes()
}

/// A network peer, identified by the byte encoding of its `PeerId`.
#[derive(Debug)]
pub struct PeerKey {
    bytes: Vec<u8>,
}

impl View for PeerKey {
    type V = Seq<u8>;

    closed spec fn view(&self) -> Seq<u8> {
        self.bytes@
    }
}

impl PeerKey {
    #[verifier::type_invariant]
    closed spec fn inv(&self) -> bool {
        is_peer_id_bytes(self.bytes@)
    }

    /// Every peer key holds the encoding of a peer id.
    pub fn check_valid(&self)
        ensures
            is_peer_id_bytes(self@),
    {
        proof {
            use_type_invariant(self);
        }
    }

    /// The peer that owns the key pair `keypair`.
    pub fn of_keypair(keypair: &libp2p::identity::Keypair) -> (r: PeerKey)
        ensures
            r@ == keypair_peer_id(*keypair),
    {
        PeerKey { bytes: keypair_peer_id_bytes(keypair) }
    }

    /// The peer whose `PeerId` libp2p decodes from `bytes`, or `None` where it refuses them.
    pub fn from_bytes(bytes: &[u8]) -> (r: Option<PeerKey>)
        ensures
            match r {
                Some(k) => peer_id_bytes_reencoded(bytes@) == Some(k@),
                None => peer_id_bytes_reencoded(bytes@) is None,
            },
    {
        match peer_id_reencode(bytes) {
            Some(v) => Some(PeerKey { bytes: v }),
            None => None,
        }
    }

    /// The peer whose `PeerId` is written in base58 as `s`, or `None` where `s` is no peer id.
    pub fn parse(s: &str) -> (r: Option<PeerKey>)
        ensures
            match r {
                Some(k) => peer_id_text_bytes(s@) == Some(k@),
                None => peer_id_text_bytes(s@) is None,
            },
    {
        match peer_id_parse_text(s) {
            Some(v) => Some(PeerKey { bytes: v }),
            None => None,
        }
    }

    /// The byte encoding of this peer's `PeerId`.
    pub fn as_bytes(&self) -> (r: &[u8])
        ensures
            r@ == self@,
    {
        self.bytes.as_slice()
    }

    /// This peer's id as base58 text, the way libp2p shows it: a single word that reads back as
    /// this peer.
    pub fn to_base58(&self) -> (r: String)
        ensures
            r@ == peer_id_base58(self@),
            r@.len() > 0,
            no_space(r@),
            peer_id_text_bytes(r@) == Some(self@),
    {
        proof {
            use_type_invariant(self);
        }
        peer_id_base58_text(self.bytes.as_slice())
    }

    /// A copy of this key.
    pub fn duplicate(&self) -> (r: PeerKey)
        ensures
            r@ == self@,
    {
        proof {
            use_type_invariant(self);
        }
        let bytes = self.bytes.clone();
        assert(bytes@ =~= self.bytes@);
        PeerKey { bytes }
    }

    /// Whether two keys name the same peer.
    pub fn same_peer(&self, other: &PeerKey) -> (r: bool)
        ensures
            r == (self@ == other@),
    {
        let a = &self.bytes;
        let b = &other.bytes;
        if a.len() != b.len() {
            return false;
        }
        let mut i: usize = 0;
        while i < a.len()
            invariant
                a.len() == b.len(),
                a@ == self@,
                b@ == other@,
                i <= a.len(),
                forall|j: int| 0 <= j < i ==> a@[j] == b@[j],
            decreases a.len() - i,
        {
            if a[i] != b[i] {
                assert(a@[i as int] != b@[i as int]);
                assert(self@ != other@);
                return false;
            }
            i = i + 1;
        }
        assert(a@ =~= b@);
        true
    }
}

} // verus!
