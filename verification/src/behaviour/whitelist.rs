//! The whitelist: which peers may connect, kept in step with the registered node set.
use crate::peer::{PeerKey, peer_id_text_bytes};
use libp2p::allow_block_list::{AllowedPeers, Behaviour as AllowList};
use std::path::PathBuf;
use std::time::Duration;
use vstd::prelude::*;

verus! {

/// The peers that a libp2p allow list lets connect, each by the byte encoding of its `PeerId`.
pub uninterp spec fn allow_list_peers(list: AllowList<AllowedPeers>) -> Set<Seq<u8>>;

/// The peers whose connections a libp2p allow list has queued for closing, first queued first,
/// each by the byte encoding of its `PeerId`.
pub uninterp spec fn allow_list_closing(list: AllowList<AllowedPeers>) -> Seq<Seq<u8>>;

/// The `Duration` that `Duration::from_secs(secs)` makes.
pub uninterp spec fn duration_from_secs(secs: u64) -> Duration;

/// Calls `Duration::from_secs`.
#[verifier::external_body]
fn make_duration_secs(secs: u64) -> (d: Duration)
    ensures
        d == duration_from_secs(secs),
{
    Duration::from_secs(secs)
}

/// Calls `allow_block_list::Behaviour::<AllowedPeers>::default`: a list that allows no peer and
/// has no connection queued for closing.
#[verifier::external_body]
fn empty_allow_list() -> (list: AllowList<AllowedPeers>)
    ensures
        allow_list_peers(list) == Set::<Seq<u8>>::empty(),
        allow_list_closing(list) == Seq::<Seq<u8>>::empty(),
{
    AllowList::default()
}

/// Calls `allow_block_list::Behaviour::allow_peer`, which inserts the peer into the allowed set
/// and leaves the queue of connections to close as it is.
#[verifier::external_body]
fn allow_list_allow(list: &mut AllowList<AllowedPeers>, peer: &PeerKey)
    requires
        crate::peer::is_peer_id_bytes(peer@),
    ensures
        allow_list_peers(*final(list)) == allow_list_peers(*old(list)).insert(peer@),
        allow_list_closing(*final(list)) == allow_list_closing(*old(list)),
{
    let id = libp2p::PeerId::from_bytes(peer.as_bytes()).expect("a peer key holds a peer id");
    list.allow_peer(id)
}

/// Calls `allow_block_list::Behaviour::disallow_peer`, which removes the peer from the allowed
/// set and queues the peer, last, for its connections to be closed.
#[verifier::external_body]
fn allow_list_disallow(list: &mut AllowList<AllowedPeers>, peer: &PeerKey)
    requires
        crate::peer::is_peer_id_bytes(peer@),
    ensures
        allow_list_peers(*final(list)) == allow_list_peers(*old(list)).remove(peer@),
        allow_list_closing(*final(list)) == allow_list_closing(*old(list)).push(peer@),
{
    let id = libp2p::PeerId::from_bytes(peer.as_bytes()).expect("a peer key holds a peer id");
    list.disallow_peer(id)
}

/// The byte encodings of a sequence of peers, in order.
pub open spec fn key_seq(v: Seq<PeerKey>) -> Seq<Seq<u8>> {
    v.map_values(|k: PeerKey| k@)
}

/// The set of peers in a sequence.
pub open spec fn key_set(v: Seq<PeerKey>) -> Set<Seq<u8>> {
    key_seq(v).to_set()
}

/// A sequence of peers that names no peer twice.
pub open spec fn distinct_keys(v: Seq<PeerKey>) -> bool {
    key_seq(v).no_duplicates()
}

/// Whether `k` names one of the peers in `v`.
pub fn contains_peer(v: &Vec<PeerKey>, k: &PeerKey) -> (b: bool)
    ensures
        b == key_set(v@).contains(k@),
{
    let mut i: usize = 0;
    while i < v.len()
        invariant
            i <= v.len(),
            forall|j: int| 0 <= j < i ==> v@[j]@ != k@,
        decreases v.len() - i,
    {
        if v[i].same_peer(k) {
            assert(key_seq(v@)[i as int] == k@);
            return true;
        }
        i = i + 1;
    }
    assert forall|x: Seq<u8>| key_seq(v@).contains(x) implies x != k@ by {
        let j = choose|j: int| 0 <= j < key_seq(v@).len() && key_seq(v@)[j] == x;
        assert(v@[j]@ == x);
    }
    false
}

/// The peer that a line read from a whitelist file names, if it was read and parses.
pub open spec fn line_peer(line: Result<String, StreamError>) -> Option<Seq<u8>> {
    match line {
        Ok(l) => peer_id_text_bytes(l@),
        Err(_) => None,
    }
}

/// The error text of a line that could not be read.
pub open spec fn line_error(line: Result<String, StreamError>) -> Option<Seq<char>> {
    match line {
        Ok(_) => None,
        Err(e) => Some(e.0@),
    }
}

/// The peers written on lines that parse as peer ids.
pub open spec fn text_line_peers(lines: Seq<Result<String, StreamError>>) -> Set<Seq<u8>> {
    Set::new(
        |k: Seq<u8>| exists|i: int| 0 <= i < lines.len() && line_peer(#[trigger] lines[i]) == Some(k),
    )
}

proof fn lemma_text_line_peers_push(lines: Seq<Result<String, StreamError>>, line: Result<String, StreamError>)
    ensures
        text_line_peers(lines.push(line)) == (match line_peer(line) {
            Some(k) => text_line_peers(lines).insert(k),
            None => text_line_peers(lines),
        }),
{
    let a = text_line_peers(lines.push(line));
    let b = match line_peer(line) {
        Some(k) => text_line_peers(lines).insert(k),
        None => text_line_peers(lines),
    };
    assert forall|k: Seq<u8>| a.contains(k) implies b.contains(k) by {
        let i = choose|i: int| 0 <= i < lines.push(line).len() && line_peer(#[trigger] lines.push(line)[i]) == Some(k);
        if i < lines.len() {
            assert(lines.push(line)[i] == lines[i]);
        }
    }
    assert forall|k: Seq<u8>| b.contains(k) implies a.contains(k) by {
        if line_peer(line) == Some(k) {
            assert(line_peer(lines.push(line)[lines.len() as int]) == Some(k));
        } else {
            let i = choose|i: int| 0 <= i < lines.len() && line_peer(#[trigger] lines[i]) == Some(k);
            assert(lines.push(line)[i] == lines[i]);
        }
    }
    assert(a =~= b);
}

proof fn lemma_key_set_push(v: Seq<PeerKey>, k: PeerKey)
    ensures
        key_seq(v.push(k)) == key_seq(v).push(k@),
        key_set(v.push(k)) == key_set(v).insert(k@),
{
    assert(key_seq(v.push(k)) =~= key_seq(v).push(k@));
    key_seq(v).lemma_push_to_set_commute(k@);
}

/// An error that can occur while fetching whitelisted nodes.
#[derive(Debug)]
pub struct StreamError(pub String);

/// A default whitelist source that reads fixed nodes from a file.
pub struct DefaultWhitelistProvider {
    file_path: PathBuf,
}

impl DefaultWhitelistProvider {
    /// A provider that reads the file at `file_path`.
    pub fn new(file_path: PathBuf) -> (r: Self)
        ensures
            r.path() == file_path,
    {
        Self { file_path }
    }

    /// The file that holds the whitelisted nodes.
    pub closed spec fn path(&self) -> PathBuf {
        self.file_path
    }

    /// The file that holds the whitelisted nodes.
    pub fn file_path(&self) -> (r: &PathBuf)
        ensures
            *r == self.path(),
    {
        &self.file_path
    }

    /// The whitelisted nodes of a file read line by line: the first line that could not be read
    /// ends the read with its error; otherwise each line that parses as a peer id is a node, and
    /// each other line is skipped.
    pub fn nodes_from_lines(lines: &Vec<Result<String, StreamError>>) -> (r: Result<
        Vec<PeerKey>,
        StreamError,
    >)
        ensures
            match r {
                Ok(nodes) => {
                    &&& forall|i: int| 0 <= i < lines@.len() ==> (#[trigger] lines@[i]) is Ok
                    &&& key_set(nodes@) == text_line_peers(lines@)
                    &&& distinct_keys(nodes@)
                },
                Err(e) => exists|i: int|
                    0 <= i < lines@.len() && line_error(#[trigger] lines@[i]) == Some(e.0@) && forall|
                        j: int,
                    |
                        0 <= j < i ==> lines@[j] is Ok,
            },
    {
        let mut nodes: Vec<PeerKey> = Vec::new();
        let mut i: usize = 0;
        while i < lines.len()
            invariant
                i <= lines.len(),
                forall|j: int| 0 <= j < i ==> (#[trigger] lines@[j]) is Ok,
                key_set(nodes@) == text_line_peers(lines@.take(i as int)),
                distinct_keys(nodes@),
            decreases lines.len() - i,
        {
            match &lines[i] {
                Err(e) => {
                    return Err(StreamError(e.0.clone()));
                },
                Ok(line) => {
                    let parsed = PeerKey::parse(line.as_str());
                    proof {
                        assert(lines@.take(i + 1) == lines@.take(i as int).push(lines@[i as int]));
                        lemma_text_line_peers_push(lines@.take(i as int), lines@[i as int]);
                    }
                    match parsed {
                        Some(k) => {
                            if !contains_peer(&nodes, &k) {
                                proof {
                                    lemma_key_set_push(nodes@, k);
                                }
                                nodes.push(k);
                            } else {
                                assert(key_set(nodes@).insert(k@) =~= key_set(nodes@));
                            }
                        },
                        None => {},
                    }
                },
            }
            i = i + 1;
        }
        assert(lines@.take(lines@.len() as int) == lines@);
        Ok(nodes)
    }
}

} // verus!

verus! {

/// How often the whitelisted nodes are fetched.
#[derive(Debug, Clone, Copy)]
pub struct WhitelistConfig {
    pub nodes_update_interval: Duration,
}

impl WhitelistConfig {
    /// A configuration that fetches the nodes every `nodes_update_interval`.
    pub fn new(nodes_update_interval: Duration) -> (r: Self)
        ensures
            r.nodes_update_interval == nodes_update_interval,
    {
        Self { nodes_update_interval }
    }
}

impl Default for WhitelistConfig {
    /// Fetches the nodes once a minute.
    fn default() -> (r: Self)
        ensures
            r.nodes_update_interval == duration_from_secs(60),
    {
        Self::new(make_duration_secs(60))
    }
}

/// A copy of a sequence of peers, in the same order.
pub fn copy_peers(v: &Vec<PeerKey>) -> (r: Vec<PeerKey>)
    ensures
        key_seq(r@) == key_seq(v@),
{
    let mut r: Vec<PeerKey> = Vec::new();
    let mut i: usize = 0;
    while i < v.len()
        invariant
            i <= v.len(),
            key_seq(r@) == key_seq(v@.take(i as int)),
        decreases v.len() - i,
    {
        let k = v[i].duplicate();
        proof {
            lemma_key_set_push(r@, k);
            assert(v@.take(i + 1) == v@.take(i as int).push(v@[i as int]));
            lemma_key_set_push(v@.take(i as int), v@[i as int]);
        }
        r.push(k);
        i = i + 1;
    }
    assert(v@.take(v@.len() as int) == v@);
    r
}

/// The peers of `v`, each once, in the order of their first occurrence.
pub fn distinct_peers(v: &Vec<PeerKey>) -> (r: Vec<PeerKey>)
    ensures
        key_set(r@) == key_set(v@),
        distinct_keys(r@),
{
    let mut r: Vec<PeerKey> = Vec::new();
    let mut i: usize = 0;
    while i < v.len()
        invariant
            i <= v.len(),
            key_set(r@) == key_set(v@.take(i as int)),
            distinct_keys(r@),
        decreases v.len() - i,
    {
        proof {
            assert(v@.take(i + 1) == v@.take(i as int).push(v@[i as int]));
            lemma_key_set_push(v@.take(i as int), v@[i as int]);
        }
        if !contains_peer(&r, &v[i]) {
            let k = v[i].duplicate();
            proof {
                lemma_key_set_push(r@, k);
            }
            r.push(k);
        } else {
            assert(key_set(r@).insert(v@[i as int]@) =~= key_set(r@));
        }
        i = i + 1;
    }
    assert(v@.take(v@.len() as int) == v@);
    r
}

/// Whether every peer of `a` is in `b`.
fn all_peers_in(a: &Vec<PeerKey>, b: &Vec<PeerKey>) -> (r: bool)
    ensures
        r == key_set(a@).subset_of(key_set(b@)),
{
    let mut i: usize = 0;
    while i < a.len()
        invariant
            i <= a.len(),
            forall|j: int| 0 <= j < i ==> key_set(b@).contains(#[trigger] a@[j]@),
        decreases a.len() - i,
    {
        if !contains_peer(b, &a[i]) {
            assert(key_seq(a@)[i as int] == a@[i as int]@);
            return false;
        }
        i = i + 1;
    }
    assert forall|x: Seq<u8>| key_set(a@).contains(x) implies key_set(b@).contains(x) by {
        let j = choose|j: int| 0 <= j < key_seq(a@).len() && key_seq(a@)[j] == x;
        assert(a@[j]@ == x);
    }
    true
}

/// The allowed set after an update that changed the registered nodes: the peers that are no
/// longer registered are disallowed, the newly registered peers are allowed, and every other
/// peer keeps its standing.
pub open spec fn allowed_after_update(
    allowed: Set<Seq<u8>>,
    registered: Set<Seq<u8>>,
    nodes: Set<Seq<u8>>,
) -> Set<Seq<u8>> {
    allowed.difference(registered.difference(nodes)).union(nodes.difference(registered))
}

/// The set of nodes that a fetch reports, or `None` where the fetch failed.
pub open spec fn fetched_nodes(result: Result<Vec<PeerKey>, StreamError>) -> Option<Set<Seq<u8>>> {
    match result {
        Ok(nodes) => Some(key_set(nodes@)),
        Err(_) => None,
    }
}

/// One update of the whitelist, from the allowed and registered sets and a fetch, to the new
/// allowed and registered sets and whether the update changed anything (and so is reported).
/// A failed fetch, or one that reports the registered set unchanged, changes nothing.
pub open spec fn whitelist_step(
    allowed: Set<Seq<u8>>,
    registered: Set<Seq<u8>>,
    fetched: Option<Set<Seq<u8>>>,
) -> (Set<Seq<u8>>, Set<Seq<u8>>, bool) {
    match fetched {
        Some(nodes) => if nodes == registered {
            (allowed, registered, false)
        } else {
            (allowed_after_update(allowed, registered, nodes), nodes, true)
        },
        None => (allowed, registered, false),
    }
}

/// The peers that an update disallows, and so queues for their connections to be closed, in the
/// order of the registered sequence: after a fetch that changes the registered set, the
/// registered peers that the fetch no longer reports; otherwise none.
pub open spec fn dropped_nodes(registered: Seq<Seq<u8>>, fetched: Option<Set<Seq<u8>>>) -> Seq<
    Seq<u8>,
> {
    match fetched {
        Some(nodes) => if nodes == registered.to_set() {
            Seq::empty()
        } else {
            registered.filter(|k: Seq<u8>| !nodes.contains(k))
        },
        None => Seq::empty(),
    }
}

/// An update queues for closing only the connections of peers that were registered and are no
/// longer: never those of a peer that stays registered, is newly registered, or was never
/// registered.
pub proof fn lemma_dropped_nodes_were_registered_and_are_no_longer(
    registered: Seq<Seq<u8>>,
    fetched: Option<Set<Seq<u8>>>,
    peer: Seq<u8>,
)
    ensures
        dropped_nodes(registered, fetched).contains(peer) ==> registered.contains(peer) && (
        fetched matches Some(nodes) && !nodes.contains(peer)),
{
    broadcast use vstd::seq_lib::group_filter_ensures;

    if let Some(nodes) = fetched {
        if nodes != registered.to_set() {
            let pred = |k: Seq<u8>| !nodes.contains(k);
            if registered.filter(pred).contains(peer) {
                registered.lemma_filter_contains_rev(pred, peer);
                let i = choose|i: int|
                    0 <= i < registered.filter(pred).len() && registered.filter(pred)[i] == peer;
                assert(pred(registered.filter(pred)[i]));
            }
        }
    }
}

/// Once the allow list holds exactly the registered nodes, every update keeps it so.
pub proof fn lemma_whitelist_step_keeps_allow_list_in_step(
    registered: Set<Seq<u8>>,
    fetched: Option<Set<Seq<u8>>>,
)
    ensures
        whitelist_step(registered, registered, fetched).0 == whitelist_step(
            registered,
            registered,
            fetched,
        ).1,
{
    if let Some(nodes) = fetched {
        assert(allowed_after_update(registered, registered, nodes) =~= nodes);
    }
}

/// A fetch that failed, or that reports exactly the registered set, changes neither the allowed
/// nor the registered set, is not reported, and queues no connection for closing; whatever peers
/// were allowed or disallowed by hand stay so.
pub proof fn lemma_whitelist_step_quiet_fetch(
    allowed: Set<Seq<u8>>,
    registered: Seq<Seq<u8>>,
    fetched: Option<Set<Seq<u8>>>,
)
    requires
        fetched is None || fetched == Some(registered.to_set()),
    ensures
        whitelist_step(allowed, registered.to_set(), fetched) == (allowed, registered.to_set(), false),
        dropped_nodes(registered, fetched) == Seq::<Seq<u8>>::empty(),
{
}

/// Reporting the same nodes again changes nothing and is not reported: an update is
/// idempotent.
pub proof fn lemma_whitelist_step_idempotent(
    allowed: Set<Seq<u8>>,
    registered: Set<Seq<u8>>,
    nodes: Set<Seq<u8>>,
)
    ensures
        ({
            let (a1, r1, _) = whitelist_step(allowed, registered, Some(nodes));
            whitelist_step(a1, r1, Some(nodes)) == (a1, r1, false)
        }),
{
}

/// After an update that changes the registered nodes, every newly registered node is allowed,
/// no node that dropped out of the registered set is, and every other peer keeps its standing.
pub proof fn lemma_whitelist_step_admits_exactly_the_registered(
    allowed: Set<Seq<u8>>,
    registered: Set<Seq<u8>>,
    nodes: Set<Seq<u8>>,
    peer: Seq<u8>,
)
    requires
        nodes != registered,
    ensures
        ({
            let (a1, _, changed) = whitelist_step(allowed, registered, Some(nodes));
            &&& changed
            &&& nodes.contains(peer) && !registered.contains(peer) ==> a1.contains(peer)
            &&& registered.contains(peer) && !nodes.contains(peer) ==> !a1.contains(peer)
            &&& registered.contains(peer) == nodes.contains(peer) ==> (a1.contains(peer)
                == allowed.contains(peer))
        }),
{
}

/// Admits only whitelisted peers, and keeps the whitelist in step with the set of registered
/// nodes that a whitelist provider reports.
pub struct WhitelistBehavior {
    allow: AllowList<AllowedPeers>,
    registered_nodes: Vec<PeerKey>,
}

impl WhitelistBehavior {
    /// The peers that the allow list lets connect.
    pub closed spec fn allowed(&self) -> Set<Seq<u8>> {
        allow_list_peers(self.allow)
    }

    /// The registered nodes of the last update that changed them.
    pub closed spec fn registered(&self) -> Set<Seq<u8>> {
        key_set(self.registered_nodes@)
    }

    /// The registered nodes, in the order in which they were reported.
    pub closed spec fn registered_seq(&self) -> Seq<Seq<u8>> {
        key_seq(self.registered_nodes@)
    }

    /// The registered set is the set of the registered sequence.
    pub proof fn lemma_registered_is_set_of_sequence(&self)
        ensures
            self.registered() == self.registered_seq().to_set(),
    {
    }

    /// The peers whose connections the allow list has queued for closing, first queued first.
    pub closed spec fn closing(&self) -> Seq<Seq<u8>> {
        allow_list_closing(self.allow)
    }

    /// A whitelist that allows no peer and knows no registered node.
    pub fn new() -> (r: Self)
        ensures
            r.allowed() == Set::<Seq<u8>>::empty(),
            r.registered() == Set::<Seq<u8>>::empty(),
            r.registered_seq() == Seq::<Seq<u8>>::empty(),
            r.closing() == Seq::<Seq<u8>>::empty(),
    {
        let r = Self { allow: empty_allow_list(), registered_nodes: Vec::new() };
        assert(key_seq(r.registered_nodes@) =~= Seq::<Seq<u8>>::empty());
        assert(key_set(r.registered_nodes@) =~= Set::<Seq<u8>>::empty());
        r
    }

    /// The allow list itself, which the swarm drives as a network behaviour.
    pub fn inner(&mut self) -> (r: &mut AllowList<AllowedPeers>)
        ensures
            allow_list_peers(*r) == old(self).allowed(),
            allow_list_closing(*r) == old(self).closing(),
            final(self).allowed() == allow_list_peers(*final(r)),
            final(self).closing() == allow_list_closing(*final(r)),
            final(self).registered_seq() == old(self).registered_seq(),
            final(self).registered() == old(self).registered(),
    {
        &mut self.allow
    }

    /// Lets `peer` connect.
    pub fn allow_peer(&mut self, peer: PeerKey)
        ensures
            final(self).allowed() == old(self).allowed().insert(peer@),
            final(self).closing() == old(self).closing(),
            final(self).registered_seq() == old(self).registered_seq(),
            final(self).registered() == old(self).registered(),
    {
        peer.check_valid();
        allow_list_allow(&mut self.allow, &peer);
    }

    /// Stops letting `peer` connect.
    pub fn disallow_peer(&mut self, peer: PeerKey)
        ensures
            final(self).allowed() == old(self).allowed().remove(peer@),
            final(self).closing() == old(self).closing().push(peer@),
            final(self).registered_seq() == old(self).registered_seq(),
            final(self).registered() == old(self).registered(),
    {
        peer.check_valid();
        allow_list_disallow(&mut self.allow, &peer);
    }

    /// Takes in a fetch of the registered nodes. A failed fetch, or one that reports the
    /// registered nodes unchanged, changes nothing and yields `None`. Otherwise the peers that are
    /// no longer registered are disallowed, the newly registered ones are allowed, the reported
    /// nodes become the registered ones, and they are yielded, each once. Exactly the peers that
    /// are no longer registered are queued for their connections to be closed.
    pub fn on_nodes_update(&mut self, result: Result<Vec<PeerKey>, StreamError>) -> (r: Option<
        Vec<PeerKey>,
    >)
        ensures
            ({
                let (allowed, registered, changed) = whitelist_step(
                    old(self).allowed(),
                    old(self).registered(),
                    fetched_nodes(result),
                );
                &&& final(self).allowed() == allowed
                &&& final(self).registered() == registered
                &&& final(self).closing() == old(self).closing() + dropped_nodes(
                    old(self).registered_seq(),
                    fetched_nodes(result),
                )
                &&& changed ==> final(self).registered_seq() == key_seq(r->Some_0@)
                &&& !changed ==> final(self).registered_seq() == old(self).registered_seq()
                &&& r is Some == changed
                &&& r matches Some(out) ==> key_set(out@) == registered && distinct_keys(out@)
            }),
    {
        assert(old(self).closing() + Seq::<Seq<u8>>::empty() =~= old(self).closing());
        let nodes = match result {
            Ok(nodes) => distinct_peers(&nodes),
            Err(_) => {
                return None;
            },
        };
        if all_peers_in(&nodes, &self.registered_nodes) && all_peers_in(
            &self.registered_nodes,
            &nodes,
        ) {
            assert(key_set(nodes@) =~= key_set(self.registered_nodes@));
            return None;
        }
        let ghost reg = key_set(self.registered_nodes@);
        let ghost n = key_set(nodes@);
        let ghost allowed0 = allow_list_peers(self.allow);
        let ghost closing0 = allow_list_closing(self.allow);
        let ghost pred = |k: Seq<u8>| !n.contains(k);
        assert(key_seq(self.registered_nodes@.take(0)).filter(pred) =~= Seq::<Seq<u8>>::empty());
        assert(closing0 + Seq::<Seq<u8>>::empty() =~= closing0);
        // Disallow the nodes that are no longer registered.
        let mut i: usize = 0;
        while i < self.registered_nodes.len()
            invariant
                i <= self.registered_nodes.len(),
                reg == key_set(self.registered_nodes@),
                self.registered_nodes@ == old(self).registered_nodes@,
                n == key_set(nodes@),
                allow_list_peers(self.allow) == allowed0.difference(
                    key_set(self.registered_nodes@.take(i as int)).difference(n),
                ),
                pred == (|k: Seq<u8>| !n.contains(k)),
                allow_list_closing(self.allow) == closing0 + key_seq(
                    self.registered_nodes@.take(i as int),
                ).filter(pred),
            decreases self.registered_nodes.len() - i,
        {
            proof {
                assert(self.registered_nodes@.take(i + 1) == self.registered_nodes@.take(
                    i as int,
                ).push(self.registered_nodes@[i as int]));
                lemma_key_set_push(
                    self.registered_nodes@.take(i as int),
                    self.registered_nodes@[i as int],
                );
                key_seq(self.registered_nodes@.take(i as int)).lemma_filter_push(
                    self.registered_nodes@[i as int]@,
                    pred,
                );
            }
            if !contains_peer(&nodes, &self.registered_nodes[i]) {
                self.registered_nodes[i].check_valid();
                allow_list_disallow(&mut self.allow, &self.registered_nodes[i]);
            }
            assert(allow_list_peers(self.allow) =~= allowed0.difference(
                key_set(self.registered_nodes@.take(i + 1)).difference(n),
            ));
            assert(allow_list_closing(self.allow) =~= closing0 + key_seq(
                self.registered_nodes@.take(i + 1),
            ).filter(pred));
            i = i + 1;
        }
        assert(self.registered_nodes@.take(self.registered_nodes@.len() as int)
            == self.registered_nodes@);
        assert(allow_list_closing(self.allow) == closing0 + key_seq(self.registered_nodes@).filter(
            pred,
        ));
        let ghost allowed1 = allow_list_peers(self.allow);
        let ghost closing1 = allow_list_closing(self.allow);
        // Allow the newly registered nodes.
        let mut j: usize = 0;
        while j < nodes.len()
            invariant
                j <= nodes.len(),
                reg == key_set(self.registered_nodes@),
                self.registered_nodes@ == old(self).registered_nodes@,
                n == key_set(nodes@),
                allow_list_peers(self.allow) == allowed1.union(
                    key_set(nodes@.take(j as int)).difference(reg),
                ),
                allow_list_closing(self.allow) == closing1,
            decreases nodes.len() - j,
        {
            proof {
                assert(nodes@.take(j + 1) == nodes@.take(j as int).push(nodes@[j as int]));
                lemma_key_set_push(nodes@.take(j as int), nodes@[j as int]);
            }
            if !contains_peer(&self.registered_nodes, &nodes[j]) {
                nodes[j].check_valid();
                allow_list_allow(&mut self.allow, &nodes[j]);
            }
            assert(allow_list_peers(self.allow) =~= allowed1.union(
                key_set(nodes@.take(j + 1)).difference(reg),
            ));
            j = j + 1;
        }
        assert(nodes@.take(nodes@.len() as int) == nodes@);
        assert(allow_list_peers(self.allow) =~= allowed_after_update(allowed0, reg, n));
        assert(n != reg);
        assert(reg == key_seq(self.registered_nodes@).to_set());
        assert(n != key_seq(self.registered_nodes@).to_set());
        assert(dropped_nodes(key_seq(self.registered_nodes@), Some(n)) == key_seq(
            self.registered_nodes@,
        ).filter(pred));
        assert(closing1 == closing0 + dropped_nodes(key_seq(self.registered_nodes@), Some(n)));
        let registered = copy_peers(&nodes);
        self.registered_nodes = registered;
        Some(nodes)
    }
}

} // verus!
