//! Transport configuration and the plan by which a swarm is started.
use crate::address::{Address, Component, addr_seq, p2p_bytes, p2p_circuit_bytes};
use crate::cli::{BootNode, TransportArgs, boot_seq, copy_boot_nodes};
use crate::peer::{PeerKey, keypair_peer_id};
use crate::text::{
    decimal_text, lemma_parse_unsigned_reads_decimal_text, parse_unsigned, parse_unsigned_spec,
};
use crate::AgentInfo;
use libp2p::identity::Keypair;
use vstd::prelude::*;

verus! {

/// The value of the variable `name` in the environment `env` (a list of name and value pairs):
/// that of its first entry, or `None` where it has none.
pub open spec fn env_lookup(env: Seq<(String, String)>, name: Seq<char>) -> Option<Seq<char>>
    decreases env.len(),
{
    if env.len() == 0 {
        None
    } else if env[0].0@ == name {
        Some(env[0].1@)
    } else {
        env_lookup(env.drop_first(), name)
    }
}

/// The value of the variable `name` read as an unsigned number of at most `max`, or `default`
/// where the variable is unset or holds no such number.
pub open spec fn env_number(env: Seq<(String, String)>, name: Seq<char>, max: nat, default: nat) -> nat {
    match env_lookup(env, name) {
        Some(v) => match parse_unsigned_spec(v, max) {
            Some(n) => n,
            None => default,
        },
        None => default,
    }
}

/// A variable's value is that of its first entry in the environment, and a variable with no
/// entry has none.
pub proof fn lemma_env_lookup_first_entry(env: Seq<(String, String)>, name: Seq<char>, i: int)
    requires
        0 <= i <= env.len(),
        forall|j: int| 0 <= j < i ==> (#[trigger] env[j]).0@ != name,
        i == env.len() || env[i].0@ == name,
    ensures
        env_lookup(env, name) == (if i == env.len() {
            None
        } else {
            Some(env[i].1@)
        }),
    decreases i,
{
    if i > 0 {
        let rest = env.drop_first();
        assert forall|j: int| 0 <= j < i - 1 implies (#[trigger] rest[j]).0@ != name by {
            assert(rest[j] == env[j + 1]);
        }
        if i < env.len() {
            assert(rest[i - 1] == env[i]);
        }
        lemma_env_lookup_first_entry(rest, name, i - 1);
    }
}

/// A variable set to the decimal text of a number (with or without a leading `+`) is read as
/// that number where it fits; a variable that is unset, or set to text that is no number that
/// fits, leaves the default.
pub proof fn lemma_env_number_reads_set_value(
    env: Seq<(String, String)>,
    name: Seq<char>,
    max: nat,
    default: nat,
    n: nat,
)
    ensures
        env_lookup(env, name) is None ==> env_number(env, name, max, default) == default,
        env_lookup(env, name) matches Some(v) && parse_unsigned_spec(v, max) is None ==> env_number(
            env,
            name,
            max,
            default,
        ) == default,
        env_lookup(env, name) == Some(decimal_text(n)) ==> env_number(env, name, max, default) == (
        if n <= max {
            n
        } else {
            default
        }),
        env_lookup(env, name) == Some(seq!['+'] + decimal_text(n)) ==> env_number(
            env,
            name,
            max,
            default,
        ) == (if n <= max {
            n
        } else {
            default
        }),
{
    lemma_parse_unsigned_reads_decimal_text(n, max);
}

/// The value of the variable `name` in `env`.
pub fn env_var<'a>(env: &'a Vec<(String, String)>, name: &str) -> (r: Option<&'a String>)
    ensures
        match r {
            Some(v) => env_lookup(env@, name@) == Some(v@),
            None => env_lookup(env@, name@) is None,
        },
{
    let wanted = name.to_owned();
    let mut i: usize = 0;
    assert(env@.subrange(0, env@.len() as int) == env@);
    while i < env.len()
        invariant
            i <= env.len(),
            wanted@ == name@,
            env_lookup(env@, name@) == env_lookup(env@.subrange(i as int, env@.len() as int), name@),
        decreases env.len() - i,
    {
        let ghost rest = env@.subrange(i as int, env@.len() as int);
        assert(rest[0] == env@[i as int]);
        assert(rest.drop_first() == env@.subrange(i + 1, env@.len() as int));
        if env[i].0 == wanted {
            return Some(&env[i].1);
        }
        i = i + 1;
    }
    None
}

/// The variable `name` of `env` read as a `u16`, or `default`.
pub fn parse_env_u16(env: &Vec<(String, String)>, name: &str, default: u16) -> (r: u16)
    ensures
        r == env_number(env@, name@, u16::MAX as nat, default as nat),
{
    match env_var(env, name) {
        Some(v) => match parse_unsigned(v.as_str(), u16::MAX as u64) {
            Some(n) => n as u16,
            None => default,
        },
        None => default,
    }
}

/// The variable `name` of `env` read as a `u32`, or `default`.
pub fn parse_env_u32(env: &Vec<(String, String)>, name: &str, default: u32) -> (r: u32)
    ensures
        r == env_number(env@, name@, u32::MAX as nat, default as nat),
{
    match env_var(env, name) {
        Some(v) => match parse_unsigned(v.as_str(), u32::MAX as u64) {
            Some(n) => n as u32,
            None => default,
        },
        None => default,
    }
}

/// QUIC settings of the transport.
#[derive(Debug, Clone, Copy)]
pub struct QuicConfig {
    /// Maximum transmission unit to use during MTU discovery (default: 1452).
    pub mtu_discovery_max: u16,
    /// Interval for sending keep-alive packets in milliseconds (default: 5000).
    pub keep_alive_interval_ms: u32,
    /// Timeout after which idle connections are closed in milliseconds (default: 60000).
    pub max_idle_timeout_ms: u32,
}

impl QuicConfig {
    /// The settings that the environment `env` gives: `MTU_DISCOVERY_MAX`,
    /// `KEEP_ALIVE_INTERVAL_MS` and `MAX_IDLE_TIMEOUT_MS`, each where it is set to a number that
    /// fits, else its default.
    pub fn from_env(env: &Vec<(String, String)>) -> (r: Self)
        ensures
            r.mtu_discovery_max == env_number(env@, "MTU_DISCOVERY_MAX"@, u16::MAX as nat, 1452),
            r.keep_alive_interval_ms == env_number(
                env@,
                "KEEP_ALIVE_INTERVAL_MS"@,
                u32::MAX as nat,
                5000,
            ),
            r.max_idle_timeout_ms == env_number(env@, "MAX_IDLE_TIMEOUT_MS"@, u32::MAX as nat, 60000),
    {
        let mtu_discovery_max = parse_env_u16(env, "MTU_DISCOVERY_MAX", 1452);
        let keep_alive_interval_ms = parse_env_u32(env, "KEEP_ALIVE_INTERVAL_MS", 5000);
        let max_idle_timeout_ms = parse_env_u32(env, "MAX_IDLE_TIMEOUT_MS", 60000);
        Self { mtu_discovery_max, keep_alive_interval_ms, max_idle_timeout_ms }
    }
}

/// Whether `ed25519::Keypair::try_from_bytes` accepts `b`: 64 bytes, a secret key followed by
/// the public key that belongs to it.
pub uninterp spec fn ed25519_keypair_bytes_valid(b: Seq<u8>) -> bool;

/// The key pair that `ed25519::Keypair::try_from_bytes` decodes from the bytes `b`, as an
/// identity `Keypair`.
pub uninterp spec fn ed25519_keypair_of_bytes(b: Seq<u8>) -> Keypair;

/// The peer id bytes of the Ed25519 public key `public`: the identity multihash (code 0, length
/// 36) of the key's protobuf encoding (key type 1, then the 32 key bytes).
pub open spec fn ed25519_peer_id_bytes(public: Seq<u8>) -> Seq<u8> {
    seq![0x00u8, 0x24u8, 0x08u8, 0x01u8, 0x12u8, 0x20u8] + public
}

/// Calls `ed25519::Keypair::try_from_bytes` on a copy of `bytes`, and turns the result into an
/// identity `Keypair`. Claims: it succeeds exactly when `ed25519_keypair_bytes_valid(bytes)`,
/// then on 64 bytes, giving `ed25519_keypair_of_bytes(bytes)`, whose public key is the second half
/// of them, so its peer id is `ed25519_peer_id_bytes` of that half.
#[verifier::external_body]
fn ed25519_keypair_decode(bytes: &[u8]) -> (r: Option<Keypair>)
    ensures
        r is Some == ed25519_keypair_bytes_valid(bytes@),
        r matches Some(k) ==> k == ed25519_keypair_of_bytes(bytes@),
        r is Some ==> bytes@.len() == 64,
        r matches Some(k) ==> keypair_peer_id(k) == ed25519_peer_id_bytes(
            bytes@.subrange(32, 64),
        ),
{
    let mut copy = bytes.to_vec();
    libp2p::identity::ed25519::Keypair::try_from_bytes(&mut copy).ok().map(Keypair::from)
}

/// The node's key pair from the bytes of its key file: an Ed25519 secret key followed by its
/// public key. `None` where the bytes are no such key pair.
pub fn get_keypair(key_bytes: &[u8]) -> (r: Option<Keypair>)
    ensures
        r is Some == ed25519_keypair_bytes_valid(key_bytes@),
        r matches Some(k) ==> k == ed25519_keypair_of_bytes(key_bytes@),
        r matches Some(k) ==> key_bytes@.len() == 64 && keypair_peer_id(k) == ed25519_peer_id_bytes(
            key_bytes@.subrange(32, 64),
        ),
{
    ed25519_keypair_decode(key_bytes)
}

/// Calls `Keypair::clone`, which copies the key pair.
#[verifier::external_body]
fn copy_keypair(k: &Keypair) -> (r: Keypair)
    ensures
        r == *k,
{
    k.clone()
}

/// What a swarm is told to do at start-up.
#[derive(Debug)]
pub enum SwarmAction {
    /// Listen on the address.
    Listen(Address),
    /// Announce the address as one at which the node can be reached.
    AddExternalAddress(Address),
    /// Connect to the boot node.
    Dial(BootNode),
}

/// A start-up action, by the byte encodings of the addresses and peers it names.
pub enum PlannedAction {
    Listen(Seq<u8>),
    AddExternalAddress(Seq<u8>),
    Dial(Seq<u8>, Seq<u8>),
}

impl View for SwarmAction {
    type V = PlannedAction;

    open spec fn view(&self) -> PlannedAction {
        match self {
            SwarmAction::Listen(a) => PlannedAction::Listen(a@),
            SwarmAction::AddExternalAddress(a) => PlannedAction::AddExternalAddress(a@),
            SwarmAction::Dial(b) => PlannedAction::Dial(b.peer_id@, b.address@),
        }
    }
}

/// The planned actions of a sequence of swarm actions, in order.
pub open spec fn action_seq(v: Seq<SwarmAction>) -> Seq<PlannedAction> {
    v.map_values(|a: SwarmAction| a@)
}

proof fn lemma_action_seq_push(v: Seq<SwarmAction>, a: SwarmAction)
    ensures
        action_seq(v.push(a)) == action_seq(v).push(a@),
{
    assert(action_seq(v.push(a)) =~= action_seq(v).push(a@));
}

/// What a transport builder holds, by the byte encodings of its addresses and peers.
pub struct BuilderView<P> {
    pub keypair: Keypair,
    pub listen_addrs: Seq<Seq<u8>>,
    pub public_addrs: Seq<Seq<u8>>,
    pub boot_nodes: Seq<(Seq<u8>, Seq<u8>)>,
    pub relay_addrs: Seq<Seq<u8>>,
    pub relay: bool,
    pub quic_config: QuicConfig,
    pub protocol: P,
    pub agent_info: AgentInfo,
}

/// The relays that a node with relaying on connects through: the given relay addresses, or,
/// where none is given, the boot nodes, each at its address followed by `/p2p/<its peer id>`.
pub open spec fn relay_targets<P>(v: BuilderView<P>) -> Seq<Seq<u8>> {
    if v.relay && v.relay_addrs.len() == 0 {
        Seq::new(v.boot_nodes.len(), |i: int| v.boot_nodes[i].1 + p2p_bytes(v.boot_nodes[i].0))
    } else {
        v.relay_addrs
    }
}

/// How a swarm is started: it listens on each listen address, announces each public address,
/// dials each boot node, and then, with relaying on, listens through each relay target followed
/// by `/p2p-circuit`; all in that order.
pub open spec fn start_plan<P>(v: BuilderView<P>) -> Seq<PlannedAction> {
    let targets = relay_targets(v);
    Seq::new(v.listen_addrs.len(), |i: int| PlannedAction::Listen(v.listen_addrs[i])) + Seq::new(
        v.public_addrs.len(),
        |i: int| PlannedAction::AddExternalAddress(v.public_addrs[i]),
    ) + Seq::new(
        v.boot_nodes.len(),
        |i: int| PlannedAction::Dial(v.boot_nodes[i].0, v.boot_nodes[i].1),
    ) + if v.relay {
        Seq::new(targets.len(), |i: int| PlannedAction::Listen(targets[i] + p2p_circuit_bytes()))
    } else {
        Seq::empty()
    }
}

/// The start-up plan, entry by entry: first one `Listen` per listen address, then one
/// `AddExternalAddress` per public address, then one `Dial` per boot node, each in the order
/// given; then, with relaying on, one `Listen` through each relay address followed by
/// `/p2p-circuit`, or, where no relay address is given, through each boot node's address followed
/// by `/p2p/<its peer id>/p2p-circuit`; with relaying off, nothing more.
pub proof fn lemma_start_plan_entries<P>(v: BuilderView<P>)
    ensures
        ({
            let plan = start_plan(v);
            let l = v.listen_addrs.len() as int;
            let p = v.public_addrs.len() as int;
            let b = v.boot_nodes.len() as int;
            let r = v.relay_addrs.len() as int;
            &&& plan.len() == l + p + b + (if !v.relay {
                0
            } else if r == 0 {
                b
            } else {
                r
            })
            &&& forall|k: int| 0 <= k < l ==> #[trigger] plan[k] == PlannedAction::Listen(v.listen_addrs[k])
            &&& forall|k: int|
                l <= k < l + p ==> #[trigger] plan[k] == PlannedAction::AddExternalAddress(
                    v.public_addrs[k - l],
                )
            &&& forall|k: int|
                l + p <= k < l + p + b ==> #[trigger] plan[k] == PlannedAction::Dial(
                    v.boot_nodes[k - l - p].0,
                    v.boot_nodes[k - l - p].1,
                )
            &&& v.relay && r > 0 ==> forall|k: int|
                l + p + b <= k < l + p + b + r ==> #[trigger] plan[k] == PlannedAction::Listen(
                    v.relay_addrs[k - l - p - b] + p2p_circuit_bytes(),
                )
            &&& v.relay && r == 0 ==> forall|k: int|
                l + p + b <= k < l + p + b + b ==> #[trigger] plan[k] == PlannedAction::Listen(
                    v.boot_nodes[k - l - p - b].1 + p2p_bytes(v.boot_nodes[k - l - p - b].0)
                        + p2p_circuit_bytes(),
                )
        }),
{
}

/// A change that a builder method makes, by the byte encodings of what it adds.
pub enum BuilderChange {
    /// `with_listen_addrs`
    ListenAddrs(Seq<Seq<u8>>),
    /// `with_public_addrs`
    PublicAddrs(Seq<Seq<u8>>),
    /// `with_boot_nodes`
    BootNodes(Seq<(Seq<u8>, Seq<u8>)>),
    /// `with_relay`
    Relay(bool),
    /// `with_relay_addrs`
    RelayAddrs(Seq<Seq<u8>>),
    /// `with_quic_config`, with the settings it makes
    Quic(QuicConfig),
}

/// What a builder holds after the change `c`.
pub open spec fn apply_change<P>(v: BuilderView<P>, c: BuilderChange) -> BuilderView<P> {
    match c {
        BuilderChange::ListenAddrs(a) => BuilderView { listen_addrs: v.listen_addrs + a, ..v },
        BuilderChange::PublicAddrs(a) => BuilderView { public_addrs: v.public_addrs + a, ..v },
        BuilderChange::BootNodes(b) => BuilderView { boot_nodes: v.boot_nodes + b, ..v },
        BuilderChange::Relay(relay) => BuilderView { relay, ..v },
        BuilderChange::RelayAddrs(a) => BuilderView {
            relay_addrs: v.relay_addrs + a,
            relay: true,
            ..v
        },
        BuilderChange::Quic(q) => BuilderView { quic_config: q, ..v },
    }
}

/// What a builder holds after the changes `cs`, in order.
pub open spec fn apply_changes<P>(v: BuilderView<P>, cs: Seq<BuilderChange>) -> BuilderView<P>
    decreases cs.len(),
{
    if cs.len() == 0 {
        v
    } else {
        apply_changes(apply_change(v, cs[0]), cs.drop_first())
    }
}

/// No chain of builder methods changes the node's identity: the key pair, and so the local peer
/// id, the protocol and the agent stay those the builder was made with.
pub proof fn lemma_builder_changes_keep_identity<P>(v: BuilderView<P>, cs: Seq<BuilderChange>)
    ensures
        apply_changes(v, cs).keypair == v.keypair,
        keypair_peer_id(apply_changes(v, cs).keypair) == keypair_peer_id(v.keypair),
        apply_changes(v, cs).protocol == v.protocol,
        apply_changes(v, cs).agent_info == v.agent_info,
    decreases cs.len(),
{
    if cs.len() > 0 {
        lemma_builder_changes_keep_identity(apply_change(v, cs[0]), cs.drop_first());
    }
}

/// Builds a transport's swarm from its arguments and settings.
pub struct P2PTransportBuilder<P> {
    keypair: Keypair,
    listen_addrs: Vec<Address>,
    public_addrs: Vec<Address>,
    boot_nodes: Vec<BootNode>,
    relay_addrs: Vec<Address>,
    relay: bool,
    quic_config: QuicConfig,
    protocol: P,
    agent_info: AgentInfo,
}

impl<P> View for P2PTransportBuilder<P> {
    type V = BuilderView<P>;

    closed spec fn view(&self) -> BuilderView<P> {
        BuilderView {
            keypair: self.keypair,
            listen_addrs: addr_seq(self.listen_addrs@),
            public_addrs: addr_seq(self.public_addrs@),
            boot_nodes: boot_seq(self.boot_nodes@),
            relay_addrs: addr_seq(self.relay_addrs@),
            relay: self.relay,
            quic_config: self.quic_config,
            protocol: self.protocol,
            agent_info: self.agent_info,
        }
    }
}

impl<P> P2PTransportBuilder<P> {
    /// A builder from the command-line arguments, the node's key pair (read from `args.key`), the
    /// QUIC settings (from the environment), the protocol and the agent: it listens on the
    /// arguments' listen addresses, announces their public addresses, boots from their boot
    /// nodes, and does not relay.
    pub fn from_cli(
        args: TransportArgs,
        keypair: Keypair,
        quic_config: QuicConfig,
        protocol: P,
        agent_info: AgentInfo,
    ) -> (r: Self)
        ensures
            r@ == (BuilderView {
                keypair,
                listen_addrs: addr_seq(args.p2p_listen_addrs@),
                public_addrs: addr_seq(args.p2p_public_addrs@),
                boot_nodes: boot_seq(args.boot_nodes@),
                relay_addrs: Seq::empty(),
                relay: false,
                quic_config,
                protocol,
                agent_info,
            }),
    {
        let listen_addrs = args.listen_addrs();
        let r = Self {
            keypair,
            listen_addrs,
            public_addrs: args.p2p_public_addrs,
            boot_nodes: args.boot_nodes,
            relay_addrs: Vec::new(),
            relay: false,
            quic_config,
            protocol,
            agent_info,
        };
        assert(addr_seq(r.relay_addrs@) =~= Seq::empty());
        r
    }

    /// Adds listen addresses after those already given.
    pub fn with_listen_addrs(self, addrs: Vec<Address>) -> (r: Self)
        ensures
            r@ == (BuilderView { listen_addrs: self@.listen_addrs + addr_seq(addrs@), ..self@ }),
            r@ == apply_change(self@, BuilderChange::ListenAddrs(addr_seq(addrs@))),
    {
        let ghost added = addrs@;
        let mut b = self;
        let mut addrs = addrs;
        b.listen_addrs.append(&mut addrs);
        assert(addr_seq(b.listen_addrs@) =~= addr_seq(self.listen_addrs@) + addr_seq(added));
        b
    }

    /// Adds public addresses after those already given.
    pub fn with_public_addrs(self, addrs: Vec<Address>) -> (r: Self)
        ensures
            r@ == (BuilderView { public_addrs: self@.public_addrs + addr_seq(addrs@), ..self@ }),
            r@ == apply_change(self@, BuilderChange::PublicAddrs(addr_seq(addrs@))),
    {
        let ghost added = addrs@;
        let mut b = self;
        let mut addrs = addrs;
        b.public_addrs.append(&mut addrs);
        assert(addr_seq(b.public_addrs@) =~= addr_seq(self.public_addrs@) + addr_seq(added));
        b
    }

    /// Adds boot nodes after those already given.
    pub fn with_boot_nodes(self, nodes: Vec<BootNode>) -> (r: Self)
        ensures
            r@ == (BuilderView { boot_nodes: self@.boot_nodes + boot_seq(nodes@), ..self@ }),
            r@ == apply_change(self@, BuilderChange::BootNodes(boot_seq(nodes@))),
    {
        let ghost added = nodes@;
        let mut b = self;
        let mut nodes = nodes;
        b.boot_nodes.append(&mut nodes);
        assert(boot_seq(b.boot_nodes@) =~= boot_seq(self.boot_nodes@) + boot_seq(added));
        b
    }

    /// Turns relaying on or off.
    pub fn with_relay(self, relay: bool) -> (r: Self)
        ensures
            r@ == (BuilderView { relay, ..self@ }),
            r@ == apply_change(self@, BuilderChange::Relay(relay)),
    {
        let mut b = self;
        b.relay = relay;
        b
    }

    /// Adds relay addresses after those already given, and turns relaying on.
    pub fn with_relay_addrs(self, addrs: Vec<Address>) -> (r: Self)
        ensures
            r@ == (BuilderView {
                relay_addrs: self@.relay_addrs + addr_seq(addrs@),
                relay: true,
                ..self@
            }),
            r@ == apply_change(self@, BuilderChange::RelayAddrs(addr_seq(addrs@))),
    {
        let ghost added = addrs@;
        let mut b = self;
        let mut addrs = addrs;
        b.relay_addrs.append(&mut addrs);
        b.relay = true;
        assert(addr_seq(b.relay_addrs@) =~= addr_seq(self.relay_addrs@) + addr_seq(added));
        b
    }

    /// Replaces the QUIC settings by what `f` makes of them.
    pub fn with_quic_config<F: FnOnce(QuicConfig) -> QuicConfig>(self, f: F) -> (r: Self)
        requires
            f.requires((self@.quic_config,)),
        ensures
            f.ensures((self@.quic_config,), r@.quic_config),
            r@ == (BuilderView { quic_config: r@.quic_config, ..self@ }),
            r@ == apply_change(self@, BuilderChange::Quic(r@.quic_config)),
    {
        let mut b = self;
        b.quic_config = f(b.quic_config);
        b
    }

    /// The node's own peer: the owner of its key pair.
    pub fn local_peer_id(&self) -> (r: PeerKey)
        ensures
            r@ == keypair_peer_id(self@.keypair),
    {
        PeerKey::of_keypair(&self.keypair)
    }

    /// The node's key pair.
    pub fn keypair(&self) -> (r: Keypair)
        ensures
            r == self@.keypair,
    {
        copy_keypair(&self.keypair)
    }

    /// The QUIC settings.
    pub fn quic_config(&self) -> (r: QuicConfig)
        ensures
            r == self@.quic_config,
    {
        self.quic_config
    }

    /// The protocol.
    pub fn protocol(&self) -> (r: &P)
        ensures
            *r == self@.protocol,
    {
        &self.protocol
    }

    /// The agent.
    pub fn agent_info(&self) -> (r: AgentInfo)
        ensures
            r == self@.agent_info,
    {
        self.agent_info
    }

    /// The boot nodes, in order.
    pub fn boot_nodes(&self) -> (r: Vec<BootNode>)
        ensures
            boot_seq(r@) == self@.boot_nodes,
    {
        copy_boot_nodes(&self.boot_nodes)
    }

    /// What the swarm is told to do at start-up, in order (see `start_plan`).
    pub fn swarm_actions(&self) -> (r: Vec<SwarmAction>)
        ensures
            action_seq(r@) == start_plan(self@),
    {
        let ghost v = self@;
        let mut actions: Vec<SwarmAction> = Vec::new();
        // Listen on the listen addresses.
        let mut i: usize = 0;
        while i < self.listen_addrs.len()
            invariant
                v == self@,
                i <= self.listen_addrs.len(),
                action_seq(actions@) == Seq::new(
                    i as nat,
                    |j: int| PlannedAction::Listen(v.listen_addrs[j]),
                ),
            decreases self.listen_addrs.len() - i,
        {
            let a = SwarmAction::Listen(self.listen_addrs[i].duplicate());
            proof {
                lemma_action_seq_push(actions@, a);
            }
            actions.push(a);
            assert(action_seq(actions@) =~= Seq::new(
                (i + 1) as nat,
                |j: int| PlannedAction::Listen(v.listen_addrs[j]),
            ));
            i = i + 1;
        }
        let ghost part1 = action_seq(actions@);
        // Announce the public addresses.
        let mut i: usize = 0;
        while i < self.public_addrs.len()
            invariant
                v == self@,
                i <= self.public_addrs.len(),
                action_seq(actions@) == part1 + Seq::new(
                    i as nat,
                    |j: int| PlannedAction::AddExternalAddress(v.public_addrs[j]),
                ),
            decreases self.public_addrs.len() - i,
        {
            let a = SwarmAction::AddExternalAddress(self.public_addrs[i].duplicate());
            proof {
                lemma_action_seq_push(actions@, a);
            }
            actions.push(a);
            assert(action_seq(actions@) =~= part1 + Seq::new(
                (i + 1) as nat,
                |j: int| PlannedAction::AddExternalAddress(v.public_addrs[j]),
            ));
            i = i + 1;
        }
        let ghost part2 = action_seq(actions@);
        // Dial the boot nodes.
        let mut i: usize = 0;
        while i < self.boot_nodes.len()
            invariant
                v == self@,
                i <= self.boot_nodes.len(),
                action_seq(actions@) == part2 + Seq::new(
                    i as nat,
                    |j: int| PlannedAction::Dial(v.boot_nodes[j].0, v.boot_nodes[j].1),
                ),
            decreases self.boot_nodes.len() - i,
        {
            let a = SwarmAction::Dial(self.boot_nodes[i].duplicate());
            proof {
                lemma_action_seq_push(actions@, a);
            }
            actions.push(a);
            assert(action_seq(actions@) =~= part2 + Seq::new(
                (i + 1) as nat,
                |j: int| PlannedAction::Dial(v.boot_nodes[j].0, v.boot_nodes[j].1),
            ));
            i = i + 1;
        }
        let ghost part3 = action_seq(actions@);
        // Listen through the relays.
        if self.relay {
            let ghost targets = relay_targets(v);
            if self.relay_addrs.len() == 0 {
                let mut i: usize = 0;
                while i < self.boot_nodes.len()
                    invariant
                        v == self@,
                        v.relay,
                        v.relay_addrs.len() == 0,
                        targets == relay_targets(v),
                        i <= self.boot_nodes.len(),
                        action_seq(actions@) == part3 + Seq::new(
                            i as nat,
                            |j: int| PlannedAction::Listen(targets[j] + p2p_circuit_bytes()),
                        ),
                    decreases self.boot_nodes.len() - i,
                {
                    let node = &self.boot_nodes[i];
                    node.peer_id.check_valid();
                    let relay = node.address.with(&Component::P2p(node.peer_id.duplicate()));
                    let a = SwarmAction::Listen(relay.with(&Component::P2pCircuit));
                    proof {
                lemma_action_seq_push(actions@, a);
            }
            actions.push(a);
                    assert(action_seq(actions@) =~= part3 + Seq::new(
                        (i + 1) as nat,
                        |j: int| PlannedAction::Listen(targets[j] + p2p_circuit_bytes()),
                    ));
                    i = i + 1;
                }
            } else {
                let mut i: usize = 0;
                while i < self.relay_addrs.len()
                    invariant
                        v == self@,
                        v.relay,
                        targets == relay_targets(v),
                        targets == v.relay_addrs,
                        i <= self.relay_addrs.len(),
                        action_seq(actions@) == part3 + Seq::new(
                            i as nat,
                            |j: int| PlannedAction::Listen(targets[j] + p2p_circuit_bytes()),
                        ),
                    decreases self.relay_addrs.len() - i,
                {
                    let a = SwarmAction::Listen(self.relay_addrs[i].with(&Component::P2pCircuit));
                    proof {
                lemma_action_seq_push(actions@, a);
            }
            actions.push(a);
                    assert(action_seq(actions@) =~= part3 + Seq::new(
                        (i + 1) as nat,
                        |j: int| PlannedAction::Listen(targets[j] + p2p_circuit_bytes()),
                    ));
                    i = i + 1;
                }
            }
        } else {
            assert(action_seq(actions@) =~= part3 + Seq::<PlannedAction>::empty());
        }
        assert(action_seq(actions@) =~= start_plan(v));
        actions
    }
}

} // verus!
