use vstd::prelude::*;
use crate::ids::{PeerId, ShareId};
use crate::message::{InventoryMessage, Message, MessageV};

verus! {

/// The configuration the node consumes: the local listen address, the
/// bootstrap peer addresses to dial at startup, and the storage path that is
/// forwarded opaquely to the store collaborator. Addresses are kept as plain
/// strings; the transport parses them when it performs the intents.
pub struct Config {
    pub listen_address: String,
    pub dial_peers: Vec<String>,
    pub store_path: String,
}

/// The mathematical value of a configuration.
#[verifier::ext_equal]
pub struct ConfigV {
    pub listen_address: Seq<char>,
    pub dial_peers: Seq<Seq<char>>,
    pub store_path: Seq<char>,
}

impl View for Config {
    type V = ConfigV;

    open spec fn view(&self) -> ConfigV {
        ConfigV {
            listen_address: self.listen_address@,
            dial_peers: self.dial_peers.deep_view(),
            store_path: self.store_path@,
        }
    }
}

/// An outbound intent against the network capability or the transport. The
/// embedding loop performs each intent in order; the node's logic only
/// decides which intents to issue.
#[derive(Debug)]
pub enum Action {
    /// Bind the local listen address.
    Listen(String),
    /// Best-effort dial of an address; a parse or dial failure is logged by
    /// the performer and skipped, never fatal.
    Dial(String),
    /// Best-effort dial of a discovered peer at the given address; on dial
    /// acceptance the performer hands the outcome to `after_dial`.
    DialPeer(PeerId, String),
    /// Subscribe to the single well-known share topic.
    Subscribe,
    /// Publish the already-encoded payload on the share topic.
    Publish(Vec<u8>),
    /// Fire-and-forget direct delivery of a message to a peer.
    SendRequest(PeerId, Message),
    /// Register a peer's address with the routing table as a dial target.
    RegisterAddress(PeerId, String),
    /// Purge the per-peer entries the capability keeps for a departed peer.
    RemovePeer(PeerId),
    /// Best-effort disconnect of a connected peer.
    Disconnect(PeerId),
}

/// The mathematical value of an outbound intent.
#[verifier::ext_equal]
pub enum ActionV {
    Listen(Seq<char>),
    Dial(Seq<char>),
    DialPeer(Seq<u8>, Seq<char>),
    Subscribe,
    Publish(Seq<u8>),
    SendRequest(Seq<u8>, MessageV),
    RegisterAddress(Seq<u8>, Seq<char>),
    RemovePeer(Seq<u8>),
    Disconnect(Seq<u8>),
}

impl View for Action {
    type V = ActionV;

    open spec fn view(&self) -> ActionV {
        match self {
            Action::Listen(a) => ActionV::Listen(a@),
            Action::Dial(a) => ActionV::Dial(a@),
            Action::DialPeer(p, a) => ActionV::DialPeer(p@, a@),
            Action::Subscribe => ActionV::Subscribe,
            Action::Publish(b) => ActionV::Publish(b@),
            Action::SendRequest(p, m) => ActionV::SendRequest(p@, m@),
            Action::RegisterAddress(p, a) => ActionV::RegisterAddress(p@, a@),
            Action::RemovePeer(p) => ActionV::RemovePeer(p@),
            Action::Disconnect(p) => ActionV::Disconnect(p@),
        }
    }
}

impl DeepView for Action {
    type V = ActionV;

    open spec fn deep_view(&self) -> ActionV {
        self.view()
    }
}

/// A peer discovered on the local network together with the address it was
/// discovered at.
#[derive(Debug)]
pub struct DiscoveredPeer {
    pub peer: PeerId,
    pub addr: String,
}

/// The mathematical value of a discovered peer.
#[verifier::ext_equal]
pub struct DiscoveredPeerV {
    pub peer: Seq<u8>,
    pub addr: Seq<char>,
}

impl View for DiscoveredPeer {
    type V = DiscoveredPeerV;

    open spec fn view(&self) -> DiscoveredPeerV {
        DiscoveredPeerV { peer: self.peer@, addr: self.addr@ }
    }
}

impl DeepView for DiscoveredPeer {
    type V = DiscoveredPeerV;

    open spec fn deep_view(&self) -> DiscoveredPeerV {
        self.view()
    }
}

/// A transport-level event, already stripped to the plain values the node's
/// dispatch reads. The set is closed: every category the capability produces
/// maps to exactly one variant, and categories that are observed only for
/// logging map to the payload-free variants.
#[derive(Debug)]
pub enum NetEvent {
    /// The local transport started listening on an address.
    ListenStarted(String),
    /// A connection to the peer was established.
    ConnectionEstablished(PeerId),
    /// The connection to the peer closed.
    ConnectionClosed(PeerId),
    /// Local discovery produced peer/address pairs.
    Discovered(Vec<DiscoveredPeer>),
    /// A peer advertised its listen addresses through the self-description
    /// exchange.
    IdentifyReceived(PeerId, Vec<String>),
    /// Any other self-description event; observed only.
    IdentifyOther,
    /// A routing-table update or query-progress event; observed only, never
    /// acted on: routing is consulted only as a dial-target source.
    Routing,
    /// An inbound gossip payload; observed only, not decoded or forwarded.
    GossipPayload(Vec<u8>),
    /// An inbound direct request or response; observed only.
    DirectPayload,
    /// Any unmatched top-level event category.
    Other,
}

/// The mathematical value of a transport-level event.
#[verifier::ext_equal]
pub enum NetEventV {
    ListenStarted(Seq<char>),
    ConnectionEstablished(Seq<u8>),
    ConnectionClosed(Seq<u8>),
    Discovered(Seq<DiscoveredPeerV>),
    IdentifyReceived(Seq<u8>, Seq<Seq<char>>),
    IdentifyOther,
    Routing,
    GossipPayload(Seq<u8>),
    DirectPayload,
    Other,
}

impl View for NetEvent {
    type V = NetEventV;

    open spec fn view(&self) -> NetEventV {
        match self {
            NetEvent::ListenStarted(a) => NetEventV::ListenStarted(a@),
            NetEvent::ConnectionEstablished(p) => NetEventV::ConnectionEstablished(p@),
            NetEvent::ConnectionClosed(p) => NetEventV::ConnectionClosed(p@),
            NetEvent::Discovered(d) => NetEventV::Discovered(d.deep_view()),
            NetEvent::IdentifyReceived(p, a) => NetEventV::IdentifyReceived(p@, a.deep_view()),
            NetEvent::IdentifyOther => NetEventV::IdentifyOther,
            NetEvent::Routing => NetEventV::Routing,
            NetEvent::GossipPayload(b) => NetEventV::GossipPayload(b@),
            NetEvent::DirectPayload => NetEventV::DirectPayload,
            NetEvent::Other => NetEventV::Other,
        }
    }
}

impl DeepView for NetEvent {
    type V = NetEventV;

    open spec fn deep_view(&self) -> NetEventV {
        self.view()
    }
}

/// The mathematical value of the node's session bookkeeping: the identities
/// of the currently connected peers, in connection order.
#[verifier::ext_equal]
pub struct NodeV {
    pub connected: Seq<Seq<u8>>,
}

/// An order-preserving removal of every entry equal to `p`.
pub open spec fn seq_without(s: Seq<Seq<u8>>, p: Seq<u8>) -> Seq<Seq<u8>>
    decreases s.len(),
{
    if s.len() == 0 {
        s
    } else if s.last() == p {
        seq_without(s.drop_last(), p)
    } else {
        seq_without(s.drop_last(), p).push(s.last())
    }
}

/// Membership through a push: the pushed sequence holds exactly the old
/// entries and the new one.
pub proof fn lemma_push_contains(t: Seq<Seq<u8>>, e: Seq<u8>)
    ensures
        forall|x: Seq<u8>| #[trigger] t.push(e).contains(x) <==> (t.contains(x) || x == e),
{
    assert forall|x: Seq<u8>| #[trigger] t.push(e).contains(x) implies (t.contains(x) || x == e) by {
        let i = choose|i: int| 0 <= i < t.push(e).len() && t.push(e)[i] == x;
        if i < t.len() {
            assert(t[i] == x);
        }
    }
    assert forall|x: Seq<u8>| (t.contains(x) || x == e) implies #[trigger] t.push(e).contains(x) by {
        if t.contains(x) {
            let i = choose|i: int| 0 <= i < t.len() && t[i] == x;
            assert(t.push(e)[i] == x);
        } else {
            assert(t.push(e)[t.len() as int] == x);
        }
    }
}

/// `seq_without` keeps exactly the entries other than `p`.
pub proof fn lemma_seq_without_contains(s: Seq<Seq<u8>>, p: Seq<u8>)
    ensures
        forall|x: Seq<u8>| #[trigger] seq_without(s, p).contains(x) <==> (s.contains(x) && x != p),
    decreases s.len(),
{
    if s.len() > 0 {
        let dl = s.drop_last();
        lemma_seq_without_contains(dl, p);
        lemma_push_contains(dl, s.last());
        assert(s =~= dl.push(s.last()));
        if s.last() != p {
            lemma_push_contains(seq_without(dl, p), s.last());
        }
        assert forall|x: Seq<u8>|
            #[trigger] seq_without(s, p).contains(x) <==> (s.contains(x) && x != p) by {
            assert(s.contains(x) <==> (dl.contains(x) || x == s.last()));
            if s.last() == p {
                assert(seq_without(s, p) == seq_without(dl, p));
            } else {
                assert(seq_without(s, p) == seq_without(dl, p).push(s.last()));
                assert(seq_without(s, p).contains(x) <==> (seq_without(dl, p).contains(x) || x
                    == s.last()));
            }
        }
    }
}

impl NodeV {
    /// Well-formedness: no peer is listed twice.
    pub open spec fn wf(self) -> bool {
        forall|i: int, j: int|
            0 <= i < self.connected.len() && 0 <= j < self.connected.len() && i != j
                ==> self.connected[i] != self.connected[j]
    }

    /// The session after a connection to `p` was established: `p` is listed
    /// once, appended if it was absent.
    pub open spec fn add_peer(self, p: Seq<u8>) -> NodeV {
        if self.connected.contains(p) {
            self
        } else {
            NodeV { connected: self.connected.push(p) }
        }
    }

    /// The session after the connection to `p` closed.
    pub open spec fn remove_peer(self, p: Seq<u8>) -> NodeV {
        NodeV { connected: seq_without(self.connected, p) }
    }
}

/// Removing a peer keeps the remaining listing free of duplicates.
pub proof fn lemma_seq_without_wf(s: NodeV, p: Seq<u8>)
    requires
        s.wf(),
    ensures
        s.remove_peer(p).wf(),
    decreases s.connected.len(),
{
    if s.connected.len() > 0 {
        let c = s.connected;
        let dl = NodeV { connected: c.drop_last() };
        assert(dl.wf());
        lemma_seq_without_wf(dl, p);
        lemma_seq_without_contains(c.drop_last(), p);
        let w = seq_without(c.drop_last(), p);
        assert(dl.remove_peer(p).connected == w);
        if c.last() != p {
            assert(s.remove_peer(p).connected == w.push(c.last()));
            assert(!c.drop_last().contains(c.last())) by {
                if c.drop_last().contains(c.last()) {
                    let i = choose|i: int|
                        0 <= i < c.drop_last().len() && c.drop_last()[i] == c.last();
                    assert(c[i] == c[c.len() - 1]);
                }
            }
            assert(!w.contains(c.last()));
            assert forall|i: int, j: int|
                0 <= i < w.push(c.last()).len() && 0 <= j < w.push(c.last()).len() && i
                    != j implies w.push(c.last())[i] != w.push(c.last())[j] by {
                if i == w.len() as int {
                    assert(w.contains(w[j]));
                } else if j == w.len() as int {
                    assert(w.contains(w[i]));
                } else {
                    assert(dl.remove_peer(p).connected[i] != dl.remove_peer(p).connected[j]);
                }
            }
        } else {
            assert(s.remove_peer(p).connected == w);
        }
    }
}

/// One best-effort dial intent per configured address, in order.
pub open spec fn dials_of(addrs: Seq<Seq<char>>) -> Seq<ActionV> {
    Seq::new(addrs.len(), |k: int| ActionV::Dial(addrs[k]))
}

/// The intents issued at startup: bind the configured listen address,
/// best-effort dial each bootstrap peer, then subscribe to the share topic.
pub open spec fn startup_actions(c: ConfigV) -> Seq<ActionV> {
    seq![ActionV::Listen(c.listen_address)] + dials_of(c.dial_peers) + seq![ActionV::Subscribe]
}

/// The intents issued on connection establishment: exactly one Inventory
/// message carrying the chain tip, delivered directly to the new peer, when a
/// tip is present; nothing when the chain is empty.
pub open spec fn inventory_actions(p: Seq<u8>, tip: Option<Seq<u8>>) -> Seq<ActionV> {
    match tip {
        Some(t) => seq![ActionV::SendRequest(p, MessageV::Inventory(seq![t]))],
        None => Seq::empty(),
    }
}

/// The intents issued for a discovery batch: one best-effort dial per
/// discovered pair whose peer is not already connected.
pub open spec fn discovery_actions(s: NodeV, pairs: Seq<DiscoveredPeerV>) -> Seq<ActionV>
    decreases pairs.len(),
{
    if pairs.len() == 0 {
        Seq::empty()
    } else {
        let rest = discovery_actions(s, pairs.drop_last());
        if s.connected.contains(pairs.last().peer) {
            rest
        } else {
            rest.push(ActionV::DialPeer(pairs.last().peer, pairs.last().addr))
        }
    }
}

/// The intents issued for a self-description exchange: register each
/// advertised listen address with the routing table.
pub open spec fn identify_actions(p: Seq<u8>, addrs: Seq<Seq<char>>) -> Seq<ActionV> {
    Seq::new(addrs.len(), |k: int| ActionV::RegisterAddress(p, addrs[k]))
}

/// The intents issued at shutdown: one best-effort disconnect per connected
/// peer, in listing order.
pub open spec fn disconnect_all(connected: Seq<Seq<u8>>) -> Seq<ActionV> {
    Seq::new(connected.len(), |k: int| ActionV::Disconnect(connected[k]))
}

/// How a transport event changes the session bookkeeping.
pub open spec fn dispatch_state(s: NodeV, e: NetEventV) -> NodeV {
    match e {
        NetEventV::ConnectionEstablished(p) => s.add_peer(p),
        NetEventV::ConnectionClosed(p) => s.remove_peer(p),
        _ => s,
    }
}

/// Which intents a transport event provokes, given the chain tip read at
/// dispatch time. Every category without a listed intent is observed only.
pub open spec fn dispatch_actions(s: NodeV, e: NetEventV, tip: Option<Seq<u8>>) -> Seq<ActionV> {
    match e {
        NetEventV::ConnectionEstablished(p) => inventory_actions(p, tip),
        NetEventV::ConnectionClosed(p) => seq![ActionV::RemovePeer(p)],
        NetEventV::Discovered(pairs) => discovery_actions(s, pairs),
        NetEventV::IdentifyReceived(p, addrs) => identify_actions(p, addrs),
        _ => Seq::empty(),
    }
}

/// Law: on connection establishment exactly one Inventory message is sent to
/// the new peer if and only if the chain tip is present at that moment; the
/// message carries exactly that tip, and an empty tip provokes nothing.
pub proof fn lemma_inventory_on_connect(s: NodeV, p: Seq<u8>, tip: Option<Seq<u8>>)
    ensures
        tip matches Some(t) ==> dispatch_actions(s, NetEventV::ConnectionEstablished(p), tip)
            =~= seq![ActionV::SendRequest(p, MessageV::Inventory(seq![t]))],
        tip is None ==> dispatch_actions(s, NetEventV::ConnectionEstablished(p), tip).len() == 0,
{
}

/// The node's session bookkeeping: the peers currently connected. The
/// transport session itself is owned by the embedding loop; this listing
/// mirrors it, fed exclusively by the dispatched connection events.
#[derive(Debug)]
pub struct Node {
    pub connected: Vec<PeerId>,
}

impl View for Node {
    type V = NodeV;

    open spec fn view(&self) -> NodeV {
        NodeV { connected: self.connected.deep_view() }
    }
}

impl Node {
    /// Construct the initial session state and the startup intents for the
    /// given configuration: bind the listen address, best-effort dial every
    /// bootstrap peer, subscribe to the share topic.
    pub fn new(config: Config) -> (r: (Node, Vec<Action>))
        ensures
            r.0@.connected.len() == 0,
            r.0@.wf(),
            r.1.deep_view() == startup_actions(config@),
    {
        let ghost cv = config@;
        let Config { listen_address, dial_peers, store_path: _ } = config;
        let mut acts: Vec<Action> = Vec::new();
        acts.push(Action::Listen(listen_address));
        let mut i: usize = 0;
        while i < dial_peers.len()
            invariant
                i <= dial_peers.len(),
                dial_peers.deep_view() == cv.dial_peers,
                acts.deep_view() =~= seq![ActionV::Listen(cv.listen_address)] + dials_of(
                    cv.dial_peers.subrange(0, i as int),
                ),
            decreases dial_peers.len() - i,
        {
            let a = dial_peers[i].clone();
            let ghost pre = acts.deep_view();
            acts.push(Action::Dial(a));
            proof {
                assert(acts.deep_view() =~= pre.push(ActionV::Dial(a@)));
                assert(acts.deep_view() =~= seq![ActionV::Listen(cv.listen_address)] + dials_of(
                    cv.dial_peers.subrange(0, i + 1),
                ));
            }
            i += 1;
        }
        acts.push(Action::Subscribe);
        proof {
            assert(cv.dial_peers.subrange(0, cv.dial_peers.len() as int) =~= cv.dial_peers);
            assert(acts.deep_view() =~= startup_actions(cv));
        }
        let node = Node { connected: Vec::new() };
        proof {
            assert(node@.connected =~= Seq::<Seq<u8>>::empty());
        }
        (node, acts)
    }

    /// Whether the peer is currently listed as connected.
    pub fn contains_peer(&self, p: &PeerId) -> (r: bool)
        ensures
            r == self@.connected.contains(p@),
    {
        let mut i: usize = 0;
        while i < self.connected.len()
            invariant
                i <= self.connected.len(),
                forall|j: int| 0 <= j < i ==> self@.connected[j] != p@,
            decreases self.connected.len() - i,
        {
            if crate::ids::bytes_eq(&self.connected[i].bytes, &p.bytes) {
                assert(self@.connected[i as int] == p@);
                return true;
            }
            i += 1;
        }
        proof {
            if self@.connected.contains(p@) {
                let j = choose|j: int| 0 <= j < self@.connected.len() && self@.connected[j] == p@;
                assert(self@.connected[j] != p@);
            }
        }
        false
    }

    /// A snapshot of the currently connected peers.
    pub fn connected_peers(&self) -> (r: Vec<PeerId>)
        ensures
            r.deep_view() == self@.connected,
    {
        let mut r: Vec<PeerId> = Vec::new();
        let mut i: usize = 0;
        while i < self.connected.len()
            invariant
                i <= self.connected.len(),
                r.deep_view() =~= self@.connected.subrange(0, i as int),
            decreases self.connected.len() - i,
        {
            r.push(self.connected[i].dup());
            proof {
                assert(self@.connected.subrange(0, i + 1) =~= self@.connected.subrange(
                    0,
                    i as int,
                ).push(self@.connected[i as int]));
                assert(r.deep_view() =~= self@.connected.subrange(0, i + 1));
            }
            i += 1;
        }
        proof {
            assert(self@.connected.subrange(0, self@.connected.len() as int) =~= self@.connected);
        }
        r
    }

    /// The shutdown intents: disconnect every currently connected peer,
    /// best-effort, in listing order. The bookkeeping itself is untouched;
    /// the actor stops right after and processes nothing further.
    pub fn shutdown(&mut self) -> (r: Vec<Action>)
        ensures
            final(self)@ == old(self)@,
            r.deep_view() == disconnect_all(old(self)@.connected),
    {
        let mut r: Vec<Action> = Vec::new();
        let mut i: usize = 0;
        while i < self.connected.len()
            invariant
                i <= self.connected.len(),
                self@ == old(self)@,
                r.deep_view() =~= disconnect_all(old(self)@.connected.subrange(0, i as int)),
            decreases self.connected.len() - i,
        {
            let p = self.connected[i].dup();
            let ghost pre = r.deep_view();
            r.push(Action::Disconnect(p));
            proof {
                assert(r.deep_view() =~= pre.push(ActionV::Disconnect(
                    old(self)@.connected[i as int],
                )));
                assert(r.deep_view() =~= disconnect_all(
                    old(self)@.connected.subrange(0, i + 1),
                ));
            }
            i += 1;
        }
        proof {
            assert(old(self)@.connected.subrange(0, old(self)@.connected.len() as int) =~= old(
                self,
            )@.connected);
            assert(r.deep_view() =~= disconnect_all(old(self)@.connected));
        }
        r
    }

    /// Publish an already-encoded payload on the share topic. The publish is
    /// fire-and-forget: the single intent is issued whatever the transport
    /// later makes of it.
    pub fn send_gossip(&mut self, buf: Vec<u8>) -> (r: Vec<Action>)
        ensures
            final(self)@ == old(self)@,
            r.deep_view() == seq![ActionV::Publish(buf@)],
    {
        let mut r: Vec<Action> = Vec::new();
        r.push(Action::Publish(buf));
        proof {
            assert(r.deep_view() =~= seq![ActionV::Publish(buf@)]);
        }
        r
    }

    /// Deliver a message directly to a peer, fire-and-forget.
    pub fn send_to_peer(&mut self, peer: PeerId, message: Message) -> (r: Vec<Action>)
        ensures
            final(self)@ == old(self)@,
            r.deep_view() == seq![ActionV::SendRequest(peer@, message@)],
    {
        let mut r: Vec<Action> = Vec::new();
        r.push(Action::SendRequest(peer, message));
        proof {
            assert(r.deep_view() =~= seq![ActionV::SendRequest(peer@, message@)]);
        }
        r
    }

    /// The inventory announcement for a newly connected peer: one Inventory
    /// message carrying exactly the chain tip when one is present, nothing
    /// otherwise.
    pub fn send_inventory(&self, peer: &PeerId, tip: Option<ShareId>) -> (r: Vec<Action>)
        ensures
            r.deep_view() == inventory_actions(peer@, tip.deep_view()),
    {
        match tip {
            Some(t) => {
                let ghost tv = t@;
                let mut have: Vec<ShareId> = Vec::new();
                have.push(t);
                let msg = Message::Inventory(InventoryMessage { have_shares: have });
                let mut r: Vec<Action> = Vec::new();
                r.push(Action::SendRequest(peer.dup(), msg));
                proof {
                    assert(msg@->Inventory_0 =~= seq![tv]);
                    assert(r.deep_view() =~= seq![
                        ActionV::SendRequest(peer@, MessageV::Inventory(seq![tv])),
                    ]);
                }
                r
            },
            None => {
                let r: Vec<Action> = Vec::new();
                proof {
                    assert(r.deep_view() =~= Seq::<ActionV>::empty());
                }
                r
            },
        }
    }

    /// Dispatch one transport event: update the session bookkeeping and
    /// return the intents it provokes, given the chain tip read at dispatch
    /// time. Event categories that carry no intent are observed only.
    pub fn handle_swarm_event(&mut self, event: NetEvent, tip: Option<ShareId>) -> (r: Vec<Action>)
        requires
            old(self)@.wf(),
        ensures
            final(self)@.wf(),
            final(self)@ == dispatch_state(old(self)@, event@),
            r.deep_view() == dispatch_actions(old(self)@, event@, tip.deep_view()),
    {
        match event {
            NetEvent::ConnectionEstablished(peer) => {
                let acts = self.send_inventory(&peer, tip);
                let ghost pv = peer@;
                if !self.contains_peer(&peer) {
                    self.connected.push(peer);
                    proof {
                        assert(self@.connected =~= old(self)@.connected.push(pv));
                        assert(self@ =~= old(self)@.add_peer(pv));
                        assert forall|i: int, j: int|
                            0 <= i < self@.connected.len() && 0 <= j < self@.connected.len() && i
                                != j implies self@.connected[i] != self@.connected[j] by {
                            if i == old(self)@.connected.len() {
                                assert(old(self)@.connected[j] != pv);
                            } else if j == old(self)@.connected.len() {
                                assert(old(self)@.connected[i] != pv);
                            }
                        }
                    }
                } else {
                    proof {
                        assert(self@ =~= old(self)@.add_peer(pv));
                    }
                }
                acts
            },
            NetEvent::ConnectionClosed(peer) => {
                let ghost pv = peer@;
                let mut kept: Vec<PeerId> = Vec::new();
                let mut i: usize = 0;
                while i < self.connected.len()
                    invariant
                        i <= self.connected.len(),
                        self@ == old(self)@,
                        pv == peer@,
                        kept.deep_view() =~= seq_without(
                            old(self)@.connected.subrange(0, i as int),
                            pv,
                        ),
                    decreases self.connected.len() - i,
                {
                    let ghost pre = old(self)@.connected.subrange(0, i as int);
                    let keep = !crate::ids::bytes_eq(&self.connected[i].bytes, &peer.bytes);
                    if keep {
                        kept.push(self.connected[i].dup());
                    }
                    proof {
                        let nxt = old(self)@.connected.subrange(0, i + 1);
                        assert(nxt.drop_last() =~= pre);
                        assert(nxt.last() == old(self)@.connected[i as int]);
                        if keep {
                            assert(kept.deep_view() =~= seq_without(pre, pv).push(nxt.last()));
                        }
                        assert(kept.deep_view() =~= seq_without(nxt, pv));
                    }
                    i += 1;
                }
                proof {
                    assert(old(self)@.connected.subrange(0, old(self)@.connected.len() as int)
                        =~= old(self)@.connected);
                    lemma_seq_without_wf(old(self)@, pv);
                }
                self.connected = kept;
                let mut r: Vec<Action> = Vec::new();
                r.push(Action::RemovePeer(peer));
                proof {
                    assert(self@ =~= old(self)@.remove_peer(pv));
                    assert(r.deep_view() =~= seq![ActionV::RemovePeer(pv)]);
                }
                r
            },
            NetEvent::Discovered(pairs) => {
                let mut acts: Vec<Action> = Vec::new();
                let mut i: usize = 0;
                while i < pairs.len()
                    invariant
                        i <= pairs.len(),
                        self@ == old(self)@,
                        acts.deep_view() =~= discovery_actions(
                            old(self)@,
                            pairs.deep_view().subrange(0, i as int),
                        ),
                    decreases pairs.len() - i,
                {
                    let connected_already = self.contains_peer(&pairs[i].peer);
                    if !connected_already {
                        acts.push(Action::DialPeer(pairs[i].peer.dup(), pairs[i].addr.clone()));
                    }
                    proof {
                        let pre = pairs.deep_view().subrange(0, i as int);
                        let nxt = pairs.deep_view().subrange(0, i + 1);
                        assert(nxt.drop_last() =~= pre);
                        assert(nxt.last() == pairs.deep_view()[i as int]);
                        assert(acts.deep_view() =~= discovery_actions(old(self)@, nxt));
                    }
                    i += 1;
                }
                proof {
                    assert(pairs.deep_view().subrange(0, pairs.deep_view().len() as int)
                        =~= pairs.deep_view());
                }
                acts
            },
            NetEvent::IdentifyReceived(peer, addrs) => {
                let ghost pv = peer@;
                let mut acts: Vec<Action> = Vec::new();
                let mut i: usize = 0;
                while i < addrs.len()
                    invariant
                        i <= addrs.len(),
                        self@ == old(self)@,
                        pv == peer@,
                        acts.deep_view() =~= identify_actions(
                            pv,
                            addrs.deep_view().subrange(0, i as int),
                        ),
                    decreases addrs.len() - i,
                {
                    let q = peer.dup();
                    let addr = addrs[i].clone();
                    let ghost pre = acts.deep_view();
                    acts.push(Action::RegisterAddress(q, addr));
                    proof {
                        assert(acts.deep_view() =~= pre.push(ActionV::RegisterAddress(
                            pv,
                            addrs.deep_view()[i as int],
                        )));
                        assert(acts.deep_view() =~= identify_actions(
                            pv,
                            addrs.deep_view().subrange(0, i + 1),
                        ));
                    }
                    i += 1;
                }
                proof {
                    assert(addrs.deep_view().subrange(0, addrs.deep_view().len() as int)
                        =~= addrs.deep_view());
                }
                acts
            },
            _ => {
                let r: Vec<Action> = Vec::new();
                proof {
                    assert(r.deep_view() =~= Seq::<ActionV>::empty());
                }
                r
            },
        }
    }
}

/// The discovery follow-up: a freshly dialed peer's address becomes a future
/// dial target exactly when the dial attempt was accepted by the transport.
pub fn after_dial(dial_ok: bool, peer: PeerId, addr: String) -> (r: Option<Action>)
    ensures
        dial_ok ==> r.deep_view() == Some(ActionV::RegisterAddress(peer@, addr@)),
        !dial_ok ==> r is None,
{
    if dial_ok {
        Some(Action::RegisterAddress(peer, addr))
    } else {
        None
    }
}

} // verus!
