use p2pool_node::actor::{ActorError, ActorState, Command, Event, Phase, Reply, gossip_command};
use p2pool_node::codec::INVENTORY_TAG;
use p2pool_node::ids::{PeerId, ShareId};
use p2pool_node::message::{InventoryMessage, Message};
use p2pool_node::node::{Action, Config, DiscoveredPeer, NetEvent, Node, after_dial};

fn pid(n: u8) -> PeerId {
    PeerId::new(vec![n, n, n])
}

fn sid(n: u8) -> ShareId {
    ShareId::new(vec![n; 4])
}

fn fresh_actor() -> ActorState {
    let (node, _startup) = Node::new(Config {
        listen_address: String::from("/ip4/0.0.0.0/tcp/0"),
        dial_peers: Vec::new(),
        store_path: String::from("store"),
    });
    ActorState::new(node)
}

fn connect(actor: &mut ActorState, n: u8, tip: Option<ShareId>) {
    let out = actor.actor_step(Event::Net(NetEvent::ConnectionEstablished(pid(n)), tip));
    assert!(out.reply.is_none());
    assert!(!out.terminated);
}

#[test]
fn startup_actions_in_order() {
    let (node, startup) = Node::new(Config {
        listen_address: String::from("/ip4/127.0.0.1/tcp/9000"),
        dial_peers: vec![String::from("/ip4/10.0.0.1/tcp/9000"), String::from("/ip4/10.0.0.2/tcp/9000")],
        store_path: String::from("store"),
    });
    assert_eq!(node.connected.len(), 0);
    assert_eq!(startup.len(), 4);
    assert!(matches!(&startup[0], Action::Listen(a) if a == "/ip4/127.0.0.1/tcp/9000"));
    assert!(matches!(&startup[1], Action::Dial(a) if a == "/ip4/10.0.0.1/tcp/9000"));
    assert!(matches!(&startup[2], Action::Dial(a) if a == "/ip4/10.0.0.2/tcp/9000"));
    assert!(matches!(&startup[3], Action::Subscribe));
}

#[test]
fn replies_in_submission_order() {
    let mut actor = fresh_actor();
    connect(&mut actor, 7, None);
    let cmds = vec![
        Command::GetPeers,
        Command::SendGossip(vec![1, 2, 3]),
        Command::AddShare { accepted: false },
        Command::StoreWorkbase { stored: true },
    ];
    let mut replies = Vec::new();
    for c in cmds {
        let out = actor.actor_step(Event::Cmd(c));
        replies.push(out.reply.expect("every command gets exactly one reply"));
    }
    assert!(matches!(&replies[0], Reply::Peers(ps) if ps.len() == 1 && ps[0] == pid(7)));
    assert!(matches!(&replies[1], Reply::Sent));
    assert!(matches!(&replies[2], Reply::ShareResult(Err(ActorError::AddShareFailed))));
    assert!(matches!(&replies[3], Reply::WorkbaseResult(Ok(()))));
}

#[test]
fn shutdown_disconnects_every_peer_and_fires_once() {
    let mut actor = fresh_actor();
    connect(&mut actor, 1, None);
    connect(&mut actor, 2, None);
    let out = actor.actor_step(Event::Cmd(Command::Shutdown));
    assert!(matches!(out.reply, Some(Reply::ShutdownDone)));
    assert!(out.terminated);
    assert_eq!(out.actions.len(), 2);
    assert!(matches!(&out.actions[0], Action::Disconnect(p) if *p == pid(1)));
    assert!(matches!(&out.actions[1], Action::Disconnect(p) if *p == pid(2)));
    assert_eq!(actor.phase, Phase::Stopped);
    // A stopped actor processes nothing more: the signal cannot fire twice.
    let after = actor.actor_step(Event::Cmd(Command::GetPeers));
    assert!(after.reply.is_none());
    assert!(after.actions.is_empty());
    assert!(!after.terminated);
}

#[test]
fn queue_close_terminates_without_disconnecting() {
    let mut actor = fresh_actor();
    connect(&mut actor, 9, None);
    let out = actor.actor_step(Event::Closed);
    assert!(out.reply.is_none());
    assert!(out.actions.is_empty());
    assert!(out.terminated);
    assert_eq!(actor.phase, Phase::Stopped);
    let after = actor.actor_step(Event::Closed);
    assert!(!after.terminated);
}

#[test]
fn add_share_mirrors_collaborator_verdict() {
    let mut actor = fresh_actor();
    let ok = actor.actor_step(Event::Cmd(Command::AddShare { accepted: true }));
    assert!(matches!(ok.reply, Some(Reply::ShareResult(Ok(())))));
    let bad = actor.actor_step(Event::Cmd(Command::AddShare { accepted: false }));
    assert!(matches!(bad.reply, Some(Reply::ShareResult(Err(ActorError::AddShareFailed)))));
}

#[test]
fn store_workbase_mirrors_collaborator_verdict() {
    let mut actor = fresh_actor();
    let ok = actor.actor_step(Event::Cmd(Command::StoreWorkbase { stored: true }));
    assert!(matches!(ok.reply, Some(Reply::WorkbaseResult(Ok(())))));
    let bad = actor.actor_step(Event::Cmd(Command::StoreWorkbase { stored: false }));
    assert!(matches!(
        bad.reply,
        Some(Reply::WorkbaseResult(Err(ActorError::StoreWorkbaseFailed)))
    ));
}

#[test]
fn inventory_sent_exactly_when_tip_present() {
    let mut node = Node { connected: Vec::new() };
    let with_tip = node.handle_swarm_event(
        NetEvent::ConnectionEstablished(pid(3)),
        Some(sid(5)),
    );
    assert_eq!(with_tip.len(), 1);
    match &with_tip[0] {
        Action::SendRequest(p, Message::Inventory(inv)) => {
            assert_eq!(*p, pid(3));
            assert_eq!(inv.have_shares.len(), 1);
            assert_eq!(inv.have_shares[0], sid(5));
        }
        other => panic!("expected a direct Inventory send, got {:?}", other),
    }
    let without_tip = node.handle_swarm_event(NetEvent::ConnectionEstablished(pid(4)), None);
    assert!(without_tip.is_empty());
}

#[test]
fn two_nodes_one_empty_tip() {
    // Node A has an empty chain tip; node B's tip is S1. When they connect,
    // B sends Inventory{have_shares:[S1]} to A, and A sends nothing to B.
    let a_id = pid(10);
    let b_id = pid(11);
    let s1 = sid(1);
    let mut a = Node { connected: Vec::new() };
    let mut b = Node { connected: Vec::new() };
    let a_tip: Option<ShareId> = None;
    let b_tip: Option<ShareId> = Some(s1.dup());

    let from_a = a.handle_swarm_event(NetEvent::ConnectionEstablished(b_id.dup()), a_tip);
    assert!(from_a.is_empty());

    let from_b = b.handle_swarm_event(NetEvent::ConnectionEstablished(a_id.dup()), b_tip);
    assert_eq!(from_b.len(), 1);
    match &from_b[0] {
        Action::SendRequest(target, Message::Inventory(inv)) => {
            assert_eq!(*target, a_id);
            assert_eq!(inv.have_shares.len(), 1);
            assert_eq!(inv.have_shares[0], s1);
        }
        other => panic!("expected a direct Inventory send, got {:?}", other),
    }
}

#[test]
fn gossip_succeeds_with_zero_subscribers() {
    let mut actor = fresh_actor();
    // No peer is connected, so nothing subscribes to the topic; the caller
    // is still told the gossip succeeded.
    let msg = Message::Inventory(InventoryMessage { have_shares: vec![sid(1)] });
    let out = actor.actor_step(Event::Cmd(gossip_command(&msg)));
    assert!(matches!(out.reply, Some(Reply::Sent)));
    assert_eq!(out.actions.len(), 1);
    assert!(matches!(&out.actions[0], Action::Publish(buf) if *buf == msg.encode()));
}

#[test]
fn get_peers_after_two_connections() {
    let mut actor = fresh_actor();
    connect(&mut actor, 1, None);
    connect(&mut actor, 2, None);
    let out = actor.actor_step(Event::Cmd(Command::GetPeers));
    match out.reply {
        Some(Reply::Peers(ps)) => {
            assert_eq!(ps.len(), 2);
            assert!(ps.contains(&pid(1)));
            assert!(ps.contains(&pid(2)));
        }
        other => panic!("expected a peer snapshot, got {:?}", other),
    }
}

#[test]
fn repeated_connection_listed_once() {
    let mut actor = fresh_actor();
    connect(&mut actor, 1, None);
    connect(&mut actor, 1, None);
    let out = actor.actor_step(Event::Cmd(Command::GetPeers));
    match out.reply {
        Some(Reply::Peers(ps)) => assert_eq!(ps.len(), 1),
        other => panic!("expected a peer snapshot, got {:?}", other),
    }
}

#[test]
fn connection_closed_purges_peer() {
    let mut node = Node { connected: Vec::new() };
    node.handle_swarm_event(NetEvent::ConnectionEstablished(pid(1)), None);
    node.handle_swarm_event(NetEvent::ConnectionEstablished(pid(2)), None);
    let acts = node.handle_swarm_event(NetEvent::ConnectionClosed(pid(1)), None);
    assert_eq!(acts.len(), 1);
    assert!(matches!(&acts[0], Action::RemovePeer(p) if *p == pid(1)));
    let left = node.connected_peers();
    assert_eq!(left.len(), 1);
    assert_eq!(left[0], pid(2));
}

#[test]
fn discovery_dials_only_unconnected_peers() {
    let mut node = Node { connected: Vec::new() };
    node.handle_swarm_event(NetEvent::ConnectionEstablished(pid(1)), None);
    let acts = node.handle_swarm_event(
        NetEvent::Discovered(vec![
            DiscoveredPeer { peer: pid(1), addr: String::from("/ip4/10.0.0.1/tcp/1") },
            DiscoveredPeer { peer: pid(2), addr: String::from("/ip4/10.0.0.2/tcp/2") },
        ]),
        None,
    );
    assert_eq!(acts.len(), 1);
    assert!(matches!(&acts[0], Action::DialPeer(p, a) if *p == pid(2) && a == "/ip4/10.0.0.2/tcp/2"));
}

#[test]
fn dial_outcome_decides_address_registration() {
    let registered = after_dial(true, pid(2), String::from("/ip4/10.0.0.2/tcp/2"));
    match registered {
        Some(Action::RegisterAddress(p, a)) => {
            assert_eq!(p, pid(2));
            assert_eq!(a, "/ip4/10.0.0.2/tcp/2");
        }
        other => panic!("expected an address registration, got {:?}", other),
    }
    assert!(after_dial(false, pid(2), String::from("/ip4/10.0.0.2/tcp/2")).is_none());
}

#[test]
fn identify_registers_every_advertised_address() {
    let mut node = Node { connected: Vec::new() };
    let acts = node.handle_swarm_event(
        NetEvent::IdentifyReceived(
            pid(6),
            vec![String::from("/ip4/1.1.1.1/tcp/4"), String::from("/ip4/2.2.2.2/tcp/4")],
        ),
        None,
    );
    assert_eq!(acts.len(), 2);
    assert!(matches!(&acts[0], Action::RegisterAddress(p, a) if *p == pid(6) && a == "/ip4/1.1.1.1/tcp/4"));
    assert!(matches!(&acts[1], Action::RegisterAddress(p, a) if *p == pid(6) && a == "/ip4/2.2.2.2/tcp/4"));
}

#[test]
fn observed_only_events_provoke_nothing() {
    let mut node = Node { connected: Vec::new() };
    assert!(node.handle_swarm_event(NetEvent::ListenStarted(String::from("/ip4/0.0.0.0/tcp/1")), None).is_empty());
    assert!(node.handle_swarm_event(NetEvent::IdentifyOther, None).is_empty());
    assert!(node.handle_swarm_event(NetEvent::Routing, None).is_empty());
    assert!(node.handle_swarm_event(NetEvent::GossipPayload(vec![9, 9]), None).is_empty());
    assert!(node.handle_swarm_event(NetEvent::DirectPayload, None).is_empty());
    assert!(node.handle_swarm_event(NetEvent::Other, None).is_empty());
}

#[test]
fn encode_exact_wire_bytes() {
    let msg = Message::Inventory(InventoryMessage {
        have_shares: vec![ShareId::new(vec![0xaa, 0xbb])],
    });
    let bytes = msg.encode();
    let mut expected = vec![INVENTORY_TAG];
    expected.extend_from_slice(&1u64.to_le_bytes());
    expected.extend_from_slice(&2u64.to_le_bytes());
    expected.extend_from_slice(&[0xaa, 0xbb]);
    assert_eq!(bytes, expected);
}

#[test]
fn encode_empty_inventory() {
    let msg = Message::Inventory(InventoryMessage { have_shares: Vec::new() });
    let bytes = msg.encode();
    let mut expected = vec![INVENTORY_TAG];
    expected.extend_from_slice(&0u64.to_le_bytes());
    assert_eq!(bytes, expected);
}

#[test]
fn net_events_never_answer_commands() {
    let mut actor = fresh_actor();
    let out = actor.actor_step(Event::Net(NetEvent::Routing, None));
    assert!(out.reply.is_none());
    assert!(!out.terminated);
    assert_eq!(actor.phase, Phase::Running);
}
