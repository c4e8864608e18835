use vstd::prelude::*;
use crate::ids::{PeerId, ShareId};
use crate::message::{Message, MessageV};
use crate::node::{
    Action, ActionV, NetEvent, NetEventV, Node, NodeV, disconnect_all, dispatch_actions,
    dispatch_state,
};

verus! {

/// The error a command reply carries when a collaborator refused the work.
/// The underlying cause is logged by the embedder and never forwarded
/// verbatim to the caller.
#[derive(Debug, PartialEq, Eq, Structural, Clone, Copy)]
pub enum ActorError {
    AddShareFailed,
    StoreWorkbaseFailed,
}

/// A request dequeued from the command queue. Payloads are the plain values
/// the actor's decision reads. The chain and store collaborators are
/// consulted synchronously while the command is processed, so `AddShare` and
/// `StoreWorkbase` arrive here together with the collaborator's verdict; the
/// share and workbase themselves are opaque to the actor and stay with the
/// collaborator.
#[derive(Debug)]
pub enum Command {
    GetPeers,
    SendGossip(Vec<u8>),
    SendToPeer(PeerId, Message),
    AddShare { accepted: bool },
    StoreWorkbase { stored: bool },
    Shutdown,
}

/// The mathematical value of a command.
#[verifier::ext_equal]
pub enum CommandV {
    GetPeers,
    SendGossip(Seq<u8>),
    SendToPeer(Seq<u8>, MessageV),
    AddShare { accepted: bool },
    StoreWorkbase { stored: bool },
    Shutdown,
}

impl View for Command {
    type V = CommandV;

    open spec fn view(&self) -> CommandV {
        match self {
            Command::GetPeers => CommandV::GetPeers,
            Command::SendGossip(b) => CommandV::SendGossip(b@),
            Command::SendToPeer(p, m) => CommandV::SendToPeer(p@, m@),
            Command::AddShare { accepted } => CommandV::AddShare { accepted: *accepted },
            Command::StoreWorkbase { stored } => CommandV::StoreWorkbase { stored: *stored },
            Command::Shutdown => CommandV::Shutdown,
        }
    }
}

/// The reply the actor sends into a command's single-use reply slot: exactly
/// one per dequeued command.
#[derive(Debug)]
pub enum Reply {
    /// The snapshot answering `GetPeers`.
    Peers(Vec<PeerId>),
    /// The unconditional acknowledgement of `SendGossip` and `SendToPeer`.
    Sent,
    /// The acknowledgement of `Shutdown`.
    ShutdownDone,
    /// The outcome of `AddShare`, mirroring the chain collaborator.
    ShareResult(Result<(), ActorError>),
    /// The outcome of `StoreWorkbase`, mirroring the store collaborator.
    WorkbaseResult(Result<(), ActorError>),
}

/// The mathematical value of a reply.
#[verifier::ext_equal]
pub enum ReplyV {
    Peers(Seq<Seq<u8>>),
    Sent,
    ShutdownDone,
    ShareResult(Result<(), ActorError>),
    WorkbaseResult(Result<(), ActorError>),
}

impl View for Reply {
    type V = ReplyV;

    open spec fn view(&self) -> ReplyV {
        match self {
            Reply::Peers(ps) => ReplyV::Peers(ps.deep_view()),
            Reply::Sent => ReplyV::Sent,
            Reply::ShutdownDone => ReplyV::ShutdownDone,
            Reply::ShareResult(r) => ReplyV::ShareResult(*r),
            Reply::WorkbaseResult(r) => ReplyV::WorkbaseResult(*r),
        }
    }
}

impl DeepView for Reply {
    type V = ReplyV;

    open spec fn deep_view(&self) -> ReplyV {
        self.view()
    }
}

/// One ready item of the actor's select loop: a transport event (together
/// with the chain tip read at dispatch time), a dequeued command, or the
/// observation that the queue closed because every handle was dropped.
#[derive(Debug)]
pub enum Event {
    Net(NetEvent, Option<ShareId>),
    Cmd(Command),
    Closed,
}

/// The mathematical value of a loop item.
#[verifier::ext_equal]
pub enum EventV {
    Net(NetEventV, Option<Seq<u8>>),
    Cmd(CommandV),
    Closed,
}

impl View for Event {
    type V = EventV;

    open spec fn view(&self) -> EventV {
        match self {
            Event::Net(ne, tip) => EventV::Net(ne@, tip.deep_view()),
            Event::Cmd(c) => EventV::Cmd(c@),
            Event::Closed => EventV::Closed,
        }
    }
}

/// The actor's lifecycle phase. `Stopped` is terminal.
#[derive(Debug, PartialEq, Eq, Structural, Clone, Copy)]
pub enum Phase {
    Running,
    Stopped,
}

/// The actor's whole state: the node it owns exclusively, and its phase.
#[derive(Debug)]
pub struct ActorState {
    pub node: Node,
    pub phase: Phase,
}

/// The mathematical value of the actor's state.
#[verifier::ext_equal]
pub struct ActorStateV {
    pub node: NodeV,
    pub phase: Phase,
}

impl View for ActorState {
    type V = ActorStateV;

    open spec fn view(&self) -> ActorStateV {
        ActorStateV { node: self.node@, phase: self.phase }
    }
}

/// What one loop iteration produced: at most one reply (exactly one for a
/// command, none otherwise), the outbound intents to perform, and whether
/// this iteration stops the actor and fires the one-shot termination signal.
#[derive(Debug)]
pub struct StepOutput {
    pub reply: Option<Reply>,
    pub actions: Vec<Action>,
    pub terminated: bool,
}

/// The mathematical value of one iteration's outcome.
#[verifier::ext_equal]
pub struct StepOutputV {
    pub reply: Option<ReplyV>,
    pub actions: Seq<ActionV>,
    pub terminated: bool,
}

impl View for StepOutput {
    type V = StepOutputV;

    open spec fn view(&self) -> StepOutputV {
        StepOutputV {
            reply: self.reply.deep_view(),
            actions: self.actions.deep_view(),
            terminated: self.terminated,
        }
    }
}

/// The reply a command determines in a given state.
pub open spec fn cmd_reply(s: ActorStateV, c: CommandV) -> ReplyV {
    match c {
        CommandV::GetPeers => ReplyV::Peers(s.node.connected),
        CommandV::SendGossip(_) => ReplyV::Sent,
        CommandV::SendToPeer(_, _) => ReplyV::Sent,
        CommandV::AddShare { accepted } => ReplyV::ShareResult(
            if accepted {
                Ok(())
            } else {
                Err(ActorError::AddShareFailed)
            },
        ),
        CommandV::StoreWorkbase { stored } => ReplyV::WorkbaseResult(
            if stored {
                Ok(())
            } else {
                Err(ActorError::StoreWorkbaseFailed)
            },
        ),
        CommandV::Shutdown => ReplyV::ShutdownDone,
    }
}

/// The intents a command provokes in a given state.
pub open spec fn cmd_actions(s: ActorStateV, c: CommandV) -> Seq<ActionV> {
    match c {
        CommandV::SendGossip(buf) => seq![ActionV::Publish(buf)],
        CommandV::SendToPeer(p, m) => seq![ActionV::SendRequest(p, m)],
        CommandV::Shutdown => disconnect_all(s.node.connected),
        _ => Seq::empty(),
    }
}

/// The actor's transition function: what one ready item does to the state
/// and what the iteration produces. A stopped actor processes nothing.
pub open spec fn step_v(s: ActorStateV, e: EventV) -> (ActorStateV, StepOutputV) {
    if s.phase is Stopped {
        (s, StepOutputV { reply: None, actions: Seq::empty(), terminated: false })
    } else {
        match e {
            EventV::Net(ne, tip) => (
                ActorStateV { node: dispatch_state(s.node, ne), phase: Phase::Running },
                StepOutputV {
                    reply: None,
                    actions: dispatch_actions(s.node, ne, tip),
                    terminated: false,
                },
            ),
            EventV::Cmd(c) => (
                ActorStateV {
                    node: s.node,
                    phase: if c is Shutdown {
                        Phase::Stopped
                    } else {
                        Phase::Running
                    },
                },
                StepOutputV {
                    reply: Some(cmd_reply(s, c)),
                    actions: cmd_actions(s, c),
                    terminated: c is Shutdown,
                },
            ),
            EventV::Closed => (
                ActorStateV { node: s.node, phase: Phase::Stopped },
                StepOutputV { reply: None, actions: Seq::empty(), terminated: true },
            ),
        }
    }
}

impl ActorState {
    /// A freshly constructed actor: it owns the node and is running.
    pub fn new(node: Node) -> (r: ActorState)
        ensures
            r@.node == node@,
            r@.phase is Running,
    {
        ActorState { node, phase: Phase::Running }
    }

    /// Process one ready item, exactly as `step_v` says: the single place
    /// where the session state, the bookkeeping and the lifecycle change.
    pub fn actor_step(&mut self, event: Event) -> (out: StepOutput)
        requires
            old(self)@.node.wf(),
        ensures
            final(self)@.node.wf(),
            final(self)@ == step_v(old(self)@, event@).0,
            out@ == step_v(old(self)@, event@).1,
    {
        match self.phase {
            Phase::Stopped => {
                let out = StepOutput { reply: None, actions: Vec::new(), terminated: false };
                proof {
                    assert(out@ =~= step_v(old(self)@, event@).1);
                }
                out
            },
            Phase::Running => match event {
                Event::Net(ne, tip) => {
                    let ghost s0 = old(self)@;
                    let ghost ev = event@;
                    let acts = self.node.handle_swarm_event(ne, tip);
                    let out = StepOutput { reply: None, actions: acts, terminated: false };
                    proof {
                        assert(self@ =~= step_v(s0, ev).0);
                        assert(out@ =~= step_v(s0, ev).1);
                    }
                    out
                },
                Event::Cmd(cmd) => match cmd {
                    Command::GetPeers => {
                        let peers = self.node.connected_peers();
                        let out = StepOutput {
                            reply: Some(Reply::Peers(peers)),
                            actions: Vec::new(),
                            terminated: false,
                        };
                        proof {
                            assert(out@ =~= step_v(old(self)@, event@).1);
                        }
                        out
                    },
                    Command::SendGossip(buf) => {
                        let ghost s0 = old(self)@;
                        let ghost ev = event@;
                        let acts = self.node.send_gossip(buf);
                        let out = StepOutput {
                            reply: Some(Reply::Sent),
                            actions: acts,
                            terminated: false,
                        };
                        proof {
                            assert(self@ =~= step_v(s0, ev).0);
                            assert(out@ =~= step_v(s0, ev).1);
                        }
                        out
                    },
                    Command::SendToPeer(p, m) => {
                        let ghost s0 = old(self)@;
                        let ghost ev = event@;
                        let acts = self.node.send_to_peer(p, m);
                        let out = StepOutput {
                            reply: Some(Reply::Sent),
                            actions: acts,
                            terminated: false,
                        };
                        proof {
                            assert(self@ =~= step_v(s0, ev).0);
                            assert(out@ =~= step_v(s0, ev).1);
                        }
                        out
                    },
                    Command::AddShare { accepted } => {
                        let rep: Result<(), ActorError> = if accepted {
                            Ok(())
                        } else {
                            Err(ActorError::AddShareFailed)
                        };
                        let out = StepOutput {
                            reply: Some(Reply::ShareResult(rep)),
                            actions: Vec::new(),
                            terminated: false,
                        };
                        proof {
                            assert(out@ =~= step_v(old(self)@, event@).1);
                        }
                        out
                    },
                    Command::StoreWorkbase { stored } => {
                        let rep: Result<(), ActorError> = if stored {
                            Ok(())
                        } else {
                            Err(ActorError::StoreWorkbaseFailed)
                        };
                        let out = StepOutput {
                            reply: Some(Reply::WorkbaseResult(rep)),
                            actions: Vec::new(),
                            terminated: false,
                        };
                        proof {
                            assert(out@ =~= step_v(old(self)@, event@).1);
                        }
                        out
                    },
                    Command::Shutdown => {
                        let ghost s0 = old(self)@;
                        let ghost ev = event@;
                        let acts = self.node.shutdown();
                        self.phase = Phase::Stopped;
                        let out = StepOutput {
                            reply: Some(Reply::ShutdownDone),
                            actions: acts,
                            terminated: true,
                        };
                        proof {
                            assert(self@ =~= step_v(s0, ev).0);
                            assert(out@ =~= step_v(s0, ev).1);
                        }
                        out
                    },
                },
                Event::Closed => {
                    self.phase = Phase::Stopped;
                    let out = StepOutput { reply: None, actions: Vec::new(), terminated: true };
                    proof {
                        assert(self@ =~= step_v(old(self)@, event@).0);
                        assert(out@ =~= step_v(old(self)@, event@).1);
                    }
                    out
                },
            },
        }
    }
}

/// The state after processing a whole sequence of ready items in order.
pub open spec fn run_states(s: ActorStateV, evs: Seq<EventV>) -> ActorStateV
    decreases evs.len(),
{
    if evs.len() == 0 {
        s
    } else {
        step_v(run_states(s, evs.drop_last()), evs.last()).0
    }
}

/// What the i-th iteration of a run produces.
pub open spec fn step_out_at(s: ActorStateV, evs: Seq<EventV>, i: int) -> StepOutputV
    recommends
        0 <= i < evs.len(),
{
    step_v(run_states(s, evs.subrange(0, i)), evs[i]).1
}

/// How many iterations of a run fired the termination signal.
pub open spec fn terminations(s: ActorStateV, evs: Seq<EventV>) -> nat
    decreases evs.len(),
{
    if evs.len() == 0 {
        0
    } else {
        terminations(s, evs.drop_last()) + if step_v(
            run_states(s, evs.drop_last()),
            evs.last(),
        ).1.terminated {
            1nat
        } else {
            0nat
        }
    }
}

/// The two items that end the actor: an explicit shutdown command, or the
/// queue observed closed.
pub open spec fn is_terminal(e: EventV) -> bool {
    ||| e is Closed
    ||| e matches EventV::Cmd(c) && c is Shutdown
}

/// One step's effect on the phase: a stopped actor stays stopped and fires
/// nothing; a running actor stops, and fires the signal, exactly on a
/// terminal item.
pub proof fn lemma_step_phase(s: ActorStateV, e: EventV)
    ensures
        s.phase is Stopped ==> step_v(s, e).0 == s && !step_v(s, e).1.terminated,
        s.phase is Running ==> (step_v(s, e).0.phase is Stopped <==> is_terminal(e)),
        s.phase is Running ==> (step_v(s, e).1.terminated <==> is_terminal(e)),
{
}

/// A run that started running has fired the signal exactly once if it has
/// stopped, and never otherwise.
pub proof fn lemma_terminations_phase(s: ActorStateV, evs: Seq<EventV>)
    requires
        s.phase is Running,
    ensures
        terminations(s, evs) == if run_states(s, evs).phase is Stopped {
            1nat
        } else {
            0nat
        },
    decreases evs.len(),
{
    if evs.len() > 0 {
        lemma_terminations_phase(s, evs.drop_last());
        lemma_step_phase(run_states(s, evs.drop_last()), evs.last());
    }
}

/// A run has stopped exactly when it processed some terminal item.
pub proof fn lemma_stopped_iff_terminal(s: ActorStateV, evs: Seq<EventV>)
    requires
        s.phase is Running,
    ensures
        run_states(s, evs).phase is Stopped <==> exists|i: int|
            0 <= i < evs.len() && is_terminal(#[trigger] evs[i]),
    decreases evs.len(),
{
    if evs.len() > 0 {
        let dl = evs.drop_last();
        lemma_stopped_iff_terminal(s, dl);
        lemma_step_phase(run_states(s, dl), evs.last());
        if run_states(s, evs).phase is Stopped {
            if run_states(s, dl).phase is Stopped {
                let i = choose|i: int| 0 <= i < dl.len() && is_terminal(#[trigger] dl[i]);
                assert(is_terminal(evs[i]));
            } else {
                assert(is_terminal(evs[evs.len() - 1]));
            }
        } else {
            if exists|i: int| 0 <= i < evs.len() && is_terminal(#[trigger] evs[i]) {
                let i = choose|i: int| 0 <= i < evs.len() && is_terminal(#[trigger] evs[i]);
                if i < evs.len() - 1 {
                    assert(is_terminal(dl[i]));
                    assert(run_states(s, dl).phase is Stopped);
                }
                assert(false);
            }
        }
    }
}

/// Law: over any sequence of ready items, the one-shot termination signal
/// fires at most once, and exactly once as soon as a shutdown command or the
/// queue's closure has been processed.
pub proof fn lemma_termination_fires_exactly_once(s: ActorStateV, evs: Seq<EventV>)
    requires
        s.phase is Running,
    ensures
        terminations(s, evs) <= 1,
        (exists|i: int| 0 <= i < evs.len() && is_terminal(#[trigger] evs[i])) <==> terminations(
            s,
            evs,
        ) == 1,
{
    lemma_terminations_phase(s, evs);
    lemma_stopped_iff_terminal(s, evs);
}

/// Law: processing `Shutdown` disconnects every currently connected peer,
/// acknowledges the caller, stops the actor and fires the termination
/// signal.
pub proof fn lemma_shutdown_disconnects_all(s: ActorStateV)
    requires
        s.phase is Running,
    ensures
        step_v(s, EventV::Cmd(CommandV::Shutdown)).1.actions == disconnect_all(s.node.connected),
        forall|p: Seq<u8>|
            s.node.connected.contains(p) ==> step_v(
                s,
                EventV::Cmd(CommandV::Shutdown),
            ).1.actions.contains(ActionV::Disconnect(p)),
        step_v(s, EventV::Cmd(CommandV::Shutdown)).0.phase is Stopped,
        step_v(s, EventV::Cmd(CommandV::Shutdown)).1.terminated,
        step_v(s, EventV::Cmd(CommandV::Shutdown)).1.reply == Some(ReplyV::ShutdownDone),
{
    let acts = step_v(s, EventV::Cmd(CommandV::Shutdown)).1.actions;
    assert forall|p: Seq<u8>| s.node.connected.contains(p) implies acts.contains(
        ActionV::Disconnect(p),
    ) by {
        let i = choose|i: int| 0 <= i < s.node.connected.len() && s.node.connected[i] == p;
        assert(acts[i] == ActionV::Disconnect(p));
    }
}

/// Law: when every handle is gone and the queue closes, the actor stops and
/// fires the termination signal without attempting any peer disconnection.
pub proof fn lemma_queue_close_terminates(s: ActorStateV)
    requires
        s.phase is Running,
    ensures
        step_v(s, EventV::Closed).0.phase is Stopped,
        step_v(s, EventV::Closed).0.node == s.node,
        step_v(s, EventV::Closed).1.terminated,
        step_v(s, EventV::Closed).1.actions.len() == 0,
        step_v(s, EventV::Closed).1.reply is None,
{
}

/// Law: the `AddShare` and `StoreWorkbase` replies mirror the collaborator's
/// verdict exactly: success for success, and the generic wrapped error for
/// failure; the session state is untouched either way.
pub proof fn lemma_store_replies_mirror_collaborator(s: ActorStateV, accepted: bool, stored: bool)
    requires
        s.phase is Running,
    ensures
        step_v(s, EventV::Cmd(CommandV::AddShare { accepted })).1.reply == Some(
            ReplyV::ShareResult(
                if accepted {
                    Ok::<(), ActorError>(())
                } else {
                    Err(ActorError::AddShareFailed)
                },
            ),
        ),
        step_v(s, EventV::Cmd(CommandV::StoreWorkbase { stored })).1.reply == Some(
            ReplyV::WorkbaseResult(
                if stored {
                    Ok::<(), ActorError>(())
                } else {
                    Err(ActorError::StoreWorkbaseFailed)
                },
            ),
        ),
        step_v(s, EventV::Cmd(CommandV::AddShare { accepted })).0.node == s.node,
        step_v(s, EventV::Cmd(CommandV::StoreWorkbase { stored })).0.node == s.node,
        step_v(s, EventV::Cmd(CommandV::AddShare { accepted })).1.actions.len() == 0,
        step_v(s, EventV::Cmd(CommandV::StoreWorkbase { stored })).1.actions.len() == 0,
{
}

/// Law: publishing gossip is acknowledged as success unconditionally: the
/// reply does not depend on the number of subscribers nor on what the
/// transport later makes of the publish intent.
pub proof fn lemma_gossip_always_succeeds(s: ActorStateV, buf: Seq<u8>)
    requires
        s.phase is Running,
    ensures
        step_v(s, EventV::Cmd(CommandV::SendGossip(buf))).1.reply == Some(ReplyV::Sent),
        step_v(s, EventV::Cmd(CommandV::SendGossip(buf))).1.actions == seq![ActionV::Publish(buf)],
        step_v(s, EventV::Cmd(CommandV::SendGossip(buf))).0.node == s.node,
        step_v(s, EventV::Cmd(CommandV::SendGossip(buf))).0.phase is Running,
{
}

/// Law: only commands are answered. A transport event never produces a
/// reply and never stops the actor, so replies interleaved with any amount
/// of network traffic still line up one-to-one, in order, with the
/// commands.
pub proof fn lemma_net_events_answer_nobody(s: ActorStateV, ne: NetEventV, tip: Option<Seq<u8>>)
    ensures
        step_v(s, EventV::Net(ne, tip)).1.reply is None,
        !step_v(s, EventV::Net(ne, tip)).1.terminated,
        step_v(s, EventV::Net(ne, tip)).0.phase == s.phase,
{
}

/// The command that a handle's gossip request enqueues: the message is
/// serialized to its wire form before it crosses the thread boundary.
pub fn gossip_command(message: &Message) -> (c: Command)
    ensures
        c@ == CommandV::SendGossip(crate::codec::encode_msg(message@)),
{
    Command::SendGossip(message.encode())
}

/// The loop items for a sequence of commands, in submission order.
pub open spec fn cmd_events(cmds: Seq<CommandV>) -> Seq<EventV> {
    Seq::new(cmds.len(), |i: int| EventV::Cmd(cmds[i]))
}

/// No shutdown stands among the first `i` commands.
pub open spec fn no_shutdown_before(cmds: Seq<CommandV>, i: int) -> bool {
    forall|j: int| 0 <= j < i ==> !(#[trigger] cmds[j] is Shutdown)
}

/// Law: commands submitted through one handle are processed one per loop
/// iteration and answered in submission order: up to and including the first
/// shutdown, the i-th iteration's reply is exactly the one the i-th command
/// determines in the state the first i commands left behind.
pub proof fn lemma_replies_in_submission_order(s: ActorStateV, cmds: Seq<CommandV>)
    requires
        s.phase is Running,
    ensures
        forall|i: int|
            0 <= i < cmds.len() && no_shutdown_before(cmds, i) ==> step_out_at(
                s,
                cmd_events(cmds),
                i,
            ).reply == Some(cmd_reply(run_states(s, cmd_events(cmds).subrange(0, i)), cmds[i])),
{
    let evs = cmd_events(cmds);
    assert forall|i: int| 0 <= i < cmds.len() && no_shutdown_before(cmds, i) implies step_out_at(
        s,
        evs,
        i,
    ).reply == Some(cmd_reply(run_states(s, evs.subrange(0, i)), cmds[i])) by {
        let pre = evs.subrange(0, i);
        lemma_stopped_iff_terminal(s, pre);
        assert forall|j: int| 0 <= j < pre.len() implies !is_terminal(#[trigger] pre[j]) by {
            assert(pre[j] == EventV::Cmd(cmds[j]));
            assert(!(cmds[j] is Shutdown));
        }
        assert(run_states(s, pre).phase is Running);
        assert(evs[i] == EventV::Cmd(cmds[i]));
    }
}

} // verus!
