use vstd::prelude::*;

use crate::awareness::Awareness;
use crate::config::Cause;
use crate::node::{state_gt, Node, NodeState};
use crate::node_set::{active_addrs, InsertionResult, Iter, NodeSet};
use crate::ping::{PingTarget, spec_ack, spec_fail, spec_nack, spec_ping, spec_ping_request, FailResult, FailView, Ping, PingStore, PingView, StoreView};
use crate::suspicions::{spec_suspect, SuspicionResult, SuspicionView, Suspicions};
use crate::set_facts::lemma_push_contains;
use crate::timing::PingTimerKind;

verus! {

/// A pending kill: the node is declared dead when its suspicion timer runs
/// out while it is still suspect at this incarnation number.
#[derive(Debug, Clone, Copy, PartialEq, Eq, Structural)]
pub struct KillRequest {
    pub addr: u64,
    pub incarnation: u64,
}

/// A probe frame to another node.
#[derive(Debug, Clone, Copy, PartialEq, Eq, Structural)]
pub enum Message {
    Ping { sequence: u64 },
    Ack { sequence: u64 },
    PingRequest { sequence: u64, target: u64 },
    Nack { sequence: u64 },
}

/// An event for the host's observer.
#[derive(Debug, Clone, Copy, PartialEq, Eq, Structural)]
pub enum Event {
    /// The awareness score changed: the new score and the maximum.
    Awareness(u32, u32),
    /// The state of a node changed.
    Node(u64, NodeState, Cause),
    /// A probe was received from the node.
    ReceivedPing(u64),
    /// A node was probed.
    Ping(u64),
    /// A probe of a node was acknowledged.
    Ack(u64),
    /// A probe on behalf of another node was requested: target, requester.
    PingRequest(u64, u64),
    /// This node was suspected by the given node.
    Suspected(u64),
    /// This node was declared dead by the given node.
    DeclaredDead(u64),
    /// A helper sent a nack for an indirect probe: target, helper.
    Nack(u64, u64),
}

/// What the engine orders its host to do.
#[derive(Debug, Clone, Copy, PartialEq, Eq, Structural)]
pub enum Action {
    /// Send a frame to a node.
    Send(u64, Message),
    /// Disseminate a state update: the node, its state, and who asserts it.
    Broadcast(u64, NodeState, u64),
    /// Notify the observer.
    Notify(Event),
    /// Start (or restart) the timer of the probe under a sequence number.
    StartPingTimer(u64, PingTimerKind),
    /// Cancel the timer of the probe under a sequence number.
    StopPingTimer(u64),
    /// Start the kill timer of a suspicion.
    StartSuspicionTimer(KillRequest),
    /// Shorten the kill timer of a node for its number of suspectors.
    UpdateSuspectors(u64, usize),
    /// Cancel the kill timer of a node.
    StopSuspicionTimer(u64),
}

/// Whether `a` asks one of `peers`, other than the target, to probe the
/// target of `t` under its sequence number.
pub open spec fn is_probe_request(a: Action, peers: Set<u64>, t: PingTarget) -> bool {
    &&& a is Send
    &&& peers.contains(a->Send_0)
    &&& a->Send_0 != t.addr
    &&& a->Send_1 == Message::PingRequest { sequence: t.sequence, target: t.addr }
}

/// The request to probe the target of `t` on this node's behalf, sent to `h`.
pub open spec fn request_to(h: u64, t: PingTarget) -> Action {
    Action::Send(h, Message::PingRequest { sequence: t.sequence, target: t.addr })
}

/// The requests of an indirect probe: up to `k` distinct peers that have not
/// left, other than the target, each asked once; fewer only when there are
/// no more such peers.
pub open spec fn indirect_requests(q: Seq<Action>, peers: Set<u64>, t: PingTarget, k: nat) -> bool {
    &&& forall|j: int| 0 <= j < q.len() ==> is_probe_request(#[trigger] q[j], peers, t)
    &&& q.no_duplicates()
    &&& q.len() <= k
    &&& q.len() < k ==> forall|h: u64| #[trigger]
        peers.contains(h) && h != t.addr ==> q.contains(request_to(h, t))
}

/// Whether an update about this node at `local` must be refuted: it
/// suspects or declares dead a state that it supersedes.
pub open spec fn refutes(proposed: NodeState, local: NodeState) -> bool {
    (proposed is Suspect || proposed is Dead) && state_gt(proposed, local)
}

/// The timer action that a suspicion result calls for.
pub open spec fn suspicion_actions(res: Option<SuspicionResult>, addr: u64, i: u64) -> Seq<Action> {
    match res {
        Some(SuspicionResult::New) | Some(SuspicionResult::Reset) => seq![
            Action::StartSuspicionTimer(KillRequest { addr, incarnation: i }),
        ],
        Some(SuspicionResult::Update(c)) => seq![Action::UpdateSuspectors(addr, c)],
        None => Seq::empty(),
    }
}

/// What merging `state` from `from` for another node `addr` does to the
/// suspicions, and the actions it returns. A greater (or first) state is
/// reported and disseminated; a suspect state, new or equal to the stored
/// one, is recorded with its suspector; a greater `Alive` or `Dead` state
/// ends the suspicion; a smaller state changes nothing.
pub open spec fn merge_effects(
    nodes: Map<u64, Node>,
    suspicions: Map<u64, SuspicionView>,
    addr: u64,
    state: NodeState,
    from: u64,
) -> (Map<u64, SuspicionView>, Seq<Action>) {
    let changed = !nodes.contains_key(addr) || state_gt(state, nodes[addr].state);
    let equal = nodes.contains_key(addr) && state == nodes[addr].state;
    let head = if changed {
        seq![
            Action::Notify(Event::Node(addr, state, Cause::Update)),
            Action::Broadcast(addr, state, from),
        ]
    } else {
        Seq::empty()
    };
    if !changed && !equal {
        (suspicions, Seq::empty())
    } else {
        match state {
            NodeState::Suspect(i) => {
                let (next, res) = spec_suspect(suspicions, addr, i, from);
                (next, head + suspicion_actions(res, addr, i))
            },
            NodeState::Alive(_) | NodeState::Dead(_) => if changed {
                (suspicions.remove(addr), head.push(Action::StopSuspicionTimer(addr)))
            } else {
                (suspicions, Seq::empty())
            },
            NodeState::Left => (suspicions, head),
        }
    }
}

/// What probing `a` does: a stored node that is alive or suspect and not
/// in flight gets a direct probe under the next sequence number, with its
/// timer and a report; anything else is left alone.
pub open spec fn spec_probe(nodes: Map<u64, Node>, pings: StoreView, a: u64) -> (StoreView, Seq<Action>) {
    if nodes.contains_key(a) && (nodes[a].state is Alive || nodes[a].state is Suspect)
        && !pings.in_flight.contains(a) {
        (
            spec_ping(pings, a).0,
            seq![
                Action::Send(a, Message::Ping { sequence: pings.next as u64 }),
                Action::StartPingTimer(pings.next as u64, PingTimerKind::Normal),
                Action::Notify(Event::Ping(a)),
            ],
        )
    } else {
        (pings, Seq::empty())
    }
}

/// The membership engine of one node: its own state, the other nodes, the
/// suspicions against them, the outstanding probes, and its awareness.
/// Every mutation of these tables goes through it, one event at a time.
pub struct Membership {
    local: u64,
    local_state: NodeState,
    nodes: NodeSet,
    suspicions: Suspicions,
    pings: PingStore,
    awareness: Awareness,
    round: Option<Iter>,
}

impl Membership {
    /// This node's address.
    pub closed spec fn local(&self) -> u64 {
        self.local
    }

    /// This node's own state.
    pub closed spec fn local_state(&self) -> NodeState {
        self.local_state
    }

    /// The other nodes, by address.
    pub closed spec fn nodes(&self) -> Map<u64, Node> {
        self.nodes.nodes()
    }

    /// The suspicions against other nodes.
    pub closed spec fn suspicions(&self) -> Map<u64, SuspicionView> {
        self.suspicions@
    }

    /// The outstanding probes.
    pub closed spec fn pings(&self) -> StoreView {
        self.pings@
    }

    /// The awareness score.
    pub closed spec fn score(&self) -> nat {
        self.awareness.spec_score()
    }

    /// The addresses handed out so far in the current probe round.
    pub closed spec fn round_handed(&self) -> Set<u64> {
        match self.round {
            Some(it) => it.yielded(),
            None => Set::empty(),
        }
    }

    /// The upper bound of the awareness score.
    pub closed spec fn max_score(&self) -> nat {
        self.awareness.spec_max()
    }

    /// The tables are well formed and this node is not among the others.
    pub closed spec fn wf(&self) -> bool {
        &&& self.nodes.wf()
        &&& self.suspicions.wf()
        &&& self.pings@.wf()
        &&& self.awareness.wf()
        &&& !self.nodes.nodes().contains_key(self.local)
        &&& self.round is Some ==> self.round->0.wf()
    }

    /// Creates the engine of node `local`, announced in `state`, with an
    /// awareness bound of `max_awareness` and a node set that shuffles with
    /// `nodes`'s generator.
    pub fn new(local: u64, state: NodeState, nodes: NodeSet, max_awareness: u32) -> (r: Membership)
        requires
            max_awareness >= 1,
            nodes.wf(),
            !nodes.nodes().contains_key(local),
        ensures
            r.wf(),
            r.local() == local,
            r.local_state() == state,
            r.nodes() == nodes.nodes(),
            r.suspicions() == Map::<u64, SuspicionView>::empty(),
            r.score() == 1,
    {
        Membership {
            local,
            local_state: state,
            nodes,
            suspicions: Suspicions::new(),
            pings: PingStore::new(),
            awareness: Awareness::new(max_awareness),
            round: None,
        }
    }

    /// Returns this node's address.
    pub fn local_addr(&self) -> (r: u64)
        ensures
            r == self.local(),
    {
        self.local
    }

    /// Returns this node's own state.
    pub fn state(&self) -> (r: NodeState)
        ensures
            r == self.local_state(),
    {
        self.local_state
    }

    /// Returns the other nodes.
    pub fn node_set(&self) -> (r: &NodeSet)
        ensures
            r.nodes() == self.nodes(),
    {
        &self.nodes
    }

    /// Returns the sequence number that the next probe will get.
    pub fn current_sequence(&self) -> (r: u64)
        ensures
            r as nat == self.pings().next,
    {
        self.pings.current_sequence()
    }

    /// Returns whether the probe under `sequence` is a direct one.
    pub fn is_direct_probe(&self, sequence: u64) -> (r: bool)
        ensures
            r == (self.pings().pings.contains_key(sequence) && self.pings().pings[sequence] is Direct),
    {
        self.pings.is_direct(&sequence)
    }

    /// Returns the current awareness score.
    pub fn awareness_score(&self) -> (r: u32)
        ensures
            r as nat == self.score(),
    {
        self.awareness.score()
    }

    /// A probe from `from` under `sequence`: acknowledge it and tell the
    /// observer.
    pub fn receive_ping(&mut self, from: u64, sequence: u64) -> (r: Vec<Action>)
        ensures
            *final(self) == *old(self),
            r@ == seq![
                Action::Send(from, Message::Ack { sequence }),
                Action::Notify(Event::ReceivedPing(from)),
            ],
    {
        let mut r: Vec<Action> = Vec::new();
        r.push(Action::Send(from, Message::Ack { sequence }));
        r.push(Action::Notify(Event::ReceivedPing(from)));
        r
    }

    /// An update from `from` proposing `state` for node `addr`.
    ///
    /// About this node: a suspicion or death claim that supersedes its state
    /// is refuted at once with a greater incarnation number, which raises the
    /// awareness score; any other claim about it is ignored. About another
    /// node: the proposal is merged into the node set; a change is reported
    /// and disseminated; a suspicion is recorded with its suspector, and an
    /// `Alive` or `Dead` state ends the node's suspicion.
    pub fn receive_update(
        &mut self,
        addr: u64,
        state: NodeState,
        metadata: Option<Vec<u8>>,
        from: u64,
    ) -> (r: Vec<Action>)
        requires
            old(self).wf(),
            addr == old(self).local() ==> state.spec_incarnation() != Some(u64::MAX),
        ensures
            final(self).wf(),
            final(self).local() == old(self).local(),
            final(self).pings() == old(self).pings(),
            addr == old(self).local() && refutes(state, old(self).local_state()) ==> {
                let i = (crate::node::inc_of(state) + 1) as u64;
                &&& final(self).local_state() == NodeState::Alive(i)
                &&& final(self).nodes() == old(self).nodes()
                &&& final(self).suspicions() == old(self).suspicions()
                &&& final(self).max_score() == old(self).max_score()
                &&& final(self).score() == crate::awareness::incremented(
                    old(self).score(),
                    old(self).max_score(),
                )
                &&& r@ == seq![
                    Action::Broadcast(addr, NodeState::Alive(i), addr),
                    Action::Notify(
                        if state is Suspect {
                            Event::Suspected(from)
                        } else {
                            Event::DeclaredDead(from)
                        },
                    ),
                ]
            },
            addr == old(self).local() && !refutes(state, old(self).local_state()) ==> {
                &&& *final(self) == *old(self)
                &&& r@.len() == 0
            },
            addr != old(self).local() ==> {
                &&& final(self).local_state() == old(self).local_state()
                &&& final(self).score() == old(self).score()
                &&& final(self).max_score() == old(self).max_score()
                &&& final(self).nodes().contains_key(addr)
                &&& final(self).nodes()[addr].state == if old(self).nodes().contains_key(addr) {
                    crate::node::state_max(old(self).nodes()[addr].state, state)
                } else {
                    state
                }
                &&& (final(self).suspicions(), r@) == merge_effects(
                    old(self).nodes(),
                    old(self).suspicions(),
                    addr,
                    state,
                    from,
                )
            },
    {
        let mut r: Vec<Action> = Vec::new();
        if addr == self.local {
            let refute = match state {
                NodeState::Suspect(_) | NodeState::Dead(_) => matches!(
                    state.cmp(&self.local_state),
                    std::cmp::Ordering::Greater
                ),
                _ => false,
            };
            if !refute {
                return r;
            }
            let i = match state {
                NodeState::Alive(i) | NodeState::Suspect(i) | NodeState::Dead(i) => i + 1,
                NodeState::Left => 0,
            };
            self.local_state = NodeState::Alive(i);
            self.awareness.increment();
            r.push(Action::Broadcast(addr, NodeState::Alive(i), addr));
            let event = match state {
                NodeState::Suspect(_) => Event::Suspected(from),
                _ => Event::DeclaredDead(from),
            };
            r.push(Action::Notify(event));
            return r;
        }
        let result = self.nodes.insert(Node { addr, state, metadata });
        match result {
            InsertionResult::Unchanged => {
                return r;
            },
            InsertionResult::Equal => {},
            InsertionResult::Inserted | InsertionResult::Updated => {
                r.push(Action::Notify(Event::Node(addr, state, Cause::Update)));
                r.push(Action::Broadcast(addr, state, from));
            },
        }
        match state {
            NodeState::Suspect(i) => {
                match self.suspicions.suspect(addr, i, from) {
                    Some(SuspicionResult::New) | Some(SuspicionResult::Reset) => {
                        r.push(
                            Action::StartSuspicionTimer(KillRequest { addr, incarnation: i }),
                        );
                    },
                    Some(SuspicionResult::Update(c)) => {
                        r.push(Action::UpdateSuspectors(addr, c));
                    },
                    None => {},
                }
            },
            NodeState::Alive(_) | NodeState::Dead(_) => {
                if let InsertionResult::Equal = result {
                    return r;
                }
                self.suspicions.remove(&addr);
                r.push(Action::StopSuspicionTimer(addr));
            },
            NodeState::Left => {},
        }
        r
    }

    /// An ack for the probe under `sequence`. For this node's own probe, the
    /// awareness score goes down, the timer stops, and a node believed dead
    /// becomes suspect again. For a probe made on behalf of another node,
    /// the ack is forwarded to that node.
    pub fn receive_ack(&mut self, sequence: u64) -> (r: Vec<Action>)
        requires
            old(self).wf(),
        ensures
            final(self).wf(),
            final(self).local() == old(self).local(),
            final(self).local_state() == old(self).local_state(),
            final(self).suspicions() == old(self).suspicions(),
            final(self).max_score() == old(self).max_score(),
            final(self).pings() == spec_ack(old(self).pings(), sequence).0,
            match spec_ack(old(self).pings(), sequence).1 {
                None => r@.len() == 0 && final(self).nodes() == old(self).nodes()
                    && final(self).score() == old(self).score(),
                Some(PingView::Request(source, _)) => r@ == seq![
                    Action::StopPingTimer(sequence),
                    Action::Send(source.addr, Message::Ack { sequence: source.sequence }),
                ] && final(self).nodes() == old(self).nodes()
                    && final(self).score() == old(self).score(),
                Some(PingView::Direct(a)) | Some(PingView::Indirect(a, _)) => {
                    let score = crate::awareness::decremented(old(self).score());
                    let dead = old(self).nodes().contains_key(a) && old(self).nodes()[a].state is Dead;
                    let i = old(self).nodes()[a].state->Dead_0;
                    let head = seq![
                        Action::StopPingTimer(sequence),
                        Action::Notify(Event::Ack(a)),
                        Action::Notify(Event::Awareness(score as u32, old(self).max_score() as u32)),
                    ];
                    &&& final(self).score() == score
                    &&& dead ==> final(self).nodes() == old(self).nodes().insert(
                        a,
                        Node { state: NodeState::Suspect(i), ..old(self).nodes()[a] },
                    ) && r@ == head.push(
                        Action::Notify(Event::Node(a, NodeState::Suspect(i), Cause::Update)),
                    )
                    &&& !dead ==> final(self).nodes() == old(self).nodes() && r@ == head
                },
            },
    {
        let mut r: Vec<Action> = Vec::new();
        match self.pings.ack(&sequence) {
            None => r,
            Some(Ping::Request(source, _)) => {
                r.push(Action::StopPingTimer(sequence));
                r.push(Action::Send(source.addr, Message::Ack { sequence: source.sequence }));
                r
            },
            Some(Ping::Direct(a)) | Some(Ping::Indirect(a, _)) => {
                let score = self.awareness.decrement();
                r.push(Action::StopPingTimer(sequence));
                r.push(Action::Notify(Event::Ack(a)));
                r.push(Action::Notify(Event::Awareness(score, self.awareness.max())));
                let dead = match self.nodes.get(&a) {
                    Some(n) => match n.state {
                        NodeState::Dead(i) => Some(i),
                        _ => None,
                    },
                    None => None,
                };
                if let Some(i) = dead {
                    self.nodes.set_state(&a, NodeState::Suspect(i));
                    r.push(Action::Notify(Event::Node(a, NodeState::Suspect(i), Cause::Update)));
                }
                r
            },
        }
    }

    /// A nack from helper `from` for the indirect probe under `sequence`.
    /// It is only reported: the originator counts nacks when the probe fails.
    pub fn receive_nack(&mut self, sequence: u64, from: u64) -> (r: Vec<Action>)
        requires
            old(self).wf(),
        ensures
            final(self).wf(),
            final(self).pings() == spec_nack(old(self).pings(), sequence, from).0,
            final(self).local() == old(self).local(),
            final(self).local_state() == old(self).local_state(),
            final(self).nodes() == old(self).nodes(),
            final(self).suspicions() == old(self).suspicions(),
            final(self).score() == old(self).score(),
            spec_nack(old(self).pings(), sequence, from).1 is Some ==> r@ == seq![
                Action::Notify(
                    Event::Nack(old(self).pings().pings[sequence]->Indirect_0, from),
                ),
            ],
            spec_nack(old(self).pings(), sequence, from).1 is None ==> r@.len() == 0,
    {
        let mut r: Vec<Action> = Vec::new();
        let target = self.pings.target(&sequence);
        if let Some(_) = self.pings.nack(sequence, from) {
            if let Some(t) = target {
                r.push(Action::Notify(Event::Nack(t, from)));
            }
        }
        r
    }

    /// A request from `source` to probe `target` on its behalf: probe it,
    /// under a nack timer.
    pub fn receive_ping_request(&mut self, source: crate::ping::RequestSource, target: u64) -> (r:
        Vec<Action>)
        requires
            old(self).wf(),
            old(self).pings().next < u64::MAX,
        ensures
            final(self).wf(),
            final(self).pings() == spec_ping_request(old(self).pings(), source, target).0,
            final(self).local() == old(self).local(),
            final(self).local_state() == old(self).local_state(),
            final(self).nodes() == old(self).nodes(),
            final(self).suspicions() == old(self).suspicions(),
            final(self).score() == old(self).score(),
            r@ == seq![
                Action::Send(target, Message::Ping { sequence: old(self).pings().next as u64 }),
                Action::StartPingTimer(old(self).pings().next as u64, PingTimerKind::Nack),
                Action::Notify(Event::PingRequest(target, source.addr)),
            ],
    {
        let t = self.pings.ping_request(source, target);
        let mut r: Vec<Action> = Vec::new();
        r.push(Action::Send(target, Message::Ping { sequence: t.sequence }));
        r.push(Action::StartPingTimer(t.sequence, PingTimerKind::Nack));
        r.push(Action::Notify(Event::PingRequest(target, source.addr)));
        r
    }

    /// The kill timer of a suspicion ran out: if the node is still suspect at
    /// that incarnation number, it is declared dead, its suspicion ends, and
    /// the death is disseminated; otherwise nothing happens.
    pub fn suspicion_timeout(&mut self, kill: KillRequest) -> (r: Vec<Action>)
        requires
            old(self).wf(),
        ensures
            final(self).wf(),
            final(self).local() == old(self).local(),
            final(self).local_state() == old(self).local_state(),
            final(self).pings() == old(self).pings(),
            final(self).score() == old(self).score(),
            ({
                let live = old(self).nodes().contains_key(kill.addr) && old(self).nodes()[kill.addr].state
                    == NodeState::Suspect(kill.incarnation);
                &&& live ==> final(self).nodes() == old(self).nodes().insert(
                    kill.addr,
                    Node { state: NodeState::Dead(kill.incarnation), ..old(self).nodes()[kill.addr] },
                ) && final(self).suspicions() == old(self).suspicions().remove(kill.addr) && r@
                    == seq![
                    Action::Broadcast(kill.addr, NodeState::Dead(kill.incarnation), old(self).local()),
                    Action::Notify(
                        Event::Node(kill.addr, NodeState::Dead(kill.incarnation), Cause::Death),
                    ),
                ]
                &&& !live ==> final(self).nodes() == old(self).nodes() && final(self).suspicions()
                    == old(self).suspicions() && r@.len() == 0
            }),
    {
        let mut r: Vec<Action> = Vec::new();
        let live = match self.nodes.get(&kill.addr) {
            Some(n) => n.state == NodeState::Suspect(kill.incarnation),
            None => false,
        };
        if !live {
            return r;
        }
        let dead = NodeState::Dead(kill.incarnation);
        self.nodes.set_state(&kill.addr, dead);
        self.suspicions.remove(&kill.addr);
        r.push(Action::Broadcast(kill.addr, dead, self.local));
        r.push(Action::Notify(Event::Node(kill.addr, dead, Cause::Death)));
        r
    }

    /// Asks up to `k` peers drawn at random, other than the target of `t`,
    /// to probe it.
    fn request_helpers(&mut self, t: PingTarget, k: usize) -> (r: Vec<Action>)
        requires
            old(self).wf(),
            k < usize::MAX,
        ensures
            final(self).wf(),
            final(self).local() == old(self).local(),
            final(self).local_state() == old(self).local_state(),
            final(self).nodes() == old(self).nodes(),
            final(self).suspicions() == old(self).suspicions(),
            final(self).pings() == old(self).pings(),
            final(self).score() == old(self).score(),
            final(self).max_score() == old(self).max_score(),
            final(self).round_handed() == old(self).round_handed(),
            indirect_requests(r@, active_addrs(old(self).nodes()), t, k as nat),
    {
        let ghost peers = active_addrs(old(self).nodes());
        let drawn = self.nodes.random_addrs(k + 1);
        let mut r: Vec<Action> = Vec::new();
        let ghost mut idx: Seq<int> = Seq::empty();
        let ghost mut tpos: int = -1;
        let mut j: usize = 0;
        while j < drawn.len()
            invariant
                self.nodes() == old(self).nodes(),
                drawn@.no_duplicates(),
                drawn@.len() <= k + 1,
                forall|m: int| 0 <= m < drawn@.len() ==> peers.contains(#[trigger] drawn@[m]),
                drawn@.len() < k + 1 ==> forall|a: u64| #[trigger]
                    peers.contains(a) ==> drawn@.contains(a),
                j <= drawn@.len(),
                r@.len() <= k,
                idx.len() == r@.len(),
                forall|i: int|
                    0 <= i < r@.len() ==> 0 <= #[trigger] idx[i] < j && drawn@[idx[i]] != t.addr
                        && r@[i] == request_to(drawn@[idx[i]], t),
                r@.no_duplicates(),
                -1 <= tpos < j,
                tpos == -1 ==> forall|m: int| 0 <= m < j ==> #[trigger] drawn@[m] != t.addr,
                tpos >= 0 ==> drawn@[tpos] == t.addr,
                r@.len() == k || r@.len() + (if tpos >= 0 {
                    1int
                } else {
                    0int
                }) >= j,
                r@.len() < k ==> forall|m: int|
                    0 <= m < j && drawn@[m] != t.addr ==> r@.contains(request_to(#[trigger] drawn@[m], t)),
            decreases drawn@.len() - j,
        {
            let h = drawn[j];
            if h == t.addr {
                proof {
                    if tpos >= 0 {
                        assert(drawn@[tpos] == drawn@[j as int]);
                    }
                    tpos = j as int;
                }
            } else if r.len() < k {
                let a = Action::Send(h, Message::PingRequest { sequence: t.sequence, target: t.addr });
                proof {
                    lemma_push_contains(r@, a);
                    if r@.contains(a) {
                        let i = choose|i: int| 0 <= i < r@.len() && r@[i] == a;
                        assert(drawn@[idx[i]] == h);
                    }
                    idx = idx.push(j as int);
                }
                r.push(a);
            }
            j = j + 1;
        }
        proof {
            assert forall|i: int| 0 <= i < r@.len() implies is_probe_request(#[trigger] r@[i], peers, t) by {
                assert(peers.contains(drawn@[idx[i]]));
            }
            if r@.len() < k {
                assert forall|h: u64| #[trigger] peers.contains(h) && h != t.addr implies r@.contains(
                    request_to(h, t),
                ) by {
                    assert(drawn@.contains(h));
                    let m = choose|m: int| 0 <= m < drawn@.len() && drawn@[m] == h;
                    assert(drawn@[m] == h);
                }
            }
        }
        r
    }

    /// The timer of the probe under `sequence` ran out.
    ///
    /// A failed direct probe turns into an indirect one: probe requests go
    /// to up to `indirect_checks` peers drawn at random, under the new
    /// sequence number. A
    /// failed indirect probe raises the awareness score (twice when no helper
    /// sent a nack, since then this node's own links are in doubt) and
    /// suspects the node if it is alive. A requested probe first sends the
    /// nack and starts the grace timer, then fails quietly.
    pub fn ping_timeout(&mut self, sequence: u64, indirect_checks: usize) -> (r: Vec<Action>)
        requires
            old(self).wf(),
            indirect_checks < usize::MAX,
            old(self).pings().next < u64::MAX || !(old(self).pings().pings.contains_key(sequence)
                && old(self).pings().pings[sequence] is Direct),
        ensures
            final(self).wf(),
            final(self).local() == old(self).local(),
            final(self).local_state() == old(self).local_state(),
            final(self).pings() == spec_fail(old(self).pings(), sequence).0,
            final(self).max_score() == old(self).max_score(),
            !(spec_fail(old(self).pings(), sequence).1 matches Some(FailView::NodeFailed(_, _)))
                ==> final(self).suspicions() == old(self).suspicions(),
            match spec_fail(old(self).pings(), sequence).1 {
                None => r@.len() == 0 && final(self).nodes() == old(self).nodes()
                    && final(self).score() == old(self).score(),
                Some(FailView::RequestFailed(_)) => r@.len() == 0 && final(self).nodes() == old(
                    self).nodes() && final(self).score() == old(self).score(),
                Some(FailView::SendNack(source)) => r@ == seq![
                    Action::Send(source.addr, Message::Nack { sequence: source.sequence }),
                    Action::StartPingTimer(sequence, PingTimerKind::Grace),
                ] && final(self).nodes() == old(self).nodes()
                    && final(self).score() == old(self).score(),
                Some(FailView::DoIndirect(t)) => {
                    &&& final(self).nodes() == old(self).nodes()
                    &&& final(self).score() == old(self).score()
                    &&& r@.len() >= 1
                    &&& r@.last() == Action::StartPingTimer(t.sequence, PingTimerKind::Normal)
                    &&& indirect_requests(
                        r@.drop_last(),
                        active_addrs(old(self).nodes()),
                        t,
                        indirect_checks as nat,
                    )
                },
                Some(FailView::NodeFailed(a, nacks)) => {
                    let once = crate::awareness::incremented(old(self).score(), old(self).max_score());
                    let score = if nacks.len() == 0 {
                        crate::awareness::incremented(once, old(self).max_score())
                    } else {
                        once
                    };
                    let alive = old(self).nodes().contains_key(a) && old(self).nodes()[a].state is Alive;
                    let i = old(self).nodes()[a].state->Alive_0;
                    let report = Action::Notify(
                        Event::Awareness(score as u32, old(self).max_score() as u32),
                    );
                    &&& final(self).score() == score
                    &&& alive ==> {
                        &&& final(self).nodes() == old(self).nodes().insert(
                            a,
                            Node { state: NodeState::Suspect(i), ..old(self).nodes()[a] },
                        )
                        &&& final(self).suspicions() == spec_suspect(
                            old(self).suspicions(),
                            a,
                            i,
                            old(self).local(),
                        ).0
                        &&& r@ == seq![
                            report,
                            Action::StartSuspicionTimer(KillRequest { addr: a, incarnation: i }),
                            Action::Broadcast(a, NodeState::Suspect(i), old(self).local()),
                            Action::Notify(Event::Node(a, NodeState::Suspect(i), Cause::Suspicion)),
                        ]
                    }
                    &&& !alive ==> final(self).nodes() == old(self).nodes() && final(self).suspicions()
                        == old(self).suspicions() && r@ == seq![report]
                },
            },
    {
        let mut r: Vec<Action> = Vec::new();
        match self.pings.fail(sequence) {
            None => r,
            Some(FailResult::RequestFailed(_)) => r,
            Some(FailResult::SendNack(source)) => {
                r.push(Action::Send(source.addr, Message::Nack { sequence: source.sequence }));
                r.push(Action::StartPingTimer(sequence, PingTimerKind::Grace));
                r
            },
            Some(FailResult::DoIndirect(t)) => {
                let mut r = self.request_helpers(t, indirect_checks);
                let ghost q = r@;
                r.push(Action::StartPingTimer(t.sequence, PingTimerKind::Normal));
                assert(r@.drop_last() =~= q);
                r
            },
            Some(FailResult::NodeFailed(a, nacks)) => {
                self.awareness.increment();
                if nacks.len() == 0 {
                    self.awareness.increment();
                }
                r.push(
                    Action::Notify(Event::Awareness(self.awareness.score(), self.awareness.max())),
                );
                let alive = match self.nodes.get(&a) {
                    Some(n) => match n.state {
                        NodeState::Alive(i) => Some(i),
                        _ => None,
                    },
                    None => None,
                };
                if let Some(i) = alive {
                    let suspect = NodeState::Suspect(i);
                    self.nodes.set_state(&a, suspect);
                    self.suspicions.suspect(a, i, self.local);
                    r.push(Action::StartSuspicionTimer(KillRequest { addr: a, incarnation: i }));
                    r.push(Action::Broadcast(a, suspect, self.local));
                    r.push(Action::Notify(Event::Node(a, suspect, Cause::Suspicion)));
                }
                r
            },
        }
    }

    /// Probes `addr` if it is a stored node that is alive or suspect and not
    /// probed already; otherwise does nothing.
    pub fn probe(&mut self, addr: u64) -> (r: Vec<Action>)
        requires
            old(self).wf(),
            old(self).pings().next < u64::MAX,
        ensures
            final(self).wf(),
            final(self).local() == old(self).local(),
            final(self).local_state() == old(self).local_state(),
            final(self).nodes() == old(self).nodes(),
            final(self).suspicions() == old(self).suspicions(),
            final(self).score() == old(self).score(),
            final(self).round_handed() == old(self).round_handed(),
            (final(self).pings(), r@) == spec_probe(old(self).nodes(), old(self).pings(), addr),
    {
        let mut r: Vec<Action> = Vec::new();
        let probe = match self.nodes.get(&addr) {
            Some(n) => match n.state {
                NodeState::Alive(_) | NodeState::Suspect(_) => true,
                _ => false,
            },
            None => false,
        };
        if !probe {
            return r;
        }
        match self.pings.ping(addr) {
            Ok(t) => {
                r.push(Action::Send(addr, Message::Ping { sequence: t.sequence }));
                r.push(Action::StartPingTimer(t.sequence, PingTimerKind::Normal));
                r.push(Action::Notify(Event::Ping(addr)));
                r
            },
            Err(_) => r,
        }
    }

    /// The probe interval ticked: draw the next address of the current round
    /// (starting a new round when it is over) and probe it.
    pub fn ping_interval(&mut self) -> (r: Vec<Action>)
        requires
            old(self).wf(),
            old(self).pings().next < u64::MAX,
        ensures
            final(self).wf(),
            final(self).local() == old(self).local(),
            final(self).local_state() == old(self).local_state(),
            final(self).nodes() == old(self).nodes(),
            final(self).suspicions() == old(self).suspicions(),
            final(self).score() == old(self).score(),
            active_addrs(old(self).nodes()).is_empty() ==> r@.len() == 0 && final(self).pings()
                == old(self).pings(),
            !active_addrs(old(self).nodes()).is_empty() ==> exists|a: u64|
                {
                    &&& #[trigger] active_addrs(old(self).nodes()).contains(a)
                    &&& (final(self).pings(), r@) == spec_probe(old(self).nodes(), old(self).pings(), a)
                    &&& ((!old(self).round_handed().contains(a) && final(self).round_handed()
                        == old(self).round_handed().insert(a)) || final(self).round_handed()
                        == set![a])
                },
            !active_addrs(old(self).nodes()).is_empty() && (forall|a: u64| #[trigger]
                active_addrs(old(self).nodes()).contains(a) ==> (old(self).nodes()[a].state is Alive
                    || old(self).nodes()[a].state is Suspect) && !old(self).pings().in_flight.contains(
                    a,
                )) ==> r@.len() == 3,
    {
        let round = self.round.take();
        let drawn = match round {
            Some(mut it) => {
                let n = it.next(&mut self.nodes);
                if n.is_some() {
                    self.round = Some(it);
                }
                n
            },
            None => None,
        };
        let addr = match drawn {
            Some(a) => a,
            None => match self.nodes.iter_unique_random_addrs() {
                Some(mut it) => {
                    let n = it.next(&mut self.nodes);
                    self.round = Some(it);
                    match n {
                        Some(a) => a,
                        None => {
                            assert(active_addrs(old(self).nodes()) =~= Set::<u64>::empty());
                            return Vec::new();
                        },
                    }
                },
                None => {
                    self.round = None;
                    return Vec::new();
                },
            },
        };
        assert(active_addrs(old(self).nodes()).contains(addr));
        self.probe(addr)
    }

    /// The gossip interval ticked: draws up to `count` distinct peers that
    /// have not left (the host picks `count` from its configured range).
    pub fn gossip_targets(&mut self, count: usize) -> (r: Vec<u64>)
        requires
            old(self).wf(),
        ensures
            final(self).wf(),
            final(self).local() == old(self).local(),
            final(self).local_state() == old(self).local_state(),
            final(self).nodes() == old(self).nodes(),
            final(self).suspicions() == old(self).suspicions(),
            final(self).pings() == old(self).pings(),
            final(self).score() == old(self).score(),
            r@.no_duplicates(),
            r@.len() <= count,
            forall|j: int|
                0 <= j < r@.len() ==> crate::node_set::active_addrs(old(self).nodes()).contains(
                    #[trigger] r@[j],
                ) && r@[j] != old(self).local(),
            r@.len() < count ==> forall|a: u64| #[trigger]
                crate::node_set::active_addrs(old(self).nodes()).contains(a) ==> r@.contains(a),
    {
        self.nodes.random_addrs(count)
    }
}

} // verus!
