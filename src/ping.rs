use std::collections::{HashMap, HashSet};
use vstd::prelude::*;

use crate::set_facts::{lemma_filter_insert, lemma_filter_len_le, lemma_seq_covers_set, lemma_take_push};

verus! {

broadcast use vstd::std_specs::hash::group_hash_axioms;

/// A probe to send: the sequence number it carries and the address it goes to.
#[derive(Debug, Clone, Copy, PartialEq, Eq, Structural)]
pub struct PingTarget {
    pub sequence: u64,
    pub addr: u64,
}

/// A probe sent on behalf of another node: the sequence number this node
/// uses for it and the address of the node to probe.
#[derive(Debug, Clone, Copy, PartialEq, Eq, Structural)]
pub struct PingRequestTarget {
    pub sequence: u64,
    pub addr: u64,
}

/// The node that asked for a probe, with the sequence number it used.
#[derive(Debug, Clone, Copy, PartialEq, Eq, Structural)]
pub struct RequestSource {
    pub sequence: u64,
    pub addr: u64,
}

/// Returned by [PingStore::ping] when the address is already being probed.
#[derive(Debug, Clone, Copy, PartialEq, Eq, Structural)]
pub struct NodeAlreadyPingedError(pub u64);

/// An outstanding probe.
#[derive(Debug)]
pub enum Ping {
    /// A direct probe of a node.
    Direct(u64),
    /// An indirect probe of a node, with the addresses of the helpers that
    /// sent a nack back.
    Indirect(u64, HashSet<u64>),
    /// A probe made for another node; the flag records whether a nack has
    /// been sent to it.
    Request(RequestSource, bool),
}

/// What [PingStore::fail] orders the caller to do.
#[derive(Debug)]
pub enum FailResult {
    /// The direct probe failed: probe the node indirectly, under the new
    /// sequence number.
    DoIndirect(PingTarget),
    /// The nack point of a requested probe passed: send a nack to the source.
    SendNack(RequestSource),
    /// The requested probe failed.
    RequestFailed(RequestSource),
    /// The indirect probe failed: the node should be suspected. Holds the
    /// addresses of the helpers that sent nacks.
    NodeFailed(u64, HashSet<u64>),
}

/// An outstanding probe, with its nack set as a mathematical set.
pub enum PingView {
    Direct(u64),
    Indirect(u64, Set<u64>),
    Request(RequestSource, bool),
}

/// A [FailResult], with its nack set as a mathematical set.
pub enum FailView {
    DoIndirect(PingTarget),
    SendNack(RequestSource),
    RequestFailed(RequestSource),
    NodeFailed(u64, Set<u64>),
}

impl Ping {
    /// The probe with its nack set as a mathematical set.
    pub open spec fn view(&self) -> PingView {
        match self {
            Ping::Direct(a) => PingView::Direct(*a),
            Ping::Indirect(a, n) => PingView::Indirect(*a, n@),
            Ping::Request(s, f) => PingView::Request(*s, *f),
        }
    }
}

impl FailResult {
    /// The result with its nack set as a mathematical set.
    pub open spec fn view(&self) -> FailView {
        match self {
            FailResult::DoIndirect(t) => FailView::DoIndirect(*t),
            FailResult::SendNack(s) => FailView::SendNack(*s),
            FailResult::RequestFailed(s) => FailView::RequestFailed(*s),
            FailResult::NodeFailed(a, n) => FailView::NodeFailed(*a, n@),
        }
    }
}

/// The address that a direct or indirect probe is about.
pub open spec fn probe_addr(p: PingView) -> Option<u64> {
    match p {
        PingView::Direct(a) | PingView::Indirect(a, _) => Some(a),
        PingView::Request(_, _) => None,
    }
}

/// The store as mathematical values: the next sequence number, the
/// outstanding probes by sequence number, and the addresses under a direct
/// or indirect probe.
pub struct StoreView {
    pub next: nat,
    pub pings: Map<u64, PingView>,
    pub in_flight: Set<u64>,
}

impl StoreView {
    /// Sequence numbers in use lie below the next one; the in-flight set is
    /// exactly the set of addresses under a direct or indirect probe, and each
    /// such address has one probe at a time.
    pub open spec fn wf(self) -> bool {
        &&& forall|s: u64| #[trigger] self.pings.contains_key(s) ==> s < self.next
        &&& forall|s: u64|
            #![trigger probe_addr(self.pings[s])]
            self.pings.contains_key(s) && probe_addr(self.pings[s]) is Some
                ==> self.in_flight.contains(probe_addr(self.pings[s])->0)
        &&& forall|a: u64| #[trigger]
            self.in_flight.contains(a) ==> exists|s: u64|
                #![trigger probe_addr(self.pings[s])]
                self.pings.contains_key(s) && probe_addr(self.pings[s]) == Some(a)
        &&& forall|s1: u64, s2: u64|
            #![trigger probe_addr(self.pings[s1]), probe_addr(self.pings[s2])]
            self.pings.contains_key(s1) && self.pings.contains_key(s2) && probe_addr(
                self.pings[s1],
            ) is Some && probe_addr(self.pings[s1]) == probe_addr(self.pings[s2]) ==> s1 == s2
        &&& forall|s: u64| #[trigger]
            self.pings.contains_key(s) && self.pings[s] is Indirect ==> self.pings[s]->Indirect_1.finite()
    }
}

/// `ping(addr)`: refused while `addr` is in flight; otherwise a direct probe
/// under the next sequence number.
pub open spec fn spec_ping(v: StoreView, addr: u64) -> (StoreView, Result<
    PingTarget,
    NodeAlreadyPingedError,
>) {
    if v.in_flight.contains(addr) {
        (v, Err(NodeAlreadyPingedError(addr)))
    } else {
        (
            StoreView {
                next: v.next + 1,
                pings: v.pings.insert(v.next as u64, PingView::Direct(addr)),
                in_flight: v.in_flight.insert(addr),
            },
            Ok(PingTarget { sequence: v.next as u64, addr }),
        )
    }
}

/// `ping_request(source, target)`: a requested probe under the next sequence
/// number; `target` does not enter the in-flight set.
pub open spec fn spec_ping_request(v: StoreView, source: RequestSource, target: u64) -> (
    StoreView,
    PingRequestTarget,
) {
    (
        StoreView {
            next: v.next + 1,
            pings: v.pings.insert(v.next as u64, PingView::Request(source, false)),
            in_flight: v.in_flight,
        },
        PingRequestTarget { sequence: v.next as u64, addr: target },
    )
}

/// `ack(sequence)`: removes and returns the probe; a direct or indirect one
/// also leaves the in-flight set.
pub open spec fn spec_ack(v: StoreView, sequence: u64) -> (StoreView, Option<PingView>) {
    if !v.pings.contains_key(sequence) {
        (v, None)
    } else {
        let p = v.pings[sequence];
        (
            StoreView {
                next: v.next,
                pings: v.pings.remove(sequence),
                in_flight: match probe_addr(p) {
                    Some(a) => v.in_flight.remove(a),
                    None => v.in_flight,
                },
            },
            Some(p),
        )
    }
}

/// `nack(sequence, from)`: on an indirect probe that `from` has not nacked
/// yet, records it and returns the number of nacks; otherwise nothing.
pub open spec fn spec_nack(v: StoreView, sequence: u64, from: u64) -> (StoreView, Option<nat>) {
    if v.pings.contains_key(sequence) && v.pings[sequence] is Indirect
        && !v.pings[sequence]->Indirect_1.contains(from) {
        let n = v.pings[sequence]->Indirect_1.insert(from);
        (
            StoreView {
                next: v.next,
                pings: v.pings.insert(
                    sequence,
                    PingView::Indirect(v.pings[sequence]->Indirect_0, n),
                ),
                in_flight: v.in_flight,
            },
            Some(n.len()),
        )
    } else {
        (v, None)
    }
}

/// `fail(sequence)`: the timeout transitions. A direct probe becomes an
/// indirect one under the next sequence number; a requested probe first
/// orders a nack, then fails; an indirect probe fails the node.
pub open spec fn spec_fail(v: StoreView, sequence: u64) -> (StoreView, Option<FailView>) {
    if !v.pings.contains_key(sequence) {
        (v, None)
    } else {
        match v.pings[sequence] {
            PingView::Request(source, true) => (
                StoreView { next: v.next, pings: v.pings.remove(sequence), in_flight: v.in_flight },
                Some(FailView::RequestFailed(source)),
            ),
            PingView::Request(source, false) => (
                StoreView {
                    next: v.next,
                    pings: v.pings.insert(sequence, PingView::Request(source, true)),
                    in_flight: v.in_flight,
                },
                Some(FailView::SendNack(source)),
            ),
            PingView::Direct(a) => (
                StoreView {
                    next: v.next + 1,
                    pings: v.pings.remove(sequence).insert(
                        v.next as u64,
                        PingView::Indirect(a, Set::empty()),
                    ),
                    in_flight: v.in_flight,
                },
                Some(FailView::DoIndirect(PingTarget { sequence: v.next as u64, addr: a })),
            ),
            PingView::Indirect(a, n) => (
                StoreView {
                    next: v.next,
                    pings: v.pings.remove(sequence),
                    in_flight: v.in_flight.remove(a),
                },
                Some(FailView::NodeFailed(a, n)),
            ),
        }
    }
}

/// The outstanding probes of a node, by sequence number.
#[derive(Debug)]
pub struct PingStore {
    sequence: u64,
    pings: HashMap<u64, Ping>,
    /// The addresses under a direct or indirect probe.
    current: HashSet<u64>,
}

impl PingStore {
    /// The store as mathematical values.
    pub closed spec fn view(&self) -> StoreView {
        StoreView {
            next: self.sequence as nat,
            pings: Map::new(
                |s: u64| self.pings@.contains_key(s),
                |s: u64| self.pings@[s].view(),
            ),
            in_flight: self.current@,
        }
    }

    /// Creates an empty store whose first sequence number is `0`.
    pub fn new() -> (r: PingStore)
        ensures
            r@.wf(),
            r@ == (StoreView { next: 0, pings: Map::empty(), in_flight: Set::empty() }),
    {
        let r = PingStore { sequence: 0, pings: HashMap::new(), current: HashSet::new() };
        assert(r@.pings =~= Map::empty());
        r
    }

    /// Returns the next sequence number and advances the counter.
    fn next_sequence(&mut self) -> (r: u64)
        requires
            old(self)@.next < u64::MAX,
        ensures
            r as nat == old(self)@.next,
            final(self)@ == (StoreView { next: old(self)@.next + 1, ..old(self)@ }),
    {
        let result = self.sequence;
        self.sequence = self.sequence + 1;
        assert(self@.pings =~= old(self)@.pings);
        result
    }

    /// Returns the sequence number that the next probe will get.
    pub fn current_sequence(&self) -> (r: u64)
        ensures
            r as nat == self@.next,
    {
        self.sequence
    }

    /// Returns the addresses under a direct or indirect probe.
    pub fn current_pings(&self) -> (r: &HashSet<u64>)
        ensures
            r@ == self@.in_flight,
    {
        &self.current
    }

    /// Starts a direct probe of `addr`, refused while `addr` is in flight.
    pub fn ping(&mut self, addr: u64) -> (r: Result<PingTarget, NodeAlreadyPingedError>)
        requires
            old(self)@.wf(),
            old(self)@.next < u64::MAX,
        ensures
            final(self)@.wf(),
            (final(self)@, r) == spec_ping(old(self)@, addr),
    {
        if !self.current.insert(addr) {
            assert(self@.pings =~= old(self)@.pings);
            assert(self@.in_flight =~= old(self)@.in_flight);
            return Err(NodeAlreadyPingedError(addr));
        }
        let sequence = self.next_sequence();
        self.pings.insert(sequence, Ping::Direct(addr));
        let ghost post = spec_ping(old(self)@, addr).0;
        assert(self@.pings =~= post.pings);
        assert(self@.in_flight =~= post.in_flight);
        proof {
            let v = self@;
            assert forall|a: u64| #[trigger] v.in_flight.contains(a) implies exists|s: u64|
                #![trigger probe_addr(v.pings[s])]
                v.pings.contains_key(s) && probe_addr(v.pings[s]) == Some(a) by {
                if a == addr {
                    assert(probe_addr(v.pings[sequence]) == Some(a));
                } else {
                    let s = choose|s: u64|
                        #![trigger probe_addr(old(self)@.pings[s])]
                        old(self)@.pings.contains_key(s) && probe_addr(old(self)@.pings[s])
                            == Some(a);
                    assert(probe_addr(v.pings[s]) == Some(a));
                }
            }
        }
        Ok(PingTarget { sequence, addr })
    }

    /// Records a probe of `target` made for `source`, under the next sequence
    /// number.
    pub fn ping_request(&mut self, source: RequestSource, target: u64) -> (r: PingRequestTarget)
        requires
            old(self)@.wf(),
            old(self)@.next < u64::MAX,
        ensures
            final(self)@.wf(),
            (final(self)@, r) == spec_ping_request(old(self)@, source, target),
    {
        let sequence = self.next_sequence();
        self.pings.insert(sequence, Ping::Request(source, false));
        let ghost post = spec_ping_request(old(self)@, source, target).0;
        assert(self@.pings =~= post.pings);
        proof {
            let v = self@;
            assert forall|a: u64| #[trigger] v.in_flight.contains(a) implies exists|s: u64|
                #![trigger probe_addr(v.pings[s])]
                v.pings.contains_key(s) && probe_addr(v.pings[s]) == Some(a) by {
                let s = choose|s: u64|
                    #![trigger probe_addr(old(self)@.pings[s])]
                    old(self)@.pings.contains_key(s) && probe_addr(old(self)@.pings[s]) == Some(a);
                assert(probe_addr(v.pings[s]) == Some(a));
            }
        }
        PingRequestTarget { sequence, addr: target }
    }

    /// Removes and returns the probe under `sequence`; `None` if it has been
    /// acked or has failed already.
    pub fn ack(&mut self, sequence: &u64) -> (r: Option<Ping>)
        requires
            old(self)@.wf(),
        ensures
            final(self)@.wf(),
            final(self)@ == spec_ack(old(self)@, *sequence).0,
            match r {
                Some(p) => spec_ack(old(self)@, *sequence).1 == Some(p@),
                None => spec_ack(old(self)@, *sequence).1 is None,
            },
    {
        let ping = self.pings.remove(sequence);
        match ping {
            None => {
                assert(self@.pings =~= old(self)@.pings);
                None
            },
            Some(ping) => {
                match &ping {
                    Ping::Direct(addr) | Ping::Indirect(addr, _) => {
                        self.current.remove(addr);
                    },
                    _ => {},
                }
                let ghost post = spec_ack(old(self)@, *sequence).0;
                assert(self@.pings =~= post.pings);
                assert(self@.in_flight =~= post.in_flight);
                proof {
                    let v = self@;
                    assert forall|a: u64| #[trigger] v.in_flight.contains(a) implies exists|s: u64|
                        #![trigger probe_addr(v.pings[s])]
                        v.pings.contains_key(s) && probe_addr(v.pings[s]) == Some(a) by {
                        let s = choose|s: u64|
                            #![trigger probe_addr(old(self)@.pings[s])]
                            old(self)@.pings.contains_key(s) && probe_addr(old(self)@.pings[s])
                                == Some(a);
                        assert(probe_addr(v.pings[s]) == Some(a));
                    }
                }
                Some(ping)
            },
        }
    }

    /// Records a nack from `from` for the indirect probe under `sequence`.
    /// Returns the number of distinct nacks if `from` had not nacked it yet;
    /// `None` if it had, or if there is no indirect probe under `sequence`.
    pub fn nack(&mut self, sequence: u64, from: u64) -> (r: Option<usize>)
        requires
            old(self)@.wf(),
        ensures
            final(self)@.wf(),
            final(self)@ == spec_nack(old(self)@, sequence, from).0,
            match r {
                Some(n) => spec_nack(old(self)@, sequence, from).1 == Some(n as nat),
                None => spec_nack(old(self)@, sequence, from).1 is None,
            },
    {
        match self.pings.remove(&sequence) {
            None => {
                assert(self@.pings =~= old(self)@.pings);
                None
            },
            Some(Ping::Indirect(addr, mut nacks)) => {
                if nacks.contains(&from) {
                    self.pings.insert(sequence, Ping::Indirect(addr, nacks));
                    assert(self@.pings =~= old(self)@.pings);
                    None
                } else {
                    nacks.insert(from);
                    let count = nacks.len();
                    self.pings.insert(sequence, Ping::Indirect(addr, nacks));
                    let ghost post = spec_nack(old(self)@, sequence, from).0;
                    assert(self@.pings =~= post.pings);
                    proof { self.lemma_in_flight_kept(old(self)@, sequence); }
                    Some(count)
                }
            },
            Some(ping) => {
                self.pings.insert(sequence, ping);
                assert(self@.pings =~= old(self)@.pings);
                None
            },
        }
    }

    /// After the probe under `s` was replaced by one about the same address,
    /// every in-flight address still has its probe.
    proof fn lemma_in_flight_kept(&self, before: StoreView, s: u64)
        requires
            before.wf(),
            before.pings.contains_key(s),
            self@.pings.dom() == before.pings.dom(),
            probe_addr(self@.pings[s]) == probe_addr(before.pings[s]),
            forall|t: u64| #[trigger]
                self@.pings.contains_key(t) && t != s ==> self@.pings[t] == before.pings[t],
            self@.in_flight == before.in_flight,
        ensures
            forall|a: u64| #[trigger]
                self@.in_flight.contains(a) ==> exists|t: u64|
                    #![trigger probe_addr(self@.pings[t])]
                    self@.pings.contains_key(t) && probe_addr(self@.pings[t]) == Some(a),
    {
        let v = self@;
        assert forall|a: u64| #[trigger] v.in_flight.contains(a) implies exists|t: u64|
            #![trigger probe_addr(v.pings[t])]
            v.pings.contains_key(t) && probe_addr(v.pings[t]) == Some(a) by {
            let t = choose|t: u64|
                #![trigger probe_addr(before.pings[t])]
                before.pings.contains_key(t) && probe_addr(before.pings[t]) == Some(a);
            assert(probe_addr(v.pings[t]) == Some(a));
        }
    }

    /// Returns the number of nacks of the indirect probe under `sequence`;
    /// `None` if there is no indirect probe under it.
    pub fn nack_count(&self, sequence: &u64) -> (r: Option<usize>)
        ensures
            match r {
                Some(n) => self@.pings.contains_key(*sequence) && self@.pings[*sequence] is Indirect
                    && n as nat == self@.pings[*sequence]->Indirect_1.len(),
                None => !(self@.pings.contains_key(*sequence) && self@.pings[*sequence] is Indirect),
            },
    {
        match self.pings.get(sequence) {
            Some(Ping::Indirect(_, nacks)) => Some(nacks.len()),
            _ => None,
        }
    }

    /// Returns whether the probe under `sequence` is a direct one, the only
    /// kind whose failure takes a new sequence number.
    pub fn is_direct(&self, sequence: &u64) -> (r: bool)
        ensures
            r == (self@.pings.contains_key(*sequence) && self@.pings[*sequence] is Direct),
    {
        match self.pings.get(sequence) {
            Some(Ping::Direct(_)) => true,
            _ => false,
        }
    }

    /// Returns the address that the direct or indirect probe under
    /// `sequence` is about; `None` for a requested probe or no probe.
    pub fn target(&self, sequence: &u64) -> (r: Option<u64>)
        ensures
            r == (if self@.pings.contains_key(*sequence) {
                probe_addr(self@.pings[*sequence])
            } else {
                None
            }),
    {
        match self.pings.get(sequence) {
            Some(Ping::Direct(a)) | Some(Ping::Indirect(a, _)) => Some(*a),
            _ => None,
        }
    }

    /// Drives the timeout of the probe under `sequence`; `None` if there is
    /// none.
    pub fn fail(&mut self, sequence: u64) -> (r: Option<FailResult>)
        requires
            old(self)@.wf(),
            old(self)@.next < u64::MAX || !(old(self)@.pings.contains_key(sequence)
                && old(self)@.pings[sequence] is Direct),
        ensures
            final(self)@.wf(),
            final(self)@ == spec_fail(old(self)@, sequence).0,
            match r {
                Some(f) => spec_fail(old(self)@, sequence).1 == Some(f@),
                None => spec_fail(old(self)@, sequence).1 is None,
            },
    {
        let ping = match self.pings.remove(&sequence) {
            Some(p) => p,
            None => {
                assert(self@.pings =~= old(self)@.pings);
                return None;
            },
        };
        let ghost post = spec_fail(old(self)@, sequence).0;
        match ping {
            Ping::Request(source, true) => {
                assert(self@.pings =~= post.pings);
                proof { self.lemma_in_flight_after_removal(old(self)@, sequence); }
                Some(FailResult::RequestFailed(source))
            },
            Ping::Request(source, false) => {
                self.pings.insert(sequence, Ping::Request(source, true));
                assert(self@.pings =~= post.pings);
                proof { self.lemma_in_flight_kept(old(self)@, sequence); }
                Some(FailResult::SendNack(source))
            },
            Ping::Direct(addr) => {
                assert(self@.pings =~= old(self)@.pings.remove(sequence));
                let next = self.next_sequence();
                assert(self@.pings =~= old(self)@.pings.remove(sequence));
                let nacks: HashSet<u64> = HashSet::new();
                assert(nacks@ =~= Set::<u64>::empty());
                self.pings.insert(next, Ping::Indirect(addr, nacks));
                assert(old(self)@.pings.contains_key(sequence));
                assert(next == old(self)@.next);
                assert(old(self)@.pings[sequence] == PingView::Direct(addr));
                assert(self@.pings =~= old(self)@.pings.remove(sequence).insert(next, PingView::Indirect(addr, Set::empty())));
                assert(self@.pings =~= post.pings);
                proof {
                    let v = self@;
                    let w = old(self)@;
                    assert forall|a: u64| #[trigger] v.in_flight.contains(a) implies exists|t: u64|
                        #![trigger probe_addr(v.pings[t])]
                        v.pings.contains_key(t) && probe_addr(v.pings[t]) == Some(a) by {
                        let t = choose|t: u64|
                            #![trigger probe_addr(w.pings[t])]
                            w.pings.contains_key(t) && probe_addr(w.pings[t]) == Some(a);
                        if t == sequence {
                            assert(probe_addr(v.pings[next]) == Some(a));
                        } else {
                            assert(probe_addr(v.pings[t]) == Some(a));
                        }
                    }
                    assert forall|s1: u64, s2: u64|
                        #![trigger probe_addr(v.pings[s1]), probe_addr(v.pings[s2])]
                        v.pings.contains_key(s1) && v.pings.contains_key(s2) && probe_addr(
                            v.pings[s1],
                        ) is Some && probe_addr(v.pings[s1]) == probe_addr(v.pings[s2])
                        implies s1 == s2 by {
                        if s1 == next && s2 != next {
                            assert(probe_addr(w.pings[s2]) == probe_addr(w.pings[sequence]));
                        } else if s2 == next && s1 != next {
                            assert(probe_addr(w.pings[s1]) == probe_addr(w.pings[sequence]));
                        }
                    }
                }
                Some(FailResult::DoIndirect(PingTarget { addr, sequence: next }))
            },
            Ping::Indirect(addr, nacks) => {
                self.current.remove(&addr);
                assert(self@.pings =~= post.pings);
                assert(self@.in_flight =~= post.in_flight);
                proof {
                    let v = self@;
                    let w = old(self)@;
                    assert forall|a: u64| #[trigger] v.in_flight.contains(a) implies exists|t: u64|
                        #![trigger probe_addr(v.pings[t])]
                        v.pings.contains_key(t) && probe_addr(v.pings[t]) == Some(a) by {
                        let t = choose|t: u64|
                            #![trigger probe_addr(w.pings[t])]
                            w.pings.contains_key(t) && probe_addr(w.pings[t]) == Some(a);
                        assert(probe_addr(v.pings[t]) == Some(a));
                    }
                }
                Some(FailResult::NodeFailed(addr, nacks))
            },
        }
    }

    /// After a requested probe under `s` was removed, every in-flight address
    /// still has its probe.
    proof fn lemma_in_flight_after_removal(&self, before: StoreView, s: u64)
        requires
            before.wf(),
            before.pings.contains_key(s),
            probe_addr(before.pings[s]) is None,
            self@.pings == before.pings.remove(s),
            self@.in_flight == before.in_flight,
        ensures
            forall|a: u64| #[trigger]
                self@.in_flight.contains(a) ==> exists|t: u64|
                    #![trigger probe_addr(self@.pings[t])]
                    self@.pings.contains_key(t) && probe_addr(self@.pings[t]) == Some(a),
    {
        let v = self@;
        assert forall|a: u64| #[trigger] v.in_flight.contains(a) implies exists|t: u64|
            #![trigger probe_addr(v.pings[t])]
            v.pings.contains_key(t) && probe_addr(v.pings[t]) == Some(a) by {
            let t = choose|t: u64|
                #![trigger probe_addr(before.pings[t])]
                before.pings.contains_key(t) && probe_addr(before.pings[t]) == Some(a);
            assert(probe_addr(v.pings[t]) == Some(a));
        }
    }

    /// Returns the numbers of outstanding direct, indirect and requested
    /// probes.
    pub fn pingcounts(&self) -> (r: (usize, usize, usize))
        ensures
            r.0 as nat == count_kind(self@.pings, 0),
            r.1 as nat == count_kind(self@.pings, 1),
            r.2 as nat == count_kind(self@.pings, 2),
    {
        let ghost m = self.pings@;
        assert(m.dom().finite());
        let ghost mut seen: Set<u64> = Set::empty();
        assert(seen.filter(|s: u64| ping_kind(m[s]@) == 0) =~= Set::empty());
        assert(seen.filter(|s: u64| ping_kind(m[s]@) == 1) =~= Set::empty());
        assert(seen.filter(|s: u64| ping_kind(m[s]@) == 2) =~= Set::empty());
        let total = self.pings.len();
        let mut d: usize = 0;
        let mut i: usize = 0;
        let mut q: usize = 0;
        for k in it: self.pings.keys()
            invariant
                m == self.pings@,
                m.dom().finite(),
                total as nat == m.dom().len(),
                it.seq().len() == m.dom().len(),
                it.seq().unref().no_duplicates(),
                seen == it.seq().unref().take(it.index() as int).to_set(),
                seen.finite(),
                seen.len() == it.index(),
                d as nat == seen.filter(|s: u64| ping_kind(m[s]@) == 0).len(),
                i as nat == seen.filter(|s: u64| ping_kind(m[s]@) == 1).len(),
                q as nat == seen.filter(|s: u64| ping_kind(m[s]@) == 2).len(),
                forall|j: int| 0 <= j < it.seq().len() ==> m.dom().contains(it.seq().unref()[j]),
                it.index() == it.seq().len() ==> seen == m.dom(),
        {
            let ghost x: u64 = *k;
            proof {
                lemma_take_push(it.seq().unref(), it.index() as int);
                lemma_filter_insert(seen, x, |s: u64| ping_kind(m[s]@) == 0);
                lemma_filter_insert(seen, x, |s: u64| ping_kind(m[s]@) == 1);
                lemma_filter_insert(seen, x, |s: u64| ping_kind(m[s]@) == 2);
                lemma_filter_len_le(seen.insert(x), |s: u64| ping_kind(m[s]@) == 0);
                lemma_filter_len_le(seen.insert(x), |s: u64| ping_kind(m[s]@) == 1);
                lemma_filter_len_le(seen.insert(x), |s: u64| ping_kind(m[s]@) == 2);
                seen = seen.insert(x);
            }
            assert(it.index() + 1 == it.seq().len() ==> seen == m.dom()) by {
                assert(m.dom().finite());
                if it.index() + 1 == it.seq().len() {
                    assert(it.seq().unref().take(it.seq().len() as int) =~= it.seq().unref());
                    lemma_seq_covers_set(it.seq().unref(), m.dom());
                }
            }
            match self.pings.get(k) {
                Some(Ping::Direct(_)) => d = d + 1,
                Some(Ping::Indirect(_, _)) => i = i + 1,
                Some(Ping::Request(_, _)) => q = q + 1,
                None => {},
            }
        }
        proof {
            let v = self@.pings;
            assert(v.dom() =~= m.dom());
            assert(v.dom().filter(|s: u64| ping_kind(v[s]) == 0) =~= m.dom().filter(
                |s: u64| ping_kind(m[s]@) == 0,
            ));
            assert(v.dom().filter(|s: u64| ping_kind(v[s]) == 1) =~= m.dom().filter(
                |s: u64| ping_kind(m[s]@) == 1,
            ));
            assert(v.dom().filter(|s: u64| ping_kind(v[s]) == 2) =~= m.dom().filter(
                |s: u64| ping_kind(m[s]@) == 2,
            ));
        }
        (d, i, q)
    }

    /// Drops every outstanding probe; the sequence counter is kept.
    pub fn clear(&mut self)
        ensures
            final(self)@.wf(),
            final(self)@ == (StoreView { next: old(self)@.next, pings: Map::empty(), in_flight: Set::empty() }),
    {
        self.pings.clear();
        self.current.clear();
        assert(self@.pings =~= Map::empty());
    }
}

/// The store after nacks from each of `from`, in order, for the probe under
/// `sequence`.
pub open spec fn after_nacks(v: StoreView, sequence: u64, from: Seq<u64>) -> StoreView
    decreases from.len(),
{
    if from.len() == 0 {
        v
    } else {
        after_nacks(spec_nack(v, sequence, from[0]).0, sequence, from.drop_first())
    }
}

/// Nacks for an indirect probe add their senders to its nack set and touch
/// nothing else.
pub proof fn lemma_after_nacks(v: StoreView, sequence: u64, from: Seq<u64>)
    requires
        v.pings.contains_key(sequence),
        v.pings[sequence] is Indirect,
    ensures
        after_nacks(v, sequence, from).next == v.next,
        after_nacks(v, sequence, from).in_flight == v.in_flight,
        after_nacks(v, sequence, from).pings == v.pings.insert(
            sequence,
            PingView::Indirect(
                v.pings[sequence]->Indirect_0,
                v.pings[sequence]->Indirect_1 + from.to_set(),
            ),
        ),
    decreases from.len(),
{
    let n = v.pings[sequence]->Indirect_1;
    let a = v.pings[sequence]->Indirect_0;
    if from.len() == 0 {
        assert(n + from.to_set() =~= n);
        assert(v.pings.insert(sequence, PingView::Indirect(a, n)) =~= v.pings);
    } else {
        let w = spec_nack(v, sequence, from[0]).0;
        lemma_after_nacks(w, sequence, from.drop_first());
        assert(w.pings[sequence]->Indirect_1 =~= n.insert(from[0]));
        assert(from.to_set() =~= from.drop_first().to_set().insert(from[0])) by {
            assert forall|x: u64| from.to_set().contains(x) implies from.drop_first().to_set().insert(
                from[0],
            ).contains(x) by {
                let j = choose|j: int| 0 <= j < from.len() && from[j] == x;
                if j > 0 {
                    assert(from.drop_first()[j - 1] == x);
                }
            }
            assert forall|x: u64| from.drop_first().to_set().insert(from[0]).contains(x) implies from.to_set().contains(
                x,
            ) by {
                if x != from[0] {
                    let j = choose|j: int| 0 <= j < from.len() - 1 && from.drop_first()[j] == x;
                    assert(from[j + 1] == x);
                } else {
                    assert(from[0] == x);
                }
            }
        }
        assert(n.insert(from[0]) + from.drop_first().to_set() =~= n + from.to_set());
        assert(w.pings.insert(
            sequence,
            PingView::Indirect(a, n.insert(from[0]) + from.drop_first().to_set()),
        ) =~= v.pings.insert(sequence, PingView::Indirect(a, n + from.to_set())));
    }
}

/// Each probe that the store starts takes the current next sequence number
/// and raises it by one, and no operation lowers it; since every sequence
/// number in use lies below it, each returned sequence number is greater than
/// all that were returned before.
pub proof fn lemma_sequences_increase(
    v: StoreView,
    addr: u64,
    source: RequestSource,
    target: u64,
    sequence: u64,
    from: u64,
)
    requires
        v.wf(),
        v.next < u64::MAX,
    ensures
        spec_ping(v, addr).1 is Ok ==> spec_ping(v, addr).1->Ok_0.sequence == v.next
            && spec_ping(v, addr).0.next == v.next + 1,
        spec_ping(v, addr).1 is Err ==> spec_ping(v, addr).0.next == v.next,
        spec_ping_request(v, source, target).1.sequence == v.next,
        spec_ping_request(v, source, target).0.next == v.next + 1,
        spec_fail(v, sequence).1 matches Some(FailView::DoIndirect(t)) ==> t.sequence == v.next
            && spec_fail(v, sequence).0.next == v.next + 1,
        !(spec_fail(v, sequence).1 matches Some(FailView::DoIndirect(_)))
            ==> spec_fail(v, sequence).0.next == v.next,
        spec_ack(v, sequence).0.next == v.next,
        spec_nack(v, sequence, from).0.next == v.next,
        forall|s: u64| #[trigger] v.pings.contains_key(s) ==> s < v.next,
{
}

/// A failed direct probe of `a` turns into an indirect probe of `a` under a
/// new, greater sequence number; when that one fails too, the node is
/// reported failed with exactly the helpers that sent nacks for it.
pub proof fn lemma_direct_indirect_failed(v: StoreView, a: u64, helpers: Seq<u64>)
    requires
        v.wf(),
        !v.in_flight.contains(a),
        v.next + 2 <= u64::MAX,
    ensures
        ({
            let (v1, r0) = spec_ping(v, a);
            let s0 = r0->Ok_0.sequence;
            let (v2, f1) = spec_fail(v1, s0);
            let s1 = (v.next + 1) as u64;
            let v3 = after_nacks(v2, s1, helpers);
            &&& r0 == Ok::<PingTarget, NodeAlreadyPingedError>(PingTarget { sequence: s0, addr: a })
            &&& s1 > s0
            &&& f1 == Some(FailView::DoIndirect(PingTarget { sequence: s1, addr: a }))
            &&& spec_fail(v3, s1).1 == Some(FailView::NodeFailed(a, helpers.to_set()))
        }),
{
    let (v1, r0) = spec_ping(v, a);
    let s0 = r0->Ok_0.sequence;
    let (v2, f1) = spec_fail(v1, s0);
    let s1 = (v.next + 1) as u64;
    assert(v1.pings[s0] == PingView::Direct(a));
    assert(v2.pings[s1] == PingView::Indirect(a, Set::empty()));
    lemma_after_nacks(v2, s1, helpers);
    assert(Set::<u64>::empty() + helpers.to_set() =~= helpers.to_set());
}

/// An indirect probe of `a` that fails after nacks from each of `from`
/// reports `a` as failed with exactly the senders of those nacks (added to
/// those it had), and leaves neither the probe nor `a` in flight.
pub proof fn lemma_indirect_failed(v: StoreView, sequence: u64, a: u64, from: Seq<u64>)
    requires
        v.pings.contains_key(sequence),
        v.pings[sequence] is Indirect,
        v.pings[sequence]->Indirect_0 == a,
    ensures
        ({
            let (w, f) = spec_fail(after_nacks(v, sequence, from), sequence);
            &&& f == Some(FailView::NodeFailed(a, v.pings[sequence]->Indirect_1 + from.to_set()))
            &&& !w.pings.contains_key(sequence)
            &&& !w.in_flight.contains(a)
            &&& w.next == v.next
        }),
{
    lemma_after_nacks(v, sequence, from);
}

/// A requested probe that times out first orders a nack to its source and
/// stays, marked as nacked, under the same sequence number; at its second
/// timeout it fails and is gone; after that there is nothing to fail. The
/// in-flight set and the next sequence number never change on the way.
pub proof fn lemma_request_nack_chain(v: StoreView, source: RequestSource, target: u64)
    requires
        v.next < u64::MAX,
    ensures
        ({
            let (v1, t) = spec_ping_request(v, source, target);
            let (v2, f1) = spec_fail(v1, t.sequence);
            let (v3, f2) = spec_fail(v2, t.sequence);
            &&& f1 == Some(FailView::SendNack(source))
            &&& v2.pings[t.sequence] == PingView::Request(source, true)
            &&& v2.in_flight == v1.in_flight && v2.next == v1.next
            &&& f2 == Some(FailView::RequestFailed(source))
            &&& !v3.pings.contains_key(t.sequence)
            &&& v3.in_flight == v1.in_flight && v3.next == v1.next
            &&& spec_fail(v3, t.sequence).1 is None
        }),
{
}

/// The kind of a probe: `0` direct, `1` indirect, `2` requested.
pub open spec fn ping_kind(p: PingView) -> nat {
    match p {
        PingView::Direct(_) => 0,
        PingView::Indirect(_, _) => 1,
        PingView::Request(_, _) => 2,
    }
}

/// The number of probes of one kind.
pub open spec fn count_kind(pings: Map<u64, PingView>, kind: nat) -> nat {
    pings.dom().filter(|s: u64| ping_kind(pings[s]) == kind).len()
}

} // verus!
