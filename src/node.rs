use std::cmp::Ordering;
use vstd::prelude::*;

verus! {

/// Returned by [NodeState::suspect] when the state is not `Alive`.
#[derive(Debug, Clone, Copy, PartialEq, Eq, Structural)]
pub struct SuspectError;

/// Returned by [NodeState::kill] when the state is neither `Alive` nor `Suspect`.
#[derive(Debug, Clone, Copy, PartialEq, Eq, Structural)]
pub struct KillError;

/// Returned by [NodeState::leave] when the node has already left.
#[derive(Debug, Clone, Copy, PartialEq, Eq, Structural)]
pub struct LeaveError;

/// The state of a [Node].
///
/// `Alive`, `Suspect` and `Dead` carry the node's incarnation number, which
/// only the node itself increases (when it refutes a suspicion or changes its
/// metadata). `Left` marks a node that left the cluster of its own accord.
///
/// States are ordered by these rules, in order of priority:
/// 1. `Left` is greater than every other state.
/// 2. A higher incarnation number is greater.
/// 3. On equal incarnation numbers, `Dead > Suspect > Alive`.
#[derive(Debug, Clone, Copy, PartialEq, Eq, Structural)]
pub enum NodeState {
    Alive(u64),
    Suspect(u64),
    Dead(u64),
    Left,
}

/// The precedence of a state's tag on equal incarnation numbers.
pub open spec fn tag_rank(s: NodeState) -> int {
    match s {
        NodeState::Alive(_) => 0,
        NodeState::Suspect(_) => 1,
        NodeState::Dead(_) => 2,
        NodeState::Left => 3,
    }
}

/// The incarnation number of a state that is not `Left`.
pub open spec fn inc_of(s: NodeState) -> int {
    match s {
        NodeState::Alive(i) | NodeState::Suspect(i) | NodeState::Dead(i) => i as int,
        NodeState::Left => 0,
    }
}

/// How `a` compares with `b` under the order of states.
pub open spec fn state_cmp(a: NodeState, b: NodeState) -> Ordering {
    if a is Left && b is Left {
        Ordering::Equal
    } else if a is Left {
        Ordering::Greater
    } else if b is Left {
        Ordering::Less
    } else if inc_of(a) != inc_of(b) {
        if inc_of(a) > inc_of(b) {
            Ordering::Greater
        } else {
            Ordering::Less
        }
    } else if tag_rank(a) != tag_rank(b) {
        if tag_rank(a) > tag_rank(b) {
            Ordering::Greater
        } else {
            Ordering::Less
        }
    } else {
        Ordering::Equal
    }
}

/// `a` is strictly greater than `b`.
pub open spec fn state_gt(a: NodeState, b: NodeState) -> bool {
    state_cmp(a, b) == Ordering::Greater
}

/// The greater of two states.
pub open spec fn state_max(a: NodeState, b: NodeState) -> NodeState {
    if state_gt(b, a) {
        b
    } else {
        a
    }
}

impl NodeState {
    /// The incarnation number, if the state is not `Left`.
    pub open spec fn spec_incarnation(self) -> Option<u64> {
        match self {
            NodeState::Alive(i) | NodeState::Suspect(i) | NodeState::Dead(i) => Some(i),
            NodeState::Left => None,
        }
    }

    /// Returns the incarnation number, or `None` if the state is `Left`.
    pub fn incarnation(&self) -> (r: Option<u64>)
        ensures
            r == self.spec_incarnation(),
    {
        match *self {
            NodeState::Alive(i) | NodeState::Suspect(i) | NodeState::Dead(i) => Some(i),
            NodeState::Left => None,
        }
    }

    /// Compares two states under the order of states.
    pub fn cmp(&self, other: &NodeState) -> (r: Ordering)
        ensures
            r == state_cmp(*self, *other),
    {
        match (*self, *other) {
            (NodeState::Left, NodeState::Left) => Ordering::Equal,
            (NodeState::Left, _) => Ordering::Greater,
            (_, NodeState::Left) => Ordering::Less,
            _ => {
                let i = self.rank_pair();
                let j = other.rank_pair();
                if i.0 > j.0 {
                    Ordering::Greater
                } else if i.0 < j.0 {
                    Ordering::Less
                } else if i.1 > j.1 {
                    Ordering::Greater
                } else if i.1 < j.1 {
                    Ordering::Less
                } else {
                    Ordering::Equal
                }
            },
        }
    }

    /// The incarnation number and tag precedence of a state that is not `Left`.
    fn rank_pair(&self) -> (r: (u64, u8))
        requires
            !(*self is Left),
        ensures
            r.0 as int == inc_of(*self),
            r.1 as int == tag_rank(*self),
    {
        match *self {
            NodeState::Alive(i) => (i, 0),
            NodeState::Suspect(i) => (i, 1),
            NodeState::Dead(i) => (i, 2),
            NodeState::Left => (0, 3),
        }
    }

    /// Sets a `Dead` state to `Suspect`, keeping the incarnation number (used
    /// when a node believed dead answers). Returns whether the state changed.
    pub fn suspect_if_dead(&mut self) -> (r: bool)
        ensures
            r == (*old(self) is Dead),
            *final(self) == match *old(self) {
                NodeState::Dead(i) => NodeState::Suspect(i),
                s => s,
            },
    {
        if let NodeState::Dead(i) = *self {
            *self = NodeState::Suspect(i);
            true
        } else {
            false
        }
    }

    /// Sets an `Alive` state to `Suspect`, keeping the incarnation number;
    /// any other state is refused and kept.
    pub fn suspect(&mut self) -> (r: Result<(), SuspectError>)
        ensures
            r is Ok == (*old(self) is Alive),
            *final(self) == match *old(self) {
                NodeState::Alive(i) => NodeState::Suspect(i),
                s => s,
            },
    {
        if let NodeState::Alive(i) = *self {
            *self = NodeState::Suspect(i);
            Ok(())
        } else {
            Err(SuspectError)
        }
    }

    /// Sets an `Alive` or `Suspect` state to `Dead`, keeping the incarnation
    /// number; `Dead` and `Left` are refused and kept.
    pub fn kill(&mut self) -> (r: Result<(), KillError>)
        ensures
            r is Ok == (*old(self) is Alive || *old(self) is Suspect),
            *final(self) == match *old(self) {
                NodeState::Alive(i) | NodeState::Suspect(i) => NodeState::Dead(i),
                s => s,
            },
    {
        match *self {
            NodeState::Dead(_) | NodeState::Left => Err(KillError),
            NodeState::Alive(i) | NodeState::Suspect(i) => {
                *self = NodeState::Dead(i);
                Ok(())
            },
        }
    }

    /// Sets the state to `Left`; refused if it already is `Left`.
    pub fn leave(&mut self) -> (r: Result<(), LeaveError>)
        ensures
            r is Ok == !(*old(self) is Left),
            *final(self) == NodeState::Left,
    {
        if let NodeState::Left = *self {
            Err(LeaveError)
        } else {
            *self = NodeState::Left;
            Ok(())
        }
    }

    /// Sets the state to `Alive` with the next incarnation number; does
    /// nothing if `Left`.
    pub fn reincarnate(&mut self)
        requires
            old(self).spec_incarnation() != Some(u64::MAX),
        ensures
            *final(self) == match old(self).spec_incarnation() {
                Some(i) => NodeState::Alive((i + 1) as u64),
                None => NodeState::Left,
            },
    {
        if let Some(i) = self.incarnation() {
            *self = NodeState::Alive(i + 1);
        }
    }
}

impl PartialOrd for NodeState {
    fn partial_cmp(&self, other: &NodeState) -> (r: Option<Ordering>)
        ensures
            r == Some(state_cmp(*self, *other)),
    {
        Some(self.cmp(other))
    }
}

impl vstd::std_specs::cmp::PartialOrdSpecImpl for NodeState {
    open spec fn obeys_partial_cmp_spec() -> bool {
        true
    }

    open spec fn partial_cmp_spec(&self, other: &NodeState) -> Option<Ordering> {
        Some(state_cmp(*self, *other))
    }
}

/// The order of states is a total order: it is reflexive and equal only on
/// equal states, antisymmetric (`cmp(x, y)` is the reverse of `cmp(y, x)`),
/// and transitive.
pub proof fn lemma_state_order_total(x: NodeState, y: NodeState, z: NodeState)
    ensures
        state_cmp(x, x) == Ordering::Equal,
        (state_cmp(x, y) == Ordering::Equal) == (x == y),
        state_cmp(x, y) == Ordering::Greater <==> state_cmp(y, x) == Ordering::Less,
        state_cmp(x, y) == Ordering::Less <==> state_cmp(y, x) == Ordering::Greater,
        state_gt(x, y) && state_gt(y, z) ==> state_gt(x, z),
        state_cmp(x, y) != Ordering::Less && state_cmp(y, z) != Ordering::Less ==> state_cmp(
            x,
            z,
        ) != Ordering::Less,
{
}

/// The order of states follows the three rules: `Left` above all other
/// states, then the incarnation number, then `Dead > Suspect > Alive`.
pub proof fn lemma_state_order_rules(i: u64, j: u64)
    ensures
        state_gt(NodeState::Left, NodeState::Alive(i)),
        state_gt(NodeState::Left, NodeState::Suspect(i)),
        state_gt(NodeState::Left, NodeState::Dead(i)),
        i > j ==> state_gt(NodeState::Alive(i), NodeState::Dead(j)),
        i > j ==> state_gt(NodeState::Alive(i), NodeState::Suspect(j)),
        i > j ==> state_gt(NodeState::Suspect(i), NodeState::Dead(j)),
        i > j ==> state_gt(NodeState::Alive(i), NodeState::Alive(j)),
        state_gt(NodeState::Dead(i), NodeState::Suspect(i)),
        state_gt(NodeState::Suspect(i), NodeState::Alive(i)),
{
}

/// A node of the cluster.
#[derive(Debug, Clone)]
pub struct Node {
    /// The address of the node, as a numeric identifier.
    pub addr: u64,
    /// The current state of the node.
    pub state: NodeState,
    /// Optional metadata of the node.
    pub metadata: Option<Vec<u8>>,
}

} // verus!
