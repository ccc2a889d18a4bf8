use std::collections::{HashMap, HashSet};
use vstd::prelude::*;

use rand::rngs::{OsRng, SmallRng};
use rand::seq::SliceRandom;
use rand::SeedableRng;

use crate::node::{state_cmp, state_max, Node, NodeState};
use crate::set_facts::{
    lemma_drop_last_contains, lemma_filter_insert, lemma_filter_len_le, lemma_push_contains,
    lemma_seq_covers_set, lemma_take_push,
};

verus! {

broadcast use vstd::std_specs::hash::group_hash_axioms;

/// Declares rand's `SmallRng`, which the node set holds and hands to the
/// shuffle; its state is opaque here.
#[verifier::external_type_specification]
#[verifier::external_body]
pub struct ExSmallRng(SmallRng);

/// Relies on `rand::seq::SliceRandom::shuffle` for slices, which permutes
/// the elements in place by swaps: the same elements, each as often.
#[verifier::external_body]
fn shuffle_addrs(v: &mut Vec<u64>, rng: &mut SmallRng)
    ensures
        final(v)@.to_multiset() == old(v)@.to_multiset(),
{
    v.shuffle(rng);
}

/// Relies on `rand::SeedableRng::from_rng` for `SmallRng`, seeded from
/// `rand::rngs::OsRng`: `None` when the operating system supplies no entropy.
#[verifier::external_body]
fn rng_from_os() -> Option<SmallRng> {
    SmallRng::from_rng(OsRng).ok()
}

/// The outcome of [NodeSet::insert].
#[derive(Debug, Clone, Copy, PartialEq, Eq, Structural)]
pub enum InsertionResult {
    /// The stored state is greater: nothing changed.
    Unchanged,
    /// The stored state equals the proposed one: nothing changed.
    Equal,
    /// The proposed state was greater and replaced the stored node.
    Updated,
    /// The address was unknown and the node was added.
    Inserted,
}

/// The addresses of the nodes that have not left.
pub open spec fn active_addrs(m: Map<u64, Node>) -> Set<u64> {
    m.dom().filter(|a: u64| !(m[a].state is Left))
}

/// The number of nodes whose state has the given tag precedence
/// (`0` alive, `1` suspect, `2` dead, `3` left).
pub open spec fn count_tag(m: Map<u64, Node>, tag: int) -> nat {
    m.dom().filter(|a: u64| crate::node::tag_rank(m[a].state) == tag).len()
}

/// The nodes of the cluster by address, with a shuffled stack of addresses
/// from which each round of probes is drawn.
#[derive(Debug)]
pub struct NodeSet {
    map: HashMap<u64, Node>,
    stack: Vec<u64>,
    rng: SmallRng,
}

impl NodeSet {
    /// The nodes by address.
    pub closed spec fn nodes(&self) -> Map<u64, Node> {
        self.map@
    }

    /// The addresses left on the stack; the last is drawn first.
    pub closed spec fn stack(&self) -> Seq<u64> {
        self.stack@
    }

    /// Each node is stored under its own address.
    pub open spec fn wf(&self) -> bool {
        forall|a: u64| #[trigger] self.nodes().contains_key(a) ==> self.nodes()[a].addr == a
    }

    /// Creates an empty set that shuffles with `rng`.
    pub fn new(rng: SmallRng) -> (r: NodeSet)
        ensures
            r.wf(),
            r.nodes() == Map::<u64, Node>::empty(),
            r.stack() == Seq::<u64>::empty(),
    {
        NodeSet { map: HashMap::new(), stack: Vec::new(), rng }
    }

    /// Returns the number of nodes, whatever their state.
    pub fn len(&self) -> (r: usize)
        ensures
            r as nat == self.nodes().len(),
    {
        self.map.len()
    }

    /// Returns whether a node with address `addr` is stored.
    pub fn contains(&self, addr: &u64) -> (r: bool)
        ensures
            r == self.nodes().contains_key(*addr),
    {
        self.map.contains_key(addr)
    }

    /// Returns the node stored under `addr`.
    pub fn get(&self, addr: &u64) -> (r: Option<&Node>)
        ensures
            r is Some == self.nodes().contains_key(*addr),
            r is Some ==> *r->0 == self.nodes()[*addr],
    {
        self.map.get(addr)
    }

    /// Removes and returns the node stored under `addr`.
    pub fn remove(&mut self, addr: &u64) -> (r: Option<Node>)
        requires
            old(self).wf(),
        ensures
            final(self).wf(),
            final(self).nodes() == old(self).nodes().remove(*addr),
            final(self).stack() == old(self).stack(),
            r is Some == old(self).nodes().contains_key(*addr),
            r is Some ==> r->0 == old(self).nodes()[*addr],
    {
        self.map.remove(addr)
    }

    /// Replaces the state of the node stored under `addr`, keeping its
    /// address and metadata; returns whether such a node is stored.
    pub fn set_state(&mut self, addr: &u64, state: NodeState) -> (r: bool)
        requires
            old(self).wf(),
        ensures
            final(self).wf(),
            final(self).stack() == old(self).stack(),
            r == old(self).nodes().contains_key(*addr),
            r ==> final(self).nodes() == old(self).nodes().insert(
                *addr,
                Node { state, ..old(self).nodes()[*addr] },
            ),
            !r ==> final(self).nodes() == old(self).nodes(),
    {
        match self.map.remove(addr) {
            Some(mut node) => {
                node.state = state;
                self.map.insert(*addr, node);
                assert(self.nodes() =~= old(self).nodes().insert(
                    *addr,
                    Node { state, ..old(self).nodes()[*addr] },
                ));
                true
            },
            None => {
                assert(self.nodes() =~= old(self).nodes());
                false
            },
        }
    }

    /// Returns the map of nodes by address.
    pub fn get_map(&self) -> (r: &HashMap<u64, Node>)
        ensures
            r@ == self.nodes(),
    {
        &self.map
    }

    /// Merges `node` into the set: it is stored if its address is unknown
    /// or its state is greater than the stored one; otherwise the set is
    /// kept. The stored state is afterwards the greater of the two.
    pub fn insert(&mut self, node: Node) -> (r: InsertionResult)
        requires
            old(self).wf(),
        ensures
            final(self).wf(),
            final(self).stack() == old(self).stack(),
            !old(self).nodes().contains_key(node.addr) ==> r == InsertionResult::Inserted
                && final(self).nodes() == old(self).nodes().insert(node.addr, node),
            old(self).nodes().contains_key(node.addr) ==> ({
                let cur = old(self).nodes()[node.addr];
                match state_cmp(node.state, cur.state) {
                    std::cmp::Ordering::Less => r == InsertionResult::Unchanged
                        && final(self).nodes() == old(self).nodes(),
                    std::cmp::Ordering::Equal => r == InsertionResult::Equal
                        && final(self).nodes() == old(self).nodes(),
                    std::cmp::Ordering::Greater => r == InsertionResult::Updated
                        && final(self).nodes() == old(self).nodes().insert(node.addr, node),
                }
            }),
            final(self).nodes().contains_key(node.addr),
            final(self).nodes()[node.addr].state == if old(self).nodes().contains_key(node.addr) {
                state_max(old(self).nodes()[node.addr].state, node.state)
            } else {
                node.state
            },
    {
        let addr = node.addr;
        let ord = match self.map.get(&addr) {
            None => None,
            Some(current) => Some(node.state.cmp(&current.state)),
        };
        proof {
            if old(self).nodes().contains_key(addr) {
                crate::node::lemma_state_order_total(
                    node.state,
                    old(self).nodes()[addr].state,
                    node.state,
                );
            }
        }
        match ord {
            None => {
                self.map.insert(addr, node);
                InsertionResult::Inserted
            },
            Some(std::cmp::Ordering::Less) => InsertionResult::Unchanged,
            Some(std::cmp::Ordering::Equal) => InsertionResult::Equal,
            Some(std::cmp::Ordering::Greater) => {
                self.map.insert(addr, node);
                InsertionResult::Updated
            },
        }
    }

    /// Returns whether `addr` belongs to a stored node that has not left.
    fn is_active(&self, addr: &u64) -> (r: bool)
        ensures
            r == active_addrs(self.nodes()).contains(*addr),
    {
        match self.map.get(addr) {
            Some(n) => !matches!(n.state, NodeState::Left),
            None => false,
        }
    }

    /// Returns the numbers of alive, suspect, dead and left nodes.
    pub fn counts(&self) -> (r: (usize, usize, usize, usize))
        ensures
            r.0 as nat == count_tag(self.nodes(), 0),
            r.1 as nat == count_tag(self.nodes(), 1),
            r.2 as nat == count_tag(self.nodes(), 2),
            r.3 as nat == count_tag(self.nodes(), 3),
    {
        let ghost m = self.map@;
        assert(m.dom().finite());
        let ghost mut seen: Set<u64> = Set::empty();
        assert(seen.filter(|s: u64| crate::node::tag_rank(m[s].state) == 0) =~= Set::empty());
        assert(seen.filter(|s: u64| crate::node::tag_rank(m[s].state) == 1) =~= Set::empty());
        assert(seen.filter(|s: u64| crate::node::tag_rank(m[s].state) == 2) =~= Set::empty());
        assert(seen.filter(|s: u64| crate::node::tag_rank(m[s].state) == 3) =~= Set::empty());
        let total = self.map.len();
        let mut a: usize = 0;
        let mut s: usize = 0;
        let mut d: usize = 0;
        let mut l: usize = 0;
        for k in it: self.map.keys()
            invariant
                m == self.map@,
                m.dom().finite(),
                total as nat == m.dom().len(),
                it.seq().len() == m.dom().len(),
                it.seq().unref().no_duplicates(),
                seen == it.seq().unref().take(it.index() as int).to_set(),
                seen.finite(),
                seen.len() == it.index(),
                a as nat == seen.filter(|s: u64| crate::node::tag_rank(m[s].state) == 0).len(),
                s as nat == seen.filter(|s: u64| crate::node::tag_rank(m[s].state) == 1).len(),
                d as nat == seen.filter(|s: u64| crate::node::tag_rank(m[s].state) == 2).len(),
                l as nat == seen.filter(|s: u64| crate::node::tag_rank(m[s].state) == 3).len(),
                forall|j: int| 0 <= j < it.seq().len() ==> m.dom().contains(it.seq().unref()[j]),
                it.index() == it.seq().len() ==> seen == m.dom(),
        {
            let ghost x: u64 = *k;
            proof {
                lemma_take_push(it.seq().unref(), it.index() as int);
                lemma_filter_insert(seen, x, |s: u64| crate::node::tag_rank(m[s].state) == 0);
                lemma_filter_insert(seen, x, |s: u64| crate::node::tag_rank(m[s].state) == 1);
                lemma_filter_insert(seen, x, |s: u64| crate::node::tag_rank(m[s].state) == 2);
                lemma_filter_insert(seen, x, |s: u64| crate::node::tag_rank(m[s].state) == 3);
                lemma_filter_len_le(seen.insert(x), |s: u64| crate::node::tag_rank(m[s].state) == 0);
                lemma_filter_len_le(seen.insert(x), |s: u64| crate::node::tag_rank(m[s].state) == 1);
                lemma_filter_len_le(seen.insert(x), |s: u64| crate::node::tag_rank(m[s].state) == 2);
                lemma_filter_len_le(seen.insert(x), |s: u64| crate::node::tag_rank(m[s].state) == 3);
                seen = seen.insert(x);
            }
            assert(it.index() + 1 == it.seq().len() ==> seen == m.dom()) by {
                if it.index() + 1 == it.seq().len() {
                    assert(it.seq().unref().take(it.seq().len() as int) =~= it.seq().unref());
                    lemma_seq_covers_set(it.seq().unref(), m.dom());
                }
            }
            match self.map.get(k) {
                Some(n) => match n.state {
                    NodeState::Alive(_) => a = a + 1,
                    NodeState::Suspect(_) => s = s + 1,
                    NodeState::Dead(_) => d = d + 1,
                    NodeState::Left => l = l + 1,
                },
                None => {},
            }
        }
        (a, s, d, l)
    }

    /// Returns the number of addresses left on the stack.
    pub fn stack_len(&self) -> (r: usize)
        ensures
            r as nat == self.stack().len(),
    {
        self.stack.len()
    }

    /// Refills the stack with the addresses of the nodes that have not left,
    /// each once, in shuffled order.
    pub fn refill_stack(&mut self)
        ensures
            final(self).nodes() == old(self).nodes(),
            final(self).stack().no_duplicates(),
            forall|a: u64|
                #[trigger] final(self).stack().contains(a) == active_addrs(
                    old(self).nodes(),
                ).contains(a),
    {
        let ghost m = self.map@;
        assert(m.dom().finite());
        let ghost mut seen: Set<u64> = Set::empty();
        let mut stack: Vec<u64> = Vec::with_capacity(self.map.len());
        for k in it: self.map.keys()
            invariant
                m == self.map@,
                m.dom().finite(),
                it.seq().len() == m.dom().len(),
                it.seq().unref().no_duplicates(),
                seen == it.seq().unref().take(it.index() as int).to_set(),
                seen.finite(),
                stack@.no_duplicates(),
                forall|x: u64| #[trigger]
                    stack@.contains(x) == (seen.contains(x) && active_addrs(m).contains(x)),
                forall|j: int| 0 <= j < it.seq().len() ==> m.dom().contains(it.seq().unref()[j]),
                it.index() == it.seq().len() ==> seen == m.dom(),
        {
            let ghost x: u64 = *k;
            proof {
                lemma_take_push(it.seq().unref(), it.index() as int);
                seen = seen.insert(x);
            }
            assert(it.index() + 1 == it.seq().len() ==> seen == m.dom()) by {
                if it.index() + 1 == it.seq().len() {
                    assert(it.seq().unref().take(it.seq().len() as int) =~= it.seq().unref());
                    lemma_seq_covers_set(it.seq().unref(), m.dom());
                }
            }
            if self.is_active(k) {
                proof {
                    lemma_push_contains(stack@, x);
                }
                stack.push(*k);
            }
        }
        let ghost before = stack@;
        shuffle_addrs(&mut stack, &mut self.rng);
        proof {
            before.to_multiset_ensures();
            stack@.to_multiset_ensures();
            before.lemma_multiset_has_no_duplicates();
            stack@.lemma_multiset_has_no_duplicates_conv();
            assert(seen == m.dom());
            assert forall|a: u64| #[trigger] stack@.contains(a) == active_addrs(m).contains(a) by {
                assert(before.contains(a) == (before.to_multiset().count(a) > 0));
                assert(stack@.contains(a) == (stack@.to_multiset().count(a) > 0));
            }
        }
        self.stack = stack;
    }

    /// Draws the next address off the stack, refilling it first if it is
    /// empty. `None` if it is still empty after refilling: no stored node
    /// is active.
    pub fn pop(&mut self) -> (r: Option<u64>)
        ensures
            final(self).nodes() == old(self).nodes(),
            old(self).stack().len() > 0 ==> r == Some(old(self).stack().last())
                && final(self).stack() == old(self).stack().drop_last(),
            old(self).stack().len() == 0 ==> (r is None <==> active_addrs(
                old(self).nodes(),
            ).is_empty()),
            old(self).stack().len() == 0 && r is Some ==> active_addrs(old(self).nodes()).contains(
                r->0,
            ),
    {
        if let Some(addr) = self.stack.pop() {
            return Some(addr);
        }
        self.refill_stack();
        let ghost refilled = self.stack();
        proof {
            if refilled.len() > 0 {
                lemma_drop_last_contains(refilled);
            }
        }
        match self.stack.pop() {
            Some(addr) => {
                assert(active_addrs(old(self).nodes()).contains(addr));
                Some(addr)
            },
            None => {
                assert forall|a: u64| !active_addrs(old(self).nodes()).contains(a) by {
                    assert(!refilled.contains(a));
                }
                assert(active_addrs(old(self).nodes()) =~= Set::empty());
                None
            },
        }
    }

    /// Draws addresses until one of an active node outside `visited` comes
    /// up, refilling the stack at most once; `None` if every active node is
    /// in `visited`.
    fn next_unvisited(&mut self, visited: &HashSet<u64>) -> (r: Option<u64>)
        ensures
            final(self).nodes() == old(self).nodes(),
            r is Some ==> active_addrs(old(self).nodes()).contains(r->0) && !visited@.contains(
                r->0,
            ),
            r is None ==> active_addrs(old(self).nodes()).subset_of(visited@),
    {
        let mut refilled = false;
        loop
            invariant
                self.nodes() == old(self).nodes(),
                refilled ==> forall|a: u64| #[trigger]
                    active_addrs(self.nodes()).contains(a) ==> self.stack().contains(a)
                        || visited@.contains(a),
            decreases (if refilled {
                0int
            } else {
                1int
            }), self.stack().len(),
        {
            let ghost before = self.stack();
            match self.stack.pop() {
                Some(addr) => {
                    if self.is_active(&addr) && !visited.contains(&addr) {
                        return Some(addr);
                    }
                    proof {
                        lemma_drop_last_contains(before);
                    }
                },
                None => {
                    if refilled {
                        return None;
                    }
                    self.refill_stack();
                    refilled = true;
                },
            }
        }
    }

    /// Starts a round over the active nodes in shuffled order; `None` if no
    /// stored node is active.
    pub fn iter_unique_random_addrs(&mut self) -> (r: Option<Iter>)
        ensures
            final(self).nodes() == old(self).nodes(),
            r is None <==> active_addrs(old(self).nodes()).is_empty(),
            r is Some ==> r->0.wf() && r->0.yielded() == Set::<u64>::empty(),
    {
        let visited: HashSet<u64> = HashSet::new();
        match self.next_unvisited(&visited) {
            None => {
                assert(active_addrs(old(self).nodes()) =~= Set::empty());
                None
            },
            Some(addr) => {
                let mut visited = visited;
                visited.insert(addr);
                let it = Iter { visited, pending: Some(addr) };
                assert(it.yielded() =~= Set::<u64>::empty());
                Some(it)
            },
        }
    }
}

impl NodeSet {
    /// Draws up to `count` distinct addresses of active nodes in shuffled
    /// order (the targets of a gossip round); fewer only when there are
    /// fewer active nodes.
    pub fn random_addrs(&mut self, count: usize) -> (r: Vec<u64>)
        ensures
            final(self).nodes() == old(self).nodes(),
            r@.no_duplicates(),
            r@.len() <= count,
            forall|j: int| 0 <= j < r@.len() ==> active_addrs(old(self).nodes()).contains(#[trigger] r@[j]),
            r@.len() < count ==> forall|a: u64| #[trigger]
                active_addrs(old(self).nodes()).contains(a) ==> r@.contains(a),
    {
        let mut r: Vec<u64> = Vec::new();
        let mut it = match self.iter_unique_random_addrs() {
            Some(it) => it,
            None => return r,
        };
        let mut done = false;
        while !done && r.len() < count
            invariant
                self.nodes() == old(self).nodes(),
                it.wf(),
                r@.no_duplicates(),
                r@.len() <= count,
                forall|a: u64| #[trigger] r@.contains(a) == it.yielded().contains(a),
                forall|j: int| 0 <= j < r@.len() ==> active_addrs(old(self).nodes()).contains(#[trigger] r@[j]),
                done ==> forall|a: u64| #[trigger]
                    active_addrs(old(self).nodes()).contains(a) ==> r@.contains(a),
            decreases count - r@.len(), (if done {
                0int
            } else {
                1int
            }),
        {
            match it.next(self) {
                Some(a) => {
                    proof {
                        lemma_push_contains(r@, a);
                    }
                    r.push(a);
                    proof {
                        assert forall|j: int| 0 <= j < r@.len() implies active_addrs(old(self).nodes()).contains(#[trigger] r@[j]) by {
                            if j < r@.len() - 1 {
                                assert(r@[j] == r@.drop_last()[j]);
                            }
                        }
                    }
                },
                None => {
                    done = true;
                },
            }
        }
        r
    }
}

impl NodeSet {
    /// Creates an empty set that shuffles with a generator seeded from the
    /// operating system's entropy; `None` when no entropy is available.
    pub fn from_os_entropy() -> (r: Option<NodeSet>)
        ensures
            r is Some ==> r->0.wf() && r->0.nodes() == Map::<u64, Node>::empty(),
    {
        match rng_from_os() {
            Some(rng) => Some(NodeSet::new(rng)),
            None => None,
        }
    }
}

/// One round over the active nodes of a [NodeSet]: each active address comes
/// up exactly once, and an address whose node was removed or left in the
/// meantime does not come up.
#[derive(Debug)]
pub struct Iter {
    visited: HashSet<u64>,
    /// An address drawn when the round started and not yet handed out.
    pending: Option<u64>,
}

impl Iter {
    /// The addresses handed out so far in this round.
    pub closed spec fn yielded(&self) -> Set<u64> {
        match self.pending {
            Some(a) => self.visited@.remove(a),
            None => self.visited@,
        }
    }

    /// A pending address counts as drawn.
    pub closed spec fn wf(&self) -> bool {
        self.pending is Some ==> self.visited@.contains(self.pending->0)
    }

    /// Hands out the next address of the round, drawing from `src`: an active
    /// node of `src` that has not come up yet. `None` once every active node
    /// of `src` has come up.
    pub fn next(&mut self, src: &mut NodeSet) -> (r: Option<u64>)
        requires
            old(self).wf(),
        ensures
            final(self).wf(),
            final(src).nodes() == old(src).nodes(),
            round_step(active_addrs(old(src).nodes()), old(self).yielded(), r, final(self).yielded()),
            r is Some ==> active_addrs(old(src).nodes()).contains(r->0) && !old(
                self,
            ).yielded().contains(r->0) && final(self).yielded() == old(self).yielded().insert(
                r->0,
            ),
            r is None ==> active_addrs(old(src).nodes()).subset_of(old(self).yielded())
                && final(self).yielded() == old(self).yielded(),
    {
        if let Some(x) = self.pending {
            self.pending = None;
            if src.is_active(&x) {
                assert(self.yielded() =~= old(self).yielded().insert(x));
                return Some(x);
            }
            self.visited.remove(&x);
            assert(self.yielded() =~= old(self).yielded());
        }
        match src.next_unvisited(&self.visited) {
            Some(a) => {
                self.visited.insert(a);
                Some(a)
            },
            None => None,
        }
    }
}

/// One call of [Iter::next] on a round that has handed out `before`, over a
/// set whose active addresses are `active`: it hands out a new active address,
/// or `None` once every active address has come up.
pub open spec fn round_step(active: Set<u64>, before: Set<u64>, r: Option<u64>, after: Set<u64>) -> bool {
    match r {
        Some(a) => active.contains(a) && !before.contains(a) && after == before.insert(a),
        None => active.subset_of(before) && after == before,
    }
}

/// Over a node set that does not change, a round that starts with nothing
/// handed out gives at most as many addresses as there are active nodes
/// before its first `None`, so that `None` comes after finitely many calls.
pub proof fn lemma_round_is_finite(active: Set<u64>, handed: Seq<Set<u64>>, ys: Seq<u64>)
    requires
        active.finite(),
        handed.len() == ys.len() + 1,
        handed[0] == Set::<u64>::empty(),
        forall|i: int|
            0 <= i < ys.len() ==> round_step(active, #[trigger] handed[i], Some(ys[i]), handed[i + 1]),
    ensures
        ys.no_duplicates(),
        ys.to_set().subset_of(active),
        ys.len() <= active.len(),
{
    lemma_handed_is_prefix(active, handed, ys, ys.len() as int);
    ys.unique_seq_to_set();
    vstd::set_lib::lemma_len_subset(ys.to_set(), active);
}

/// Over a node set that does not change, the addresses a round hands out
/// before its first `None` are the active addresses, each exactly once.
pub proof fn lemma_round_yields_each_once(active: Set<u64>, handed: Seq<Set<u64>>, ys: Seq<u64>)
    requires
        active.finite(),
        handed.len() == ys.len() + 1,
        handed[0] == Set::<u64>::empty(),
        forall|i: int|
            0 <= i < ys.len() ==> round_step(active, #[trigger] handed[i], Some(ys[i]), handed[i + 1]),
        round_step(active, handed[ys.len() as int], None, handed[ys.len() as int]),
    ensures
        ys.no_duplicates(),
        ys.to_set() == active,
        ys.len() == active.len(),
{
    lemma_handed_is_prefix(active, handed, ys, ys.len() as int);
    assert(ys.take(ys.len() as int) =~= ys);
    assert(ys.to_set() =~= active);
    ys.unique_seq_to_set();
}

/// After `n` steps a round has handed out exactly the first `n` addresses,
/// all active and all distinct.
proof fn lemma_handed_is_prefix(active: Set<u64>, handed: Seq<Set<u64>>, ys: Seq<u64>, n: int)
    requires
        0 <= n <= ys.len(),
        handed.len() == ys.len() + 1,
        handed[0] == Set::<u64>::empty(),
        forall|i: int|
            0 <= i < ys.len() ==> round_step(active, #[trigger] handed[i], Some(ys[i]), handed[i + 1]),
    ensures
        handed[n] == ys.take(n).to_set(),
        ys.take(n).no_duplicates(),
        ys.take(n).to_set().subset_of(active),
        n == ys.len() ==> ys.no_duplicates() && ys.to_set().subset_of(active),
    decreases n,
{
    if n == 0 {
        assert(ys.take(0).to_set() =~= Set::<u64>::empty());
    } else {
        lemma_handed_is_prefix(active, handed, ys, n - 1);
        let p = ys.take(n - 1);
        assert(ys.take(n) =~= p.push(ys[n - 1]));
        assert(round_step(active, handed[n - 1], Some(ys[n - 1]), handed[n]));
        p.lemma_push_to_set_commute(ys[n - 1]);
        lemma_push_contains(p, ys[n - 1]);
        assert(!p.contains(ys[n - 1]));
    }
    if n == ys.len() {
        assert(ys.take(n) =~= ys);
    }
}

} // verus!
