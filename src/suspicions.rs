use std::collections::{HashMap, HashSet};
use vstd::prelude::*;

verus! {

broadcast use vstd::std_specs::hash::group_hash_axioms;

/// The suspicion held against one node: the incarnation number it was
/// suspected at, and the distinct nodes that suspect it.
#[derive(Debug)]
pub struct Suspicion {
    pub incarnation: u64,
    pub suspectors: HashSet<u64>,
}

/// The outcome of [Suspicions::suspect].
#[derive(Debug, Clone, Copy, PartialEq, Eq, Structural)]
pub enum SuspicionResult {
    /// A new suspicion has been added.
    New,
    /// The suspicion was restarted because of a higher incarnation number.
    Reset,
    /// Another suspector was recorded. Holds the number of distinct suspectors.
    Update(usize),
}

impl SuspicionResult {
    /// The number of distinct suspectors after the call: `1` for `New` and
    /// `Reset`.
    pub open spec fn spec_suspicions(self) -> int {
        match self {
            SuspicionResult::New | SuspicionResult::Reset => 1,
            SuspicionResult::Update(u) => u as int,
        }
    }

    /// Returns the number of distinct suspectors after the call.
    pub fn suspicions(&self) -> (r: usize)
        ensures
            r as int == self.spec_suspicions(),
    {
        match *self {
            SuspicionResult::New | SuspicionResult::Reset => 1,
            SuspicionResult::Update(u) => u,
        }
    }
}

/// The table of suspicions, keyed by the address of the suspected node.
#[derive(Debug)]
pub struct Suspicions {
    suspicions: HashMap<u64, Suspicion>,
}

/// What the table records for one suspected node: its incarnation number
/// and the set of its suspectors.
pub type SuspicionView = (u64, Set<u64>);

/// `suspect(addr, incarnation, suspector)` on a table `m`: the new table
/// and the result.
pub open spec fn spec_suspect(
    m: Map<u64, SuspicionView>,
    addr: u64,
    incarnation: u64,
    suspector: u64,
) -> (Map<u64, SuspicionView>, Option<SuspicionResult>) {
    if !m.contains_key(addr) {
        (m.insert(addr, (incarnation, set![suspector])), Some(SuspicionResult::New))
    } else if incarnation < m[addr].0 {
        (m, None)
    } else if incarnation > m[addr].0 {
        (m.insert(addr, (incarnation, set![suspector])), Some(SuspicionResult::Reset))
    } else {
        let s = m[addr].1.insert(suspector);
        (m.insert(addr, (incarnation, s)), Some(SuspicionResult::Update(s.len() as usize)))
    }
}

impl Suspicions {
    /// The table as a map from address to incarnation and suspectors.
    pub closed spec fn view(&self) -> Map<u64, SuspicionView> {
        Map::new(
            |a: u64| self.suspicions@.contains_key(a),
            |a: u64| (self.suspicions@[a].incarnation, self.suspicions@[a].suspectors@),
        )
    }

    /// Every recorded suspicion has at least one suspector, and finitely many.
    pub open spec fn wf(&self) -> bool {
        forall|a: u64| #[trigger]
            self@.contains_key(a) ==> self@[a].1.finite() && self@[a].1.len() > 0
    }

    /// Creates an empty table.
    pub fn new() -> (r: Suspicions)
        ensures
            r.wf(),
            r@ == Map::<u64, SuspicionView>::empty(),
    {
        let r = Suspicions { suspicions: HashMap::new() };
        assert(r@ =~= Map::<u64, SuspicionView>::empty());
        r
    }

    /// Records that `suspector` suspects `addr` at `incarnation`.
    ///
    /// With no suspicion on `addr`, one is created (`New`). A lower
    /// incarnation than the stored one is stale: `None`, and the table is
    /// kept. A higher one restarts the suspicion with `suspector` alone
    /// (`Reset`). An equal one adds `suspector` to the set and returns the
    /// number of distinct suspectors (`Update`).
    pub fn suspect(&mut self, addr: u64, incarnation: u64, suspector: u64) -> (r: Option<
        SuspicionResult,
    >)
        requires
            old(self).wf(),
        ensures
            final(self).wf(),
            (final(self)@, r) == spec_suspect(old(self)@, addr, incarnation, suspector),
            !old(self)@.contains_key(addr) ==> r == Some(SuspicionResult::New) && final(self)@
                == old(self)@.insert(addr, (incarnation, set![suspector])),
            old(self)@.contains_key(addr) && incarnation < old(self)@[addr].0 ==> r is None
                && final(self)@ == old(self)@,
            old(self)@.contains_key(addr) && incarnation > old(self)@[addr].0 ==> r == Some(
                SuspicionResult::Reset,
            ) && final(self)@ == old(self)@.insert(addr, (incarnation, set![suspector])),
            old(self)@.contains_key(addr) && incarnation == old(self)@[addr].0 ==> r == Some(
                SuspicionResult::Update(final(self)@[addr].1.len() as usize),
            ) && final(self)@ == old(self)@.insert(
                addr,
                (incarnation, old(self)@[addr].1.insert(suspector)),
            ),
    {
        match self.suspicions.remove(&addr) {
            None => {
                let mut suspectors: HashSet<u64> = HashSet::new();
                suspectors.insert(suspector);
                self.suspicions.insert(addr, Suspicion { incarnation, suspectors });
                assert(self@ =~= old(self)@.insert(addr, (incarnation, set![suspector])));
                assert(set![suspector].len() == 1);
                Some(SuspicionResult::New)
            },
            Some(mut suspicion) => {
                if incarnation < suspicion.incarnation {
                    self.suspicions.insert(addr, suspicion);
                    assert(self@ =~= old(self)@);
                    None
                } else if incarnation > suspicion.incarnation {
                    suspicion.suspectors.clear();
                    suspicion.suspectors.insert(suspector);
                    suspicion.incarnation = incarnation;
                    self.suspicions.insert(addr, suspicion);
                    assert(self@ =~= old(self)@.insert(addr, (incarnation, set![suspector])));
                    assert(set![suspector].len() == 1);
                    Some(SuspicionResult::Reset)
                } else {
                    suspicion.suspectors.insert(suspector);
                    assert(suspicion.suspectors@.contains(suspector));
                    let count = suspicion.suspectors.len();
                    self.suspicions.insert(addr, suspicion);
                    assert(self@ =~= old(self)@.insert(
                        addr,
                        (incarnation, old(self)@[addr].1.insert(suspector)),
                    ));
                    Some(SuspicionResult::Update(count))
                }
            },
        }
    }

    /// Returns the suspicion held against `addr`, if any.
    pub fn get(&self, addr: &u64) -> (r: Option<&Suspicion>)
        ensures
            r is Some == self@.contains_key(*addr),
            r is Some ==> (r->0.incarnation, r->0.suspectors@) == self@[*addr],
    {
        self.suspicions.get(addr)
    }

    /// Removes the suspicion held against `addr` and returns it, if any.
    pub fn remove(&mut self, addr: &u64) -> (r: Option<Suspicion>)
        requires
            old(self).wf(),
        ensures
            final(self).wf(),
            final(self)@ == old(self)@.remove(*addr),
            r is Some == old(self)@.contains_key(*addr),
            r is Some ==> (r->0.incarnation, r->0.suspectors@) == old(self)@[*addr],
    {
        let r = self.suspicions.remove(addr);
        assert(self@ =~= old(self)@.remove(*addr));
        r
    }
}

} // verus!
