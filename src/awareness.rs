use vstd::prelude::*;

verus! {

/// The maximum score of an [Awareness] counter made by `default`.
pub const DEFAULT_MAX_AWARENESS: u32 = 9;

/// A local health awareness counter which takes values in `[1, max]` and
/// starts at `1`. A score of `1` means that the local node is fully healthy;
/// every timing interval and timeout is multiplied by the score.
pub struct Awareness {
    max: u32,
    score: u32,
}

impl Awareness {
    /// The current score.
    pub closed spec fn spec_score(&self) -> nat {
        self.score as nat
    }

    /// The inclusive upper bound of the score.
    pub closed spec fn spec_max(&self) -> nat {
        self.max as nat
    }

    /// The score lies in `[1, max]`.
    pub open spec fn wf(&self) -> bool {
        1 <= self.spec_score() <= self.spec_max()
    }

    /// Creates a counter with the range `[1, max]`, starting at `1`.
    pub fn new(max: u32) -> (r: Awareness)
        requires
            max >= 1,
        ensures
            r.wf(),
            r.spec_score() == 1,
            r.spec_max() == max,
    {
        Awareness { max, score: 1 }
    }

    /// Raises the score by one unless it is at `max`; returns the new score.
    pub fn increment(&mut self) -> (r: u32)
        requires
            old(self).wf(),
        ensures
            final(self).wf(),
            final(self).spec_max() == old(self).spec_max(),
            final(self).spec_score() == incremented(old(self).spec_score(), old(self).spec_max()),
            r as nat == final(self).spec_score(),
    {
        if self.score < self.max {
            self.score = self.score + 1;
        }
        self.score
    }

    /// Lowers the score by one unless it is at `1`; returns the new score.
    pub fn decrement(&mut self) -> (r: u32)
        requires
            old(self).wf(),
        ensures
            final(self).wf(),
            final(self).spec_max() == old(self).spec_max(),
            final(self).spec_score() == decremented(old(self).spec_score()),
            r as nat == final(self).spec_score(),
    {
        if self.score > 1 {
            self.score = self.score - 1;
        }
        self.score
    }

    /// Returns the current awareness score.
    pub fn score(&self) -> (r: u32)
        ensures
            r as nat == self.spec_score(),
    {
        self.score
    }

    /// Returns the maximum awareness score.
    pub fn max(&self) -> (r: u32)
        ensures
            r as nat == self.spec_max(),
    {
        self.max
    }
}

impl Default for Awareness {
    /// A counter with the range `[1, 9]`.
    fn default() -> (r: Awareness)
        ensures
            r.wf(),
            r.spec_score() == 1,
            r.spec_max() == DEFAULT_MAX_AWARENESS,
    {
        Awareness::new(DEFAULT_MAX_AWARENESS)
    }
}

/// The score after one `increment`.
pub open spec fn incremented(score: nat, max: nat) -> nat {
    if score < max {
        score + 1
    } else {
        score
    }
}

/// The score after one `decrement`.
pub open spec fn decremented(score: nat) -> nat {
    if score > 1 {
        (score - 1) as nat
    } else {
        score
    }
}

/// The score after a run of calls: `true` stands for `increment`, `false`
/// for `decrement`.
pub open spec fn after_calls(score: nat, max: nat, calls: Seq<bool>) -> nat
    decreases calls.len(),
{
    if calls.len() == 0 {
        score
    } else {
        let next = if calls[0] {
            incremented(score, max)
        } else {
            decremented(score)
        };
        after_calls(next, max, calls.subrange(1, calls.len() as int))
    }
}

/// Whatever run of increments and decrements is applied to a counter whose
/// score lies in `[1, max]`, the score stays in `[1, max]`.
pub proof fn lemma_score_stays_in_bounds(score: nat, max: nat, calls: Seq<bool>)
    requires
        1 <= score <= max,
    ensures
        1 <= after_calls(score, max, calls) <= max,
    decreases calls.len(),
{
    if calls.len() > 0 {
        let next = if calls[0] {
            incremented(score, max)
        } else {
            decremented(score)
        };
        lemma_score_stays_in_bounds(next, max, calls.subrange(1, calls.len() as int));
    }
}

/// `n` decrements lower a score of `s >= 1` to `max(1, s - n)`.
pub proof fn lemma_decrements(score: nat, max: nat, n: nat)
    requires
        1 <= score <= max,
    ensures
        after_calls(score, max, Seq::new(n, |i: int| false)) == if score > n {
            (score - n) as nat
        } else {
            1
        },
    decreases n,
{
    let calls = Seq::new(n, |i: int| false);
    if n > 0 {
        lemma_decrements(decremented(score), max, (n - 1) as nat);
        assert(calls.subrange(1, calls.len() as int) =~= Seq::new((n - 1) as nat, |i: int| false));
    }
}

/// `max` decrements starting from a score of `max` reach `1`.
pub proof fn lemma_decrements_reach_one(max: nat)
    requires
        max >= 1,
    ensures
        after_calls(max, max, Seq::new(max, |i: int| false)) == 1,
{
    lemma_decrements(max, max, max);
}

} // verus!
