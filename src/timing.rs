use vstd::arithmetic::div_mod::lemma_div_is_ordered;
use vstd::arithmetic::mul::lemma_mul_inequality;
use vstd::arithmetic::power2::{lemma2_to64, lemma_pow2_strictly_increases, lemma_pow2_unfold, pow2};
use vstd::prelude::*;

verus! {

/// The period of an awareness-scaled interval (the probe and gossip
/// cadences): the base interval times the awareness score. Durations are in
/// milliseconds.
pub fn awareness_interval(base_interval: u64, awareness: u32) -> (r: u64)
    requires
        base_interval * awareness <= u64::MAX,
    ensures
        r == base_interval * awareness,
{
    base_interval * awareness as u64
}

/// The least `m` with `scale * 2^m >= node_count`: the ceiling of
/// `log2(node_count) - log2(scale)` for `node_count > scale`, else `0`.
pub open spec fn sync_exponent(scale: nat, node_count: nat) -> nat
    recommends
        scale >= 1,
    decreases (if node_count > scale {
        node_count - scale
    } else {
        0
    }),
    when scale >= 1
{
    if scale >= node_count {
        0
    } else {
        1 + sync_exponent(2 * scale, node_count)
    }
}

/// `sync_exponent` is the least exponent that lifts `scale` to
/// `node_count` by doublings.
pub proof fn lemma_sync_exponent_least(scale: nat, node_count: nat)
    requires
        scale >= 1,
    ensures
        scale * pow2(sync_exponent(scale, node_count)) >= node_count,
        sync_exponent(scale, node_count) > 0 ==> scale * pow2(
            (sync_exponent(scale, node_count) - 1) as nat,
        ) < node_count,
    decreases (if node_count > scale {
        node_count - scale
    } else {
        0
    }),
{
    lemma2_to64();
    let e = sync_exponent(scale, node_count);
    if scale < node_count {
        lemma_sync_exponent_least(2 * scale, node_count);
        let m = sync_exponent(2 * scale, node_count);
        assert(e == m + 1);
        lemma_pow2_unfold(m + 1);
        assert(scale * pow2(m + 1) == (2 * scale) * pow2(m)) by (nonlinear_arith)
            requires
                pow2(m + 1) == 2 * pow2(m),
        ;
        assert(scale * pow2(e) >= node_count);
        if m > 0 {
            lemma_pow2_unfold(m);
            assert(scale * pow2(m) == (2 * scale) * pow2((m - 1) as nat)) by (nonlinear_arith)
                requires
                    pow2(m) == 2 * pow2((m - 1) as nat),
            ;
        }
        assert(scale * pow2((e - 1) as nat) < node_count);
    } else {
        assert(e == 0);
        assert(scale * pow2(0) == scale);
    }
}

/// The period of the full-state sync: the base interval while the cluster
/// has at most `scale` nodes, else the base interval times
/// `ceil(log2(node_count) - log2(scale)) + 1`.
pub open spec fn spec_sync_interval(base_interval: nat, scale: nat, node_count: nat) -> nat {
    if node_count <= scale {
        base_interval
    } else {
        base_interval * (sync_exponent(scale, node_count) + 1)
    }
}

/// Returns the period of the full-state sync for a cluster of
/// `node_count` nodes, or `None` if it does not fit in `u64` milliseconds.
pub fn sync_interval(base_interval: u64, scale: u32, node_count: u32) -> (r: Option<u64>)
    requires
        scale >= 1,
    ensures
        r == if spec_sync_interval(base_interval as nat, scale as nat, node_count as nat)
            <= u64::MAX {
            Some(spec_sync_interval(base_interval as nat, scale as nat, node_count as nat) as u64)
        } else {
            None::<u64>
        },
{
    if node_count <= scale {
        return Some(base_interval);
    }
    let mut s: u64 = scale as u64;
    let mut m: u64 = 0;
    proof {
        lemma2_to64();
    }
    while s < node_count as u64
        invariant
            scale >= 1,
            1 <= s <= 2 * (node_count as u64),
            m <= 32,
            s == scale * pow2(m as nat),
            sync_exponent(scale as nat, node_count as nat) == m + sync_exponent(
                s as nat,
                node_count as nat,
            ),
        decreases 2 * (node_count as int) - s,
    {
        proof {
            lemma_doubling_step(scale as nat, m as nat);
        }
        s = s * 2;
        m = m + 1;
    }
    base_interval.checked_mul(m + 1)
}

/// One more doubling of `scale * 2^m`, which stays within 33 doublings
/// while below `2^32`.
proof fn lemma_doubling_step(scale: nat, m: nat)
    requires
        scale >= 1,
        scale * pow2(m) < 0x1_0000_0000,
    ensures
        scale * pow2(m + 1) == 2 * (scale * pow2(m)),
        m < 32,
{
    lemma_pow2_unfold(m + 1);
    assert(scale * pow2(m + 1) == 2 * (scale * pow2(m))) by (nonlinear_arith)
        requires
            pow2(m + 1) == 2 * pow2(m),
    ;
    lemma2_to64();
    if m >= 32 {
        if m > 32 {
            lemma_pow2_strictly_increases(32, m);
        }
        if m == 32 {
            assert(scale * pow2(m) >= 0x1_0000_0000) by (nonlinear_arith)
                requires
                    scale >= 1,
                    pow2(m) == 0x1_0000_0000,
            ;
        } else {
            assert(scale * pow2(m) >= 0x1_0000_0000) by (nonlinear_arith)
                requires
                    scale >= 1,
                    pow2(m) > 0x1_0000_0000,
            ;
        }
    }
}

/// The kind of a probe timer.
#[derive(Debug, Clone, Copy, PartialEq, Eq, Structural)]
pub enum PingTimerKind {
    /// Direct and indirect probes: the full timeout.
    Normal,
    /// Requested probes, up to the nack: 80% of the timeout.
    Nack,
    /// Requested probes, after the nack: the remaining 20%.
    Grace,
}

/// The duration of a probe timer: the base timeout times the awareness
/// score, of which a nack timer takes 80% and a grace timer 20% (rounded
/// down to the millisecond).
pub open spec fn spec_ping_timeout(kind: PingTimerKind, base_timeout: nat, awareness: nat) -> nat {
    let normal = base_timeout * awareness;
    match kind {
        PingTimerKind::Normal => normal,
        PingTimerKind::Nack => normal * 4 / 5,
        PingTimerKind::Grace => normal / 5,
    }
}

/// Returns the duration of a probe timer of the given kind, in milliseconds.
pub fn ping_timeout(kind: PingTimerKind, base_timeout: u64, awareness: u32) -> (r: u64)
    requires
        base_timeout * awareness <= u64::MAX,
    ensures
        r as nat == spec_ping_timeout(kind, base_timeout as nat, awareness as nat),
{
    let normal = base_timeout * awareness as u64;
    match kind {
        PingTimerKind::Normal => normal,
        PingTimerKind::Nack => ((normal as u128 * 4) / 5) as u64,
        PingTimerKind::Grace => normal / 5,
    }
}

/// Returns how long a timer that was programmed for `d` still has to run
/// after `elapsed` has passed since it started: `max(0, d - elapsed)`.
pub fn remaining_delay(d: u64, elapsed: u64) -> (r: u64)
    ensures
        r == if d > elapsed {
            d - elapsed
        } else {
            0
        },
{
    if d > elapsed {
        d - elapsed
    } else {
        0
    }
}

/// The scale of a progress fraction: `PROGRESS_SCALE` stands for `1`.
pub const PROGRESS_SCALE: u64 = 1_000_000;

/// The kill timeout of a suspicion, in milliseconds:
/// `max(min, max - (max - min) * progress)`, rounded down to the
/// millisecond, where `progress` is `log(c) / log(k + 1)` for `c` confirming
/// suspectors, in millionths (a progress above one counts as one).
pub open spec fn spec_kill_timeout(min: nat, max: nat, progress: nat) -> nat {
    let p = if progress > PROGRESS_SCALE {
        PROGRESS_SCALE as nat
    } else {
        progress
    };
    let span = (max - min) as nat;
    let cut: int = (span * p + PROGRESS_SCALE - 1) / (PROGRESS_SCALE as int);
    if max - cut < min {
        min
    } else {
        (max - cut) as nat
    }
}

/// Returns the kill timeout of a suspicion for the given progress, in
/// milliseconds.
pub fn kill_timeout(min: u64, max: u64, progress: u64) -> (r: u64)
    requires
        min <= max,
    ensures
        r as nat == spec_kill_timeout(min as nat, max as nat, progress as nat),
{
    let p: u64 = if progress > PROGRESS_SCALE {
        PROGRESS_SCALE
    } else {
        progress
    };
    let span: u64 = max - min;
    proof {
        lemma_mul_inequality(p as int, PROGRESS_SCALE as int, span as int);
        assert(span * p <= span * PROGRESS_SCALE) by (nonlinear_arith)
            requires
                p * span <= PROGRESS_SCALE * span,
        ;
    }
    let cut: u128 = (span as u128 * p as u128 + (PROGRESS_SCALE - 1) as u128) / PROGRESS_SCALE as u128;
    proof {
        lemma_cut_at_most_span(span as nat, p as nat);
    }
    let t = max - cut as u64;
    if t < min {
        min
    } else {
        t
    }
}

/// With a progress of at most one, the cut never exceeds the span.
proof fn lemma_cut_at_most_span(span: nat, p: nat)
    requires
        p <= PROGRESS_SCALE,
    ensures
        (span * p + PROGRESS_SCALE - 1) / (PROGRESS_SCALE as int) <= span,
{
    let s = PROGRESS_SCALE as int;
    lemma_mul_inequality(p as int, s, span as int);
    assert(span * p <= span * s) by (nonlinear_arith)
        requires
            p * span <= s * span,
    ;
    lemma_div_is_ordered(span * p + (s - 1), span * s + (s - 1), s);
    assert((span * s + (s - 1)) / s == span) by (nonlinear_arith)
        requires
            s == 1_000_000,
    ;
}

/// The kill timeout never falls below `min`, starts at `max` with no
/// progress, and does not grow as the progress grows (that is, as more
/// suspectors confirm).
pub proof fn lemma_kill_timeout_monotonic(min: nat, max: nat, p1: nat, p2: nat)
    requires
        min <= max,
        p1 <= p2,
    ensures
        spec_kill_timeout(min, max, p2) <= spec_kill_timeout(min, max, p1),
        spec_kill_timeout(min, max, p1) >= min,
        spec_kill_timeout(min, max, p1) <= max,
        spec_kill_timeout(min, max, 0) == max,
        p1 >= PROGRESS_SCALE ==> spec_kill_timeout(min, max, p1) == min,
{
    let s = PROGRESS_SCALE as int;
    let q1 = if p1 > PROGRESS_SCALE {
        PROGRESS_SCALE as nat
    } else {
        p1
    };
    let q2 = if p2 > PROGRESS_SCALE {
        PROGRESS_SCALE as nat
    } else {
        p2
    };
    let span = (max - min) as nat;
    lemma_mul_inequality(q1 as int, q2 as int, span as int);
    assert(span * q1 <= span * q2) by (nonlinear_arith)
        requires
            q1 * span <= q2 * span,
    ;
    lemma_div_is_ordered(span * q1 + (s - 1), span * q2 + (s - 1), s);
    assert((span * 0 + (s - 1)) / s == 0) by (nonlinear_arith)
        requires
            s == 1_000_000,
    ;
    if p1 >= PROGRESS_SCALE {
        assert((span * s + (s - 1)) / s == span) by (nonlinear_arith)
            requires
                s == 1_000_000,
        ;
    }
}

} // verus!
