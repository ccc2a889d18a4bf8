use vstd::prelude::*;

verus! {

/// Adding an element outside a finite set adds one to the size of each
/// filter that keeps it, and nothing to the others.
pub(crate) proof fn lemma_filter_insert(s: Set<u64>, x: u64, p: spec_fn(u64) -> bool)
    requires
        s.finite(),
        !s.contains(x),
    ensures
        s.insert(x).filter(p).len() == s.filter(p).len() + if p(x) {
            1nat
        } else {
            0nat
        },
{
    if p(x) {
        assert(s.insert(x).filter(p) =~= s.filter(p).insert(x));
    } else {
        assert(s.insert(x).filter(p) =~= s.filter(p));
    }
}

/// A filter of a finite set is no larger than the set.
pub(crate) proof fn lemma_filter_len_le(s: Set<u64>, p: spec_fn(u64) -> bool)
    requires
        s.finite(),
    ensures
        s.filter(p).finite(),
        s.filter(p).len() <= s.len(),
{
    vstd::set_lib::lemma_len_subset(s.filter(p), s);
}

/// Walking one more element of a duplicate-free sequence adds that element,
/// which was not among those walked before.
pub(crate) proof fn lemma_take_push(q: Seq<u64>, i: int)
    requires
        0 <= i < q.len(),
        q.no_duplicates(),
    ensures
        q.take(i + 1).to_set() == q.take(i).to_set().insert(q[i]),
        !q.take(i).to_set().contains(q[i]),
        q.take(i).to_set().finite(),
        q.take(i).to_set().len() == i,
{
    assert(q.take(i + 1) =~= q.take(i).push(q[i]));
    q.take(i).lemma_push_to_set_commute(q[i]);
    if q.take(i).to_set().contains(q[i]) {
        let j = choose|j: int| 0 <= j < i && q.take(i)[j] == q[i];
        assert(q[j] == q[i]);
    }
    assert(q.take(i).no_duplicates());
    q.take(i).unique_seq_to_set();
}

/// A duplicate-free sequence of elements of a finite set, as long as the set
/// is large, holds exactly the set's elements.
pub(crate) proof fn lemma_seq_covers_set(q: Seq<u64>, d: Set<u64>)
    requires
        q.no_duplicates(),
        d.finite(),
        q.len() == d.len(),
        forall|j: int| 0 <= j < q.len() ==> d.contains(q[j]),
    ensures
        q.to_set() == d,
{
    q.unique_seq_to_set();
    assert(q.to_set().subset_of(d));
    vstd::set_lib::lemma_subset_equality(q.to_set(), d);
}

/// What a sequence holds after a push.
pub(crate) proof fn lemma_push_contains<A>(q: Seq<A>, x: A)
    ensures
        forall|y: A| #[trigger] q.push(x).contains(y) == (q.contains(y) || y == x),
        q.no_duplicates() && !q.contains(x) ==> q.push(x).no_duplicates(),
{
    let p = q.push(x);
    assert(p[q.len() as int] == x);
    assert forall|y: A| #[trigger] p.contains(y) implies (q.contains(y) || y == x) by {
        let j = choose|j: int| 0 <= j < p.len() && p[j] == y;
        if j < q.len() {
            assert(q[j] == y);
        }
    }
    assert forall|y: A| q.contains(y) implies #[trigger] p.contains(y) by {
        let j = choose|j: int| 0 <= j < q.len() && q[j] == y;
        assert(p[j] == y);
    }
    if q.no_duplicates() && !q.contains(x) {
        assert forall|i: int, j: int| 0 <= i < p.len() && 0 <= j < p.len() && i != j implies p[i]
            != p[j] by {
            if i < q.len() && j == q.len() {
                assert(q[i] == p[i]);
            } else if j < q.len() && i == q.len() {
                assert(q[j] == p[j]);
            }
        }
    }
}

/// What a non-empty sequence holds besides its last element.
pub(crate) proof fn lemma_drop_last_contains(q: Seq<u64>)
    requires
        q.len() > 0,
    ensures
        q.contains(q.last()),
        forall|y: u64| #[trigger] q.contains(y) == (q.drop_last().contains(y) || y == q.last()),
{
    assert(q.drop_last().push(q.last()) =~= q);
    lemma_push_contains(q.drop_last(), q.last());
}

} // verus!
