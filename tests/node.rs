use std::cmp::Ordering;
use std::cmp::Ordering::{Equal, Greater, Less};

use swimmers::node::{KillError, LeaveError, SuspectError};
use swimmers::NodeState::{self, Alive, Dead, Left, Suspect};

#[test]
fn node_state_cmp() {
    let cases = vec![
        (Alive(1), Alive(1), Equal),
        (Suspect(1), Suspect(1), Equal),
        (Dead(1), Dead(1), Equal),
        (Left, Left, Equal),
        (Alive(2), Alive(1), Greater),
        (Alive(2), Suspect(1), Greater),
        (Alive(2), Dead(1), Greater),
        (Suspect(2), Suspect(1), Greater),
        (Suspect(1), Alive(1), Greater),
        (Suspect(2), Dead(1), Greater),
        (Dead(2), Dead(1), Greater),
        (Dead(1), Alive(1), Greater),
        (Dead(1), Suspect(1), Greater),
        (Left, Alive(1), Greater),
        (Left, Suspect(1), Greater),
        (Left, Dead(1), Greater),
        (Alive(1), Alive(2), Less),
        (Alive(1), Suspect(1), Less),
        (Alive(1), Dead(1), Less),
        (Alive(1), Left, Less),
        (Suspect(1), Alive(2), Less),
        (Suspect(1), Suspect(2), Less),
        (Suspect(1), Dead(1), Less),
        (Suspect(1), Left, Less),
        (Dead(1), Alive(2), Less),
        (Dead(1), Suspect(2), Less),
        (Dead(1), Dead(2), Less),
        (Dead(1), Left, Less),
    ];

    for (ref i, ref j, result) in cases {
        assert_eq!(i.cmp(j), result);
        assert_eq!(i.partial_cmp(j), Some(result));
    }
}

#[test]
fn suspect_if_dead() {
    let cases = vec![
        (Left, Left, false),
        (Alive(1), Alive(1), false),
        (Suspect(1), Suspect(1), false),
        (Dead(1), Suspect(1), true),
    ];

    for (mut before, after, changed) in cases {
        assert_eq!(before.suspect_if_dead(), changed);
        assert_eq!(before, after);
    }
}

#[test]
fn reincarnate() {
    let cases = vec![
        (Alive(1), Alive(2)),
        (Suspect(1), Alive(2)),
        (Dead(1), Alive(2)),
        (Left, Left),
    ];

    for (mut before, after) in cases {
        before.reincarnate();
        assert_eq!(before, after);
    }
}

#[test]
fn left_and_precedence_order() {
    assert!(NodeState::Left > NodeState::Alive(1_000_000_000));
    assert!(NodeState::Dead(1) > NodeState::Suspect(1));
    assert!(NodeState::Suspect(1) > NodeState::Alive(1));
    assert!(NodeState::Alive(2) > NodeState::Dead(1));
}

#[test]
fn order_is_antisymmetric_and_transitive() {
    let mut states = vec![Left];
    for i in 0..4u64 {
        states.push(Alive(i));
        states.push(Suspect(i));
        states.push(Dead(i));
    }
    for x in &states {
        for y in &states {
            assert_eq!(x.cmp(y), y.cmp(x).reverse());
            assert_eq!(x.cmp(y) == Ordering::Equal, x == y);
            for z in &states {
                if x.cmp(y) == Ordering::Greater && y.cmp(z) == Ordering::Greater {
                    assert_eq!(x.cmp(z), Ordering::Greater);
                }
            }
        }
    }
}

#[test]
fn incarnation_of_states() {
    assert_eq!(Alive(1).incarnation(), Some(1));
    assert_eq!(Suspect(4).incarnation(), Some(4));
    assert_eq!(Dead(7).incarnation(), Some(7));
    assert_eq!(Left.incarnation(), None);
}

#[test]
fn state_mutations() {
    let mut s = Alive(3);
    assert_eq!(s.suspect(), Ok(()));
    assert_eq!(s, Suspect(3));
    assert_eq!(s.suspect(), Err(SuspectError));
    assert_eq!(s, Suspect(3));
    assert_eq!(s.kill(), Ok(()));
    assert_eq!(s, Dead(3));
    assert_eq!(s.kill(), Err(KillError));
    assert_eq!(s.leave(), Ok(()));
    assert_eq!(s, Left);
    assert_eq!(s.leave(), Err(LeaveError));
    assert_eq!(s.kill(), Err(KillError));
    assert_eq!(s, Left);

    let mut a = Alive(5);
    assert_eq!(a.kill(), Ok(()));
    assert_eq!(a, Dead(5));
}
