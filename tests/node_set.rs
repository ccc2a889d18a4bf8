use std::collections::HashSet;

use rand::rngs::SmallRng;
use rand::SeedableRng;
use swimmers::node_set::{InsertionResult, NodeSet};
use swimmers::{Node, NodeState};

fn make_addr(port: u16) -> u64 {
    port as u64
}

fn rng() -> SmallRng {
    SmallRng::seed_from_u64(0)
}

fn node(addr: u64, state: NodeState) -> Node {
    Node {
        addr,
        state,
        metadata: None,
    }
}

#[test]
fn pop_returns_none_if_map_is_empty() {
    let mut n = NodeSet::new(rng());
    assert_eq!(n.pop(), None);
}

#[test]
fn pop_refills_the_stack() {
    let mut n = NodeSet::new(rng());

    let addr = make_addr(1);
    n.insert(node(addr, NodeState::Alive(1)));

    n.refill_stack();

    assert_eq!(n.stack_len(), 1);
    assert_eq!(n.pop(), Some(addr));
    assert_eq!(n.stack_len(), 0);
    assert_eq!(n.pop(), Some(addr));
    assert_eq!(n.stack_len(), 0);
}

#[test]
fn refill_stack_skips_left_nodes() {
    let mut n = NodeSet::new(rng());

    for i in 0..10u16 {
        n.insert(node(
            make_addr(i),
            if i % 2 == 0 {
                NodeState::Alive(i.into())
            } else {
                NodeState::Left
            },
        ));
    }

    n.refill_stack();

    assert_eq!(n.stack_len(), 5);
}

#[test]
fn iter_unique_random_addrs_returns_none_if_pop_returns_none() {
    let mut n = NodeSet::new(rng());

    assert!(n.iter_unique_random_addrs().is_none());

    let addr = make_addr(1);
    n.insert(node(addr, NodeState::Alive(1)));

    n.refill_stack();

    n.remove(&addr);

    assert!(n.iter_unique_random_addrs().is_none());
}

#[test]
fn iter_unique_random_addrs_only_returns_unique_adds() {
    let mut n = NodeSet::new(rng());

    for i in 0..10u16 {
        n.insert(node(make_addr(i), NodeState::Alive(i.into())));
    }

    let mut iter = n.iter_unique_random_addrs().unwrap();
    let mut set = HashSet::with_capacity(10);

    while let Some(a) = iter.next(&mut n) {
        assert!(set.insert(a));
    }

    assert_eq!(set.len(), 10);
}

#[test]
fn round_yields_only_nodes_that_have_not_left() {
    let mut n = NodeSet::new(rng());
    for i in 0..10u16 {
        let state = if i % 2 == 0 {
            NodeState::Alive(1)
        } else {
            NodeState::Left
        };
        n.insert(node(make_addr(i), state));
    }

    let mut iter = n.iter_unique_random_addrs().unwrap();
    let mut seen = Vec::new();
    while let Some(a) = iter.next(&mut n) {
        seen.push(a);
    }
    seen.sort();
    assert_eq!(seen, vec![0, 2, 4, 6, 8]);
}

#[test]
fn round_skips_nodes_removed_mid_round() {
    let mut n = NodeSet::new(rng());
    for i in 0..6u16 {
        n.insert(node(make_addr(i), NodeState::Alive(1)));
    }

    let mut iter = n.iter_unique_random_addrs().unwrap();
    let first = iter.next(&mut n).unwrap();
    let removed = if first == 3 { 4 } else { 3 };
    n.remove(&removed);

    let mut seen = vec![first];
    while let Some(a) = iter.next(&mut n) {
        assert_ne!(a, removed);
        seen.push(a);
    }
    seen.sort();
    let mut expected: Vec<u64> = (0..6u64).filter(|a| *a != removed).collect();
    expected.sort();
    assert_eq!(seen, expected);
}

#[test]
fn insert_returns_correct_result() {
    let mut n = NodeSet::new(rng());

    let cases = vec![
        (0, InsertionResult::Inserted),
        (1, InsertionResult::Updated),
        (3, InsertionResult::Updated),
        (2, InsertionResult::Unchanged),
        (3, InsertionResult::Equal),
    ];

    for (i, result) in cases {
        let r = n.insert(node(make_addr(1), NodeState::Alive(i)));
        assert_eq!(r, result);
    }
    assert_eq!(n.get(&1).unwrap().state, NodeState::Alive(3));
}

#[test]
fn merge_keeps_the_greater_state() {
    let mut n = NodeSet::new(rng());
    n.insert(node(7, NodeState::Suspect(2)));
    n.insert(node(7, NodeState::Alive(2)));
    assert_eq!(n.get(&7).unwrap().state, NodeState::Suspect(2));
    n.insert(node(7, NodeState::Dead(2)));
    assert_eq!(n.get(&7).unwrap().state, NodeState::Dead(2));
    n.insert(node(7, NodeState::Alive(3)));
    assert_eq!(n.get(&7).unwrap().state, NodeState::Alive(3));
    n.insert(node(7, NodeState::Left));
    assert_eq!(n.get(&7).unwrap().state, NodeState::Left);
    n.insert(node(7, NodeState::Alive(100)));
    assert_eq!(n.get(&7).unwrap().state, NodeState::Left);
}

#[test]
fn counts_by_state() {
    let mut n = NodeSet::new(rng());
    n.insert(node(1, NodeState::Alive(1)));
    n.insert(node(2, NodeState::Alive(1)));
    n.insert(node(3, NodeState::Suspect(1)));
    n.insert(node(4, NodeState::Dead(1)));
    n.insert(node(5, NodeState::Left));
    n.insert(node(6, NodeState::Left));
    assert_eq!(n.counts(), (2, 1, 1, 2));
    assert_eq!(n.len(), 6);
    assert!(n.contains(&3));
    assert_eq!(n.remove(&3).unwrap().state, NodeState::Suspect(1));
    assert!(!n.contains(&3));
    assert_eq!(n.counts(), (2, 0, 1, 2));
    assert_eq!(n.get_map().len(), 5);
}

#[test]
fn shuffled_refill_holds_each_active_address_once() {
    let mut n = NodeSet::new(SmallRng::seed_from_u64(42));
    for i in 0..20u16 {
        n.insert(node(make_addr(i), NodeState::Alive(0)));
    }
    n.refill_stack();
    assert_eq!(n.stack_len(), 20);
    let mut popped = HashSet::new();
    for _ in 0..20 {
        assert!(popped.insert(n.pop().unwrap()));
    }
    assert_eq!(popped.len(), 20);
}

#[test]
fn successive_refills_are_shuffled_anew() {
    let mut n = NodeSet::new(SmallRng::seed_from_u64(7));
    for i in 0..20u16 {
        n.insert(node(make_addr(i), NodeState::Alive(0)));
    }
    let mut rounds = Vec::new();
    for _ in 0..2 {
        n.refill_stack();
        let mut order = Vec::new();
        for _ in 0..20 {
            order.push(n.pop().unwrap());
        }
        rounds.push(order);
    }
    assert_ne!(rounds[0], rounds[1]);
}

#[test]
fn default_set_is_empty() {
    let mut n = NodeSet::from_os_entropy().unwrap();
    assert_eq!(n.len(), 0);
    assert_eq!(n.counts(), (0, 0, 0, 0));
    assert!(n.random_addrs(3).is_empty());
    n.insert(node(4, NodeState::Suspect(2)));
    assert_eq!(n.random_addrs(3), vec![4]);
}
