use rand::rngs::SmallRng;
use rand::SeedableRng;
use swimmers::membership::{Action, Event, KillRequest, Membership, Message};
use swimmers::node_set::NodeSet;
use swimmers::ping::PingStore;
use swimmers::timing::PingTimerKind;
use swimmers::{Cause, NodeState, RequestSource};

const LOCAL: u64 = 1;

fn engine(peers: &[(u64, NodeState)]) -> Membership {
    let mut nodes = NodeSet::new(SmallRng::seed_from_u64(3));
    for (addr, state) in peers {
        nodes.insert(swimmers::Node {
            addr: *addr,
            state: *state,
            metadata: None,
        });
    }
    Membership::new(LOCAL, NodeState::Alive(3), nodes, 9)
}

#[test]
fn ping_is_acked_and_reported() {
    let mut m = engine(&[]);
    let r = m.receive_ping(2, 7);
    assert_eq!(
        r,
        vec![
            Action::Send(2, Message::Ack { sequence: 7 }),
            Action::Notify(Event::ReceivedPing(2)),
        ]
    );
}

#[test]
fn suspicion_of_self_is_refuted() {
    let x = 5;
    let mut m = engine(&[(x, NodeState::Alive(1))]);
    let r = m.receive_update(LOCAL, NodeState::Suspect(3), None, x);
    assert_eq!(
        r,
        vec![
            Action::Broadcast(LOCAL, NodeState::Alive(4), LOCAL),
            Action::Notify(Event::Suspected(x)),
        ]
    );
    assert_eq!(m.state(), NodeState::Alive(4));
    assert_eq!(m.awareness_score(), 2);

    let r = m.receive_update(LOCAL, NodeState::Dead(3), None, x);
    assert!(r.is_empty());
    assert_eq!(m.state(), NodeState::Alive(4));
}

#[test]
fn death_claim_of_self_is_refuted() {
    let mut m = engine(&[]);
    let r = m.receive_update(LOCAL, NodeState::Dead(5), None, 9);
    assert_eq!(
        r,
        vec![
            Action::Broadcast(LOCAL, NodeState::Alive(6), LOCAL),
            Action::Notify(Event::DeclaredDead(9)),
        ]
    );
}

#[test]
fn suspicion_of_peer_starts_and_accelerates_kill_timer() {
    let mut m = engine(&[(2, NodeState::Alive(1))]);
    let r = m.receive_update(2, NodeState::Suspect(1), None, 3);
    assert_eq!(
        r,
        vec![
            Action::Notify(Event::Node(2, NodeState::Suspect(1), Cause::Update)),
            Action::Broadcast(2, NodeState::Suspect(1), 3),
            Action::StartSuspicionTimer(KillRequest {
                addr: 2,
                incarnation: 1
            }),
        ]
    );
    let r = m.receive_update(2, NodeState::Suspect(1), None, 4);
    assert_eq!(r, vec![Action::UpdateSuspectors(2, 2)]);
    let r = m.receive_update(2, NodeState::Suspect(1), None, 4);
    assert_eq!(r, vec![Action::UpdateSuspectors(2, 2)]);

    let r = m.suspicion_timeout(KillRequest {
        addr: 2,
        incarnation: 1,
    });
    assert_eq!(
        r,
        vec![
            Action::Broadcast(2, NodeState::Dead(1), LOCAL),
            Action::Notify(Event::Node(2, NodeState::Dead(1), Cause::Death)),
        ]
    );
    assert_eq!(
        m.node_set().get(&2).unwrap().state,
        NodeState::Dead(1)
    );
}

#[test]
fn refuted_suspicion_is_not_killed() {
    let mut m = engine(&[(2, NodeState::Alive(1))]);
    m.receive_update(2, NodeState::Suspect(1), None, 3);
    let r = m.receive_update(2, NodeState::Alive(2), None, 2);
    assert_eq!(r.last(), Some(&Action::StopSuspicionTimer(2)));
    let r = m.suspicion_timeout(KillRequest {
        addr: 2,
        incarnation: 1,
    });
    assert!(r.is_empty());
    assert_eq!(m.node_set().get(&2).unwrap().state, NodeState::Alive(2));
}

#[test]
fn probe_round_fails_into_suspicion() {
    let mut m = engine(&[(2, NodeState::Alive(1))]);
    let r = m.ping_interval();
    assert_eq!(
        r,
        vec![
            Action::Send(2, Message::Ping { sequence: 0 }),
            Action::StartPingTimer(0, PingTimerKind::Normal),
            Action::Notify(Event::Ping(2)),
        ]
    );
    m.receive_update(3, NodeState::Alive(1), None, 3);
    m.receive_update(4, NodeState::Alive(1), None, 4);
    m.receive_update(5, NodeState::Left, None, 5);
    let r = m.ping_timeout(0, 3);
    assert_eq!(r.len(), 3);
    assert_eq!(r[2], Action::StartPingTimer(1, PingTimerKind::Normal));
    let mut asked: Vec<u64> = r[..2]
        .iter()
        .map(|a| match a {
            Action::Send(
                h,
                Message::PingRequest {
                    sequence: 1,
                    target: 2,
                },
            ) => *h,
            other => panic!("unexpected action {:?}", other),
        })
        .collect();
    asked.sort();
    assert_eq!(asked, vec![3, 4]);

    assert_eq!(m.receive_nack(1, 3), vec![Action::Notify(Event::Nack(2, 3))]);
    assert!(m.receive_nack(1, 3).is_empty());
    let r = m.ping_timeout(1, 3);
    assert!(r.contains(&Action::StartSuspicionTimer(KillRequest {
        addr: 2,
        incarnation: 1
    })));
    assert!(r.contains(&Action::Broadcast(2, NodeState::Suspect(1), LOCAL)));
    assert_eq!(m.node_set().get(&2).unwrap().state, NodeState::Suspect(1));
    assert_eq!(m.awareness_score(), 2);
}

#[test]
fn indirect_probe_asks_at_most_the_configured_number() {
    let peers: Vec<(u64, NodeState)> = (2..10).map(|a| (a, NodeState::Alive(0))).collect();
    let mut m = engine(&peers);
    let r = m.ping_interval();
    let target = match r[0] {
        Action::Send(a, Message::Ping { .. }) => a,
        _ => panic!("expected a probe"),
    };
    let r = m.ping_timeout(0, 3);
    assert_eq!(r.len(), 4);
    let mut asked: Vec<u64> = Vec::new();
    for a in &r[..3] {
        match a {
            Action::Send(h, Message::PingRequest { sequence: 1, target: t }) => {
                assert_eq!(*t, target);
                assert_ne!(*h, target);
                assert!(!asked.contains(h));
                asked.push(*h);
            }
            other => panic!("unexpected action {:?}", other),
        }
    }
}

#[test]
fn ack_lowers_awareness_and_revives_dead_node() {
    let mut m = engine(&[(2, NodeState::Dead(4))]);
    m.receive_update(LOCAL, NodeState::Suspect(3), None, 2);
    assert_eq!(m.awareness_score(), 2);
    let r = m.ping_interval();
    assert!(r.is_empty());

    let mut m = engine(&[(2, NodeState::Alive(4))]);
    m.ping_interval();
    m.receive_update(2, NodeState::Dead(4), None, 9);
    let r = m.receive_ack(0);
    assert_eq!(r[0], Action::StopPingTimer(0));
    assert_eq!(r[1], Action::Notify(Event::Ack(2)));
    assert_eq!(m.node_set().get(&2).unwrap().state, NodeState::Suspect(4));
    assert!(m.receive_ack(0).is_empty());
}

#[test]
fn requested_probe_forwards_ack_or_nacks() {
    let mut m = engine(&[]);
    let source = RequestSource {
        sequence: 40,
        addr: 8,
    };
    let r = m.receive_ping_request(source, 9);
    assert_eq!(
        r,
        vec![
            Action::Send(9, Message::Ping { sequence: 0 }),
            Action::StartPingTimer(0, PingTimerKind::Nack),
            Action::Notify(Event::PingRequest(9, 8)),
        ]
    );
    let r = m.ping_timeout(0, 3);
    assert_eq!(
        r,
        vec![
            Action::Send(8, Message::Nack { sequence: 40 }),
            Action::StartPingTimer(0, PingTimerKind::Grace),
        ]
    );
    let r = m.receive_ack(0);
    assert_eq!(
        r,
        vec![
            Action::StopPingTimer(0),
            Action::Send(8, Message::Ack { sequence: 40 }),
        ]
    );
    let _ = PingStore::new();
}

#[test]
fn gossip_targets_skip_left_nodes() {
    let mut m = engine(&[
        (2, NodeState::Alive(1)),
        (3, NodeState::Left),
        (4, NodeState::Suspect(1)),
        (5, NodeState::Dead(1)),
    ]);
    let mut all = m.gossip_targets(10);
    all.sort();
    assert_eq!(all, vec![2, 4, 5]);
    let two = m.gossip_targets(2);
    assert_eq!(two.len(), 2);
    assert_ne!(two[0], two[1]);
}
