use swimmers::ping::{FailResult, Ping, PingStore};
use swimmers::RequestSource;

fn addr(port: u16) -> u64 {
    port as u64
}

#[test]
fn pingcount() {
    let mut p = PingStore::new();

    let cases = vec![
        ((0, 0, 0), vec![]),
        ((1, 0, 0), vec![0]),
        ((0, 1, 0), vec![1]),
        ((1, 1, 1), vec![2, 0, 1]),
        ((1, 2, 1), vec![1, 0, 1, 2]),
        ((0, 0, 0), vec![]),
    ];

    let mut port: u16 = 1;
    for (expected, inserts) in cases {
        for kind in inserts {
            port += 1;
            match kind {
                0 => {
                    p.ping(addr(port)).unwrap();
                }
                1 => {
                    let t = p.ping(addr(port)).unwrap();
                    assert!(matches!(p.fail(t.sequence), Some(FailResult::DoIndirect(_))));
                }
                2 => {
                    p.ping_request(
                        RequestSource {
                            addr: addr(1),
                            sequence: 0,
                        },
                        addr(port),
                    );
                }
                _ => unreachable!(),
            }
        }

        assert_eq!(expected, p.pingcounts());
        p.clear();
    }
}

#[test]
fn cannot_fail_wrong_sequence() {
    let mut p = PingStore::new();
    assert!(p.fail(0).is_none());
}

#[test]
fn nack() {
    let mut p = PingStore::new();
    assert!(p.nack(0, addr(1)).is_none());

    let result = p.ping(addr(1)).unwrap();
    assert_eq!(result.addr, addr(1));
    assert_eq!(result.sequence, 0);
    assert!(p.nack(0, addr(1)).is_none());

    let result = p.fail(0).unwrap();
    assert!(matches!(result, FailResult::DoIndirect(target) if target.sequence == 1));
    assert_eq!(p.pingcounts(), (0, 1, 0));
    assert!(p.nack(0, addr(1)).is_none());

    assert_eq!(p.nack(1, addr(2)).unwrap(), 1);
    assert!(p.nack(1, addr(2)).is_none());
    assert_eq!(p.nack(1, addr(3)).unwrap(), 2);
    assert_eq!(p.nack_count(&1), Some(2));
    assert_eq!(p.nack_count(&0), None);
}

#[test]
fn ping_and_fail() {
    let mut p = PingStore::new();

    let result = p.ping(addr(1)).unwrap();
    assert_eq!(result.addr, addr(1));
    assert_eq!(result.sequence, 0);

    let result = p.ping(addr(1)).unwrap_err();
    assert_eq!(result.0, addr(1));

    let result = p.ping(addr(2)).unwrap();
    assert_eq!(result.addr, addr(2));
    assert_eq!(result.sequence, 1);

    assert_eq!(p.pingcounts(), (2, 0, 0));

    let result = p.fail(0).unwrap();
    assert!(matches!(result, FailResult::DoIndirect(target) if target.sequence == 2));
    assert_eq!(p.pingcounts(), (1, 1, 0));

    let result = p.fail(2).unwrap();
    assert!(matches!(result, FailResult::NodeFailed(_, _)));
    assert_eq!(p.pingcounts(), (1, 0, 0));
}

#[test]
fn ping_req_and_fail() {
    let mut p = PingStore::new();

    p.ping_request(
        RequestSource {
            sequence: 0,
            addr: addr(1),
        },
        addr(100),
    );

    assert_eq!(p.pingcounts(), (0, 0, 1));

    let result = p.fail(0).unwrap();
    assert!(matches!(result, FailResult::SendNack(_)));
    assert_eq!(p.pingcounts(), (0, 0, 1));

    let result = p.fail(0).unwrap();
    assert!(matches!(result, FailResult::RequestFailed(_)));
    assert_eq!(p.pingcounts(), (0, 0, 0));

    assert!(p.fail(0).is_none())
}

#[test]
fn direct_indirect_failed_chain_reports_nackers() {
    let mut p = PingStore::new();
    let s0 = p.ping(addr(7)).unwrap().sequence;
    let target = match p.fail(s0) {
        Some(FailResult::DoIndirect(t)) => t,
        _ => panic!("expected an indirect probe"),
    };
    assert_eq!(target.addr, addr(7));
    assert!(target.sequence > s0);
    p.nack(target.sequence, addr(20));
    p.nack(target.sequence, addr(21));
    p.nack(target.sequence, addr(20));
    match p.fail(target.sequence) {
        Some(FailResult::NodeFailed(a, nacks)) => {
            assert_eq!(a, addr(7));
            assert_eq!(nacks.len(), 2);
            assert!(nacks.contains(&addr(20)) && nacks.contains(&addr(21)));
        }
        _ => panic!("expected the node to fail"),
    }
    assert!(!p.current_pings().contains(&addr(7)));
    assert!(p.ping(addr(7)).is_ok());
}

#[test]
fn request_chain_nacks_then_fails() {
    let mut p = PingStore::new();
    let source = RequestSource {
        sequence: 11,
        addr: addr(3),
    };
    let t = p.ping_request(source, addr(4));
    assert_eq!(t.addr, addr(4));
    assert!(matches!(p.fail(t.sequence), Some(FailResult::SendNack(s)) if s == source));
    assert!(matches!(p.fail(t.sequence), Some(FailResult::RequestFailed(s)) if s == source));
    assert!(p.fail(t.sequence).is_none());
}

#[test]
fn sequences_strictly_increase() {
    let mut p = PingStore::new();
    let mut last = None;
    for i in 0..5u16 {
        let s = p.ping(addr(i)).unwrap().sequence;
        if let Some(l) = last {
            assert!(s > l);
        }
        last = Some(s);
        let r = p.ping_request(
            RequestSource {
                sequence: 0,
                addr: addr(99),
            },
            addr(i),
        );
        assert!(r.sequence > s);
        last = Some(r.sequence);
        if let Some(FailResult::DoIndirect(t)) = p.fail(s) {
            assert!(t.sequence > r.sequence);
            last = Some(t.sequence);
        } else {
            panic!("expected an indirect probe");
        }
    }
    assert_eq!(p.current_sequence(), last.unwrap() + 1);
}

#[test]
fn ack_clears_in_flight_address() {
    let mut p = PingStore::new();
    let t = p.ping(addr(5)).unwrap();
    assert!(p.current_pings().contains(&addr(5)));
    assert!(matches!(p.ack(&t.sequence), Some(Ping::Direct(a)) if a == addr(5)));
    assert!(!p.current_pings().contains(&addr(5)));
    assert!(p.ack(&t.sequence).is_none());
    let r = p.ping_request(
        RequestSource {
            sequence: 1,
            addr: addr(6),
        },
        addr(5),
    );
    assert!(matches!(p.ack(&r.sequence), Some(Ping::Request(s, false)) if s.addr == addr(6)));
}
