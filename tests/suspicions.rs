use swimmers::suspicions::{SuspicionResult, Suspicions};

fn addr(port: u16) -> u64 {
    port as u64
}

#[test]
fn suspect() {
    let mut s = Suspicions::new();

    let result = s.suspect(addr(1), 1, addr(1)).unwrap();
    assert!(matches!(result, SuspicionResult::New));
    assert!(s.get(&addr(1)).is_some());

    let result = s.suspect(addr(1), 1, addr(2)).unwrap();
    assert!(matches!(result, SuspicionResult::Update(i) if i == 2));
    assert!(s.get(&addr(1)).is_some());

    let result = s.suspect(addr(1), 0, addr(2));
    assert!(result.is_none());
    assert!(s.get(&addr(1)).is_some());

    let result = s.suspect(addr(1), 2, addr(2)).unwrap();
    assert!(matches!(result, SuspicionResult::Reset));
    assert!(s.get(&addr(1)).is_some());

    let result = s.remove(&addr(1)).unwrap();
    assert_eq!(result.incarnation, 2);
    assert_eq!(result.suspectors.len(), 1);
    assert!(s.get(&addr(1)).is_none());

    let result = s.remove(&addr(1));
    assert!(result.is_none());
}

#[test]
fn duplicate_suspector_does_not_inflate_count() {
    let mut s = Suspicions::new();
    assert_eq!(s.suspect(9, 4, 1), Some(SuspicionResult::New));
    assert_eq!(s.suspect(9, 4, 2), Some(SuspicionResult::Update(2)));
    assert_eq!(s.suspect(9, 4, 2), Some(SuspicionResult::Update(2)));
    assert_eq!(s.suspect(9, 4, 3), Some(SuspicionResult::Update(3)));
    assert_eq!(SuspicionResult::Update(3).suspicions(), 3);
    assert_eq!(SuspicionResult::New.suspicions(), 1);
    assert_eq!(SuspicionResult::Reset.suspicions(), 1);
}

#[test]
fn stale_suspicion_leaves_entry_unchanged() {
    let mut s = Suspicions::new();
    s.suspect(5, 3, 1);
    s.suspect(5, 3, 2);
    assert_eq!(s.suspect(5, 2, 7), None);
    let entry = s.get(&5).unwrap();
    assert_eq!(entry.incarnation, 3);
    assert_eq!(entry.suspectors.len(), 2);
    assert!(!entry.suspectors.contains(&7));
}
