use swimmers::Awareness;

#[test]
fn awareness() {
    let mut a = Awareness::default();

    let cases = vec![
        (-1i32, 1u32),
        (-10, 1),
        (1, 2),
        (-1, 1),
        (20, 9),
        (-1, 8),
        (-1, 7),
        (-1, 6),
        (-1, 5),
        (-1, 4),
        (-1, 3),
        (-1, 2),
        (-1, 1),
        (-1, 1),
    ];

    for (rounds, result) in cases {
        for _ in 0..rounds.abs() {
            if rounds.is_negative() {
                a.decrement();
            } else {
                a.increment();
            };
        }

        assert_eq!(a.score(), result);
    }
}

#[test]
fn awareness_default_walk() {
    let mut a = Awareness::default();
    assert_eq!(a.score(), 1);
    assert_eq!(a.max(), 9);
    for _ in 0..9 {
        a.increment();
    }
    assert_eq!(a.score(), 9);
    assert_eq!(a.increment(), 9);
    for _ in 0..8 {
        a.decrement();
    }
    assert_eq!(a.score(), 1);
    assert_eq!(a.decrement(), 1);
}

#[test]
fn max_decrements_from_max_reach_one() {
    let mut a = Awareness::new(4);
    for _ in 0..4 {
        a.increment();
    }
    assert_eq!(a.score(), 4);
    for _ in 0..4 {
        let s = a.decrement();
        assert!(s >= 1 && s <= 4);
    }
    assert_eq!(a.score(), 1);
}
