use swimmers::timing::{
    awareness_interval, kill_timeout, ping_timeout, remaining_delay, sync_interval,
    PingTimerKind, PROGRESS_SCALE,
};

fn progress(c: u32, k: u32) -> u64 {
    let c = c as f64;
    let k = (k + 1) as f64;
    (c.log10() / k.log10() * PROGRESS_SCALE as f64).floor() as u64
}

#[test]
fn calc_timeout() {
    let cases = vec![(1, 30_000), (2, 16_000), (3, 7810), (4, 2000), (5, 2000), (6, 2000)];

    for (c, expected) in cases {
        let result = kill_timeout(2000, 30_000, progress(c, 3));
        assert_eq!(result, expected);
    }
}

#[test]
fn kill_timeout_never_grows_and_stays_above_min() {
    let mut last = u64::MAX;
    for c in 1..20 {
        let t = kill_timeout(1500, 9000, progress(c, 5));
        assert!(t <= last);
        assert!(t >= 1500);
        last = t;
    }
    assert_eq!(kill_timeout(1500, 9000, 0), 9000);
    assert_eq!(kill_timeout(1500, 1500, 400_000), 1500);
}

#[test]
fn awareness_scaled_interval() {
    assert_eq!(awareness_interval(1000, 1), 1000);
    assert_eq!(awareness_interval(1000, 4), 4000);
}

#[test]
fn sync_interval_grows_logarithmically() {
    assert_eq!(sync_interval(30_000, 32, 1), Some(30_000));
    assert_eq!(sync_interval(30_000, 32, 32), Some(30_000));
    assert_eq!(sync_interval(30_000, 32, 33), Some(60_000));
    assert_eq!(sync_interval(30_000, 32, 64), Some(60_000));
    assert_eq!(sync_interval(30_000, 32, 65), Some(90_000));
    assert_eq!(sync_interval(30_000, 32, 1000), Some(180_000));
    assert_eq!(sync_interval(10, 1, u32::MAX), Some(330));
    assert_eq!(sync_interval(u64::MAX, 1, 2), None);
    assert_eq!(sync_interval(u64::MAX, 2, 2), Some(u64::MAX));
}

#[test]
fn ping_timer_durations() {
    assert_eq!(ping_timeout(PingTimerKind::Normal, 500, 3), 1500);
    assert_eq!(ping_timeout(PingTimerKind::Nack, 500, 3), 1200);
    assert_eq!(ping_timeout(PingTimerKind::Grace, 500, 3), 300);
}

#[test]
fn remaining_delay_saturates() {
    assert_eq!(remaining_delay(1000, 300), 700);
    assert_eq!(remaining_delay(1000, 1000), 0);
    assert_eq!(remaining_delay(1000, 5000), 0);
}
