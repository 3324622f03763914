use rpc_adapter::schedule::{Backoff, CMD_MAX_INTERVAL_MS, DP_LIMIT};

#[test]
fn backoff_stays_in_bounds() {
    let mut b = Backoff::new(0);
    let mut now = 0u64;
    let mut last_sweep: Option<u64> = None;
    let mut seed = 12345u64;
    for _ in 0..200_000 {
        seed = seed.wrapping_mul(6364136223846793005).wrapping_add(1442695040888963407);
        let work = ((seed >> 33) % 3) as usize;
        now += (seed >> 60) % 3;
        let sweep = b.finish_round(if work == 0 { 0 } else { work }, now);
        assert!(b.backoff >= 1 && b.backoff <= DP_LIMIT);
        assert!(b.dp_spin_cnt < b.backoff);
        if sweep {
            if let Some(prev) = last_sweep {
                assert!(now - prev >= CMD_MAX_INTERVAL_MS);
            }
            last_sweep = Some(now);
        }
    }
}

#[test]
fn backoff_doubles_on_work_and_caps() {
    let mut b = Backoff::new(0);
    for _ in 0..40 {
        b.finish_round(1, 0);
    }
    assert_eq!(b.backoff, DP_LIMIT);
}

#[test]
fn sweep_halves_backoff_after_interval() {
    let mut b = Backoff { dp_spin_cnt: 7, backoff: 8, last_sweep_ms: 0 };
    assert!(b.finish_round(0, 1000));
    assert_eq!(b, Backoff { dp_spin_cnt: 0, backoff: 4, last_sweep_ms: 1000 });
    let mut c = Backoff { dp_spin_cnt: 7, backoff: 8, last_sweep_ms: 0 };
    assert!(!c.finish_round(0, 999));
    assert_eq!(c, Backoff { dp_spin_cnt: 0, backoff: 16, last_sweep_ms: 0 });
    let mut d = Backoff { dp_spin_cnt: 0, backoff: 8, last_sweep_ms: 0 };
    assert!(!d.finish_round(0, 5000));
    assert_eq!(d, Backoff { dp_spin_cnt: 1, backoff: 8, last_sweep_ms: 0 });
}
