use pi_dash::sampler::Sampler;

/// Ticks (counted from 1) on which a sample is taken, and the gap before each.
fn gaps(s: &mut Sampler, ticks: u64, subscribers: impl Fn(u64, usize) -> usize) -> Vec<u64> {
    let mut out = Vec::new();
    let mut last = 0u64;
    let mut produced = 0usize;
    for t in 1..=ticks {
        if s.on_tick(subscribers(t, produced)) {
            out.push(t - last);
            last = t;
            produced += 1;
        }
    }
    out
}

#[test]
fn idle_backoff_ladder() {
    let mut s = Sampler::new();
    let g = gaps(&mut s, 1 + 5 + 10 + 30 + 60 + 60 + 60, |_, _| 0);
    assert_eq!(g, vec![1, 5, 10, 30, 60, 60, 60]);
}

#[test]
fn subscriber_resets_delay() {
    let mut s = Sampler::new();
    // a subscriber appears right after the fifth sample
    let g = gaps(&mut s, 1 + 5 + 10 + 30 + 60 + 3, |_, produced| if produced >= 5 { 1 } else { 0 });
    assert_eq!(g, vec![1, 5, 10, 30, 60, 1, 1, 1]);
    assert_eq!(s.delay, 1);
}

#[test]
fn active_samples_every_tick() {
    let mut s = Sampler::new();
    for _ in 0..10 {
        assert!(s.on_tick(2));
        assert_eq!(s.ticks, 0);
        assert_eq!(s.delay, 1);
    }
}

#[test]
fn idle_waits_between_samples() {
    let mut s = Sampler { ticks: 0, delay: 5 };
    for _ in 0..4 {
        assert!(!s.on_tick(0));
    }
    assert!(s.on_tick(0));
    assert_eq!(s.delay, 10);
}
