use coin_ingest::pacing::Pacer;
use coin_ingest::pacing::DEFAULT_RATE;

#[test]
fn the_first_grant_is_immediate() {
    let mut pacer = Pacer::new(DEFAULT_RATE);
    assert_eq!(pacer.acquire(500), 500);
}

#[test]
fn an_eager_caller_is_held_one_period_behind_the_previous_grant() {
    let mut pacer = Pacer::new(2000);
    assert_eq!(pacer.acquire(100), 100);
    // Asking again right away: the grant waits for the free instant.
    assert_eq!(pacer.acquire(100), 2100);
    assert_eq!(pacer.acquire(150), 4100);
}

#[test]
fn a_late_caller_is_granted_at_once() {
    let mut pacer = Pacer::new(2000);
    assert_eq!(pacer.acquire(0), 0);
    assert_eq!(pacer.acquire(9000), 9000);
}

#[test]
fn wait_before_names_the_remaining_delay() {
    let mut pacer = Pacer::new(2000);
    assert_eq!(pacer.wait_before(0), 0);
    pacer.acquire(0);
    assert_eq!(pacer.wait_before(500), 1500);
    assert_eq!(pacer.wait_before(2000), 0);
}

#[test]
fn n_grants_span_at_least_n_minus_one_periods() {
    // Five page requests paced at 2000 time units: however eagerly the
    // caller asks, the grants span at least 4 * 2000.
    let period: u64 = 2000;
    let n: usize = 5;
    let mut pacer = Pacer::new(period);
    let mut grants: Vec<u64> = Vec::new();
    let mut clock: u64 = 0;
    for i in 0..n {
        // The caller arrives a little after the previous grant.
        let g = pacer.acquire(clock);
        grants.push(g);
        clock = g + (i as u64 % 2);
    }
    let span = grants[n - 1] - grants[0];
    assert!(span >= (n as u64 - 1) * period, "span {span} too short");
    for w in grants.windows(2) {
        assert!(w[1] >= w[0] + period);
    }
}
