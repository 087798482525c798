use toolbox_core::backoff::{
    backoff_delay_ms, backoff_step_ms, connect_result, port_opened, AttemptPhase,
};
use toolbox_core::budget::{release_pair, try_acquire_pair, Budget};
use toolbox_core::ratelimiter::RateLimiter;
use toolbox_core::resolver::{resolve_from_outcomes, resolve_step, ResolveDecision};

#[test]
fn rate_limiter_spaces_grants() {
    let mut rl = RateLimiter::new(10); // one permit each 100 ms
    assert!(rl.try_acquire(0));
    assert!(!rl.try_acquire(50));
    assert_eq!(rl.wait_time_ms(50), 50);
    assert!(rl.try_acquire(100));
    assert!(rl.try_acquire(210));
    assert!(!rl.try_acquire(309));
    assert!(rl.try_acquire(310));
}

#[test]
fn rate_limiter_window_cap() {
    // 10 tokens/sec, greedy polling each millisecond over one second:
    // no more than 10*1 + 1 permits come out.
    let mut rl = RateLimiter::new(10);
    let mut granted = 0u64;
    let mut now = 0u64;
    while now <= 1000 {
        if rl.try_acquire(now) {
            granted += 1;
        }
        now += 1;
    }
    assert!(granted <= 11);
    assert_eq!(granted, 11);
}

#[test]
fn rate_limiter_zero_rate_treated_as_one() {
    let mut rl = RateLimiter::new(0);
    assert!(rl.try_acquire(0));
    assert!(!rl.try_acquire(999));
    assert!(rl.try_acquire(1000));
}

#[test]
fn rate_limiter_skips_missed_intervals() {
    // nothing polls for a long while; only one permit is available then
    let mut rl = RateLimiter::new(10);
    assert!(rl.try_acquire(5000));
    assert!(!rl.try_acquire(5050));
}

#[test]
fn budget_bounds_in_flight() {
    let mut b = Budget::new(2);
    assert!(b.try_acquire());
    assert!(b.try_acquire());
    assert!(!b.try_acquire());
    b.release();
    assert!(b.try_acquire());
    assert_eq!(b.in_flight, 2);
    assert_eq!(b.limit, 2);
}

#[test]
fn budget_pair_all_or_nothing() {
    let mut host = Budget::new(1);
    let mut global = Budget::new(1);
    assert!(try_acquire_pair(&mut host, &mut global));
    // host permit free again, global exhausted: nothing is taken
    host.release();
    assert!(!try_acquire_pair(&mut host, &mut global));
    assert_eq!(host.in_flight, 0);
    assert_eq!(global.in_flight, 1);
    assert!(host.try_acquire());
    release_pair(&mut host, &mut global);
    assert_eq!(host.in_flight, 0);
    assert_eq!(global.in_flight, 0);
}

#[test]
fn backoff_deterministic_component() {
    assert_eq!(backoff_step_ms(50, 0), 50);
    assert_eq!(backoff_step_ms(50, 1), 100);
    assert_eq!(backoff_step_ms(50, 2), 200);
    assert_eq!(backoff_step_ms(50, 6), 3200);
    assert_eq!(backoff_step_ms(50, 7), 3200);
    assert_eq!(backoff_step_ms(50, 100), 3200);
}

#[test]
fn backoff_delay_within_jitter_band() {
    for attempt in 1..10u32 {
        let det = backoff_step_ms(40, attempt);
        for _ in 0..50 {
            let d = backoff_delay_ms(40, attempt);
            assert!(d >= det);
            assert!(d < det + det / 4);
        }
    }
}

#[test]
fn backoff_deterministic_component_non_decreasing() {
    let mut prev = 0u64;
    for attempt in 1..20u32 {
        let det = backoff_step_ms(7, attempt);
        assert!(det >= prev);
        prev = det;
    }
}

#[test]
fn retry_machine_transitions() {
    assert_eq!(connect_result(0, 3, true), AttemptPhase::Open);
    assert_eq!(
        connect_result(0, 3, false),
        AttemptPhase::Backoff { attempt: 1 }
    );
    assert_eq!(
        connect_result(2, 3, false),
        AttemptPhase::Backoff { attempt: 3 }
    );
    assert_eq!(connect_result(3, 3, false), AttemptPhase::ClosedOrFiltered);
    assert_eq!(connect_result(0, 0, false), AttemptPhase::ClosedOrFiltered);
}

#[test]
fn port_opened_iff_any_attempt_succeeds() {
    assert!(port_opened(&vec![false, true, false], 2));
    assert!(port_opened(&vec![true], 0));
    assert!(!port_opened(&vec![false, false, false], 2));
    assert!(!port_opened(&vec![false], 0));
}

#[test]
fn resolver_uses_first_hit() {
    let hits = vec![None, Some("192.0.2.7".to_string()), None];
    let (addr, used) = resolve_from_outcomes("host.example", &hits, 2);
    assert_eq!(addr, "192.0.2.7");
    assert_eq!(used, 2);
}

#[test]
fn resolver_falls_back_to_input_after_three_attempts() {
    // retries = 2: exactly three lookups, then the original string
    let hits: Vec<Option<String>> = vec![None, None, None];
    let (addr, used) = resolve_from_outcomes("no-such-host.invalid", &hits, 2);
    assert_eq!(addr, "no-such-host.invalid");
    assert_eq!(used, 3);
}

#[test]
fn resolver_step_decisions() {
    match resolve_step("h", 0, 2, Some("192.0.2.1".to_string())) {
        ResolveDecision::Done { address } => assert_eq!(address, "192.0.2.1"),
        _ => panic!("expected Done"),
    }
    assert!(matches!(
        resolve_step("h", 0, 2, None),
        ResolveDecision::RetryAfterDelay
    ));
    match resolve_step("h", 2, 2, None) {
        ResolveDecision::Done { address } => assert_eq!(address, "h"),
        _ => panic!("expected Done with the input host"),
    }
}
