use ifdohtem::limiter::{Admission, RateBudget, WINDOW_CAPACITY, WINDOW_DURATION};

#[test]
fn the_platform_allows_600_calls_a_minute() {
    assert_eq!(WINDOW_CAPACITY, 600);
    assert_eq!(WINDOW_DURATION, 60);
    assert_eq!(RateBudget::standard().calls_in_window(), 0);
}

#[test]
fn there_is_no_budget_of_no_calls() {
    assert!(RateBudget::with_limits(0, 60).is_none());
    assert!(RateBudget::with_limits(1, 0).is_some());
}

#[test]
fn the_601st_call_is_the_only_one_deferred() {
    let mut budget = RateBudget::standard();
    let mut now: u64 = 1_000;
    let mut deferrals: Vec<(u32, u64)> = Vec::new();
    let mut granted: u32 = 0;
    while granted < 601 {
        match budget.request(now) {
            Admission::Granted => granted += 1,
            Admission::Deferred(wait) => {
                deferrals.push((granted, wait));
                now += wait;
            }
        }
    }
    assert_eq!(deferrals, vec![(600, 60)]);
    assert_eq!(budget.calls_in_window(), 1);
}

#[test]
fn a_deferred_call_is_not_counted() {
    let mut budget = RateBudget::with_limits(2, 10).unwrap();
    assert_eq!(budget.request(0), Admission::Granted);
    assert_eq!(budget.request(0), Admission::Granted);
    assert_eq!(budget.calls_in_window(), 2);
    assert_eq!(budget.request(3), Admission::Deferred(7));
    assert_eq!(budget.request(3), Admission::Deferred(7));
    assert_eq!(budget.calls_in_window(), 2);
    assert_eq!(budget.request(9), Admission::Deferred(1));
    assert_eq!(budget.request(10), Admission::Granted);
    assert_eq!(budget.calls_in_window(), 1);
}

#[test]
fn a_window_runs_from_its_first_call() {
    let mut budget = RateBudget::with_limits(3, 60).unwrap();
    assert_eq!(budget.request(100), Admission::Granted);
    assert_eq!(budget.request(130), Admission::Granted);
    assert_eq!(budget.request(159), Admission::Granted);
    assert_eq!(budget.request(159), Admission::Deferred(1));
    assert_eq!(budget.request(160), Admission::Granted);
    assert_eq!(budget.calls_in_window(), 1);
}

#[test]
fn a_window_that_ran_out_is_not_filled_further() {
    let mut budget = RateBudget::with_limits(3, 60).unwrap();
    assert_eq!(budget.request(0), Admission::Granted);
    assert_eq!(budget.request(1_000), Admission::Granted);
    assert_eq!(budget.calls_in_window(), 1);
    assert_eq!(budget.request(1_000), Admission::Granted);
    assert_eq!(budget.request(1_000), Admission::Granted);
    assert_eq!(budget.request(1_000), Admission::Deferred(60));
}

#[test]
fn a_clock_that_runs_backwards_waits_a_whole_window() {
    let mut budget = RateBudget::with_limits(1, 60).unwrap();
    assert_eq!(budget.request(500), Admission::Granted);
    assert_eq!(budget.request(100), Admission::Deferred(60));
}

#[test]
fn a_window_of_no_length_limits_nothing() {
    let mut budget = RateBudget::with_limits(1, 0).unwrap();
    for _ in 0..10 {
        assert_eq!(budget.request(7), Admission::Granted);
    }
}

#[test]
fn times_near_the_end_of_the_clock_do_not_overflow() {
    let mut budget = RateBudget::with_limits(1, u64::MAX).unwrap();
    assert_eq!(budget.request(u64::MAX - 1), Admission::Granted);
    assert_eq!(budget.request(u64::MAX), Admission::Deferred(u64::MAX - 1));
}

#[test]
fn no_window_holds_more_calls_than_its_capacity() {
    let capacity: u32 = 5;
    let duration: u64 = 10;
    let mut budget = RateBudget::with_limits(capacity, duration).unwrap();
    let mut granted_at: Vec<u64> = Vec::new();
    let mut opened_at: Vec<u64> = Vec::new();
    let mut now: u64 = 0;
    for step in 0..400u64 {
        now += (step * 7) % 4;
        match budget.request(now) {
            Admission::Granted => {
                granted_at.push(now);
                if budget.calls_in_window() == 1 {
                    opened_at.push(now);
                }
            }
            Admission::Deferred(wait) => {
                assert!(wait >= 1 && wait <= duration);
            }
        }
    }
    assert!(opened_at.len() > 10);
    for start in opened_at {
        let within = granted_at.iter().filter(|time| start <= **time && **time < start + duration).count();
        assert!(within <= capacity as usize, "{} calls from {}", within, start);
    }
}
