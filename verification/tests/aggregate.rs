use first_ok::aggregate::aggregate_outcomes;
use first_ok::aggregate::Aggregator;
use first_ok::effective_concurrency;

#[test]
fn empty_stream_is_none() {
    let outcomes: Vec<Result<i32, i32>> = Vec::new();
    assert_eq!(aggregate_outcomes(0, outcomes), None);
}

#[test]
fn empty_stream_is_none_whatever_the_length() {
    let outcomes: Vec<Result<i32, i32>> = Vec::new();
    assert_eq!(aggregate_outcomes(7, outcomes), None);
}

#[test]
fn zero_length_is_none_even_with_outcomes() {
    let outcomes: Vec<Result<i32, i32>> = vec![Err(1), Ok(2)];
    assert_eq!(aggregate_outcomes(0, outcomes), None);
}

#[test]
fn first_success_wins() {
    // Arrival order for items [1, 2, 3] with delays proportional to the item:
    // the error for 1 lands first, then the success for 2, which is returned.
    let outcomes: Vec<Result<i32, i32>> = vec![Err(1), Ok(2), Err(3)];
    assert_eq!(aggregate_outcomes(3, outcomes), Some(Ok(2)));
}

#[test]
fn success_after_errors_is_kept() {
    let outcomes: Vec<Result<i32, i32>> = vec![Err(1), Err(2), Err(3), Ok(9)];
    assert_eq!(aggregate_outcomes(4, outcomes), Some(Ok(9)));
}

#[test]
fn stops_at_first_success() {
    let outcomes: Vec<Result<i32, i32>> = vec![Ok(1), Ok(2)];
    assert_eq!(aggregate_outcomes(2, outcomes), Some(Ok(1)));
}

#[test]
fn length_truncates_the_stream() {
    // The success lies beyond the first `length` outcomes, so only the error
    // before it is ever consumed.
    let outcomes: Vec<Result<i32, i32>> = vec![Err(1), Ok(2)];
    assert_eq!(aggregate_outcomes(1, outcomes), Some(Err(1)));
}

#[test]
fn single_error_is_always_selected() {
    // The first error enters the reservoir with probability 1/1: the only
    // draw below 1 is 0, so the result never stays empty.
    for _ in 0..200 {
        let outcomes: Vec<Result<i32, i32>> = vec![Err(42)];
        assert_eq!(aggregate_outcomes(1, outcomes), Some(Err(42)));
    }
}

#[test]
fn all_errors_yields_one_of_them() {
    for _ in 0..200 {
        let outcomes: Vec<Result<i32, i32>> = vec![Err(1), Err(2), Err(3)];
        match aggregate_outcomes(3, outcomes) {
            Some(Err(e)) => assert!(e == 1 || e == 2 || e == 3),
            other => panic!("expected an error, got {:?}", other),
        }
    }
}

#[test]
fn error_choice_is_roughly_uniform() {
    // Reservoir sampling of size one: over many runs with five distinct
    // errors, each must be chosen about a fifth of the time. The bounds allow
    // far more than ten standard deviations of slack.
    let trials = 5000;
    let mut counts = [0usize; 5];
    for _ in 0..trials {
        let mut outcomes: Vec<Result<i32, usize>> = Vec::new();
        for e in 0..5 {
            outcomes.push(Err(e));
        }
        match aggregate_outcomes(5, outcomes) {
            Some(Err(e)) => counts[e] += 1,
            other => panic!("expected an error, got {:?}", other),
        }
    }
    for &c in counts.iter() {
        assert!(
            700 <= c && c <= 1300,
            "error frequencies too far from uniform: {:?}",
            counts
        );
    }
}

#[test]
fn reservoir_draw_zero_replaces() {
    let mut agg: Aggregator<i32, i32> = Aggregator::new();
    agg.observe_error(1, 0);
    agg.observe_error(2, 0);
    assert_eq!(agg.finish(), Some(Err(2)));
}

#[test]
fn reservoir_nonzero_draw_keeps() {
    let mut agg: Aggregator<i32, i32> = Aggregator::new();
    agg.observe_error(1, 0);
    agg.observe_error(2, 1);
    agg.observe_error(3, 2);
    assert_eq!(agg.finish(), Some(Err(1)));
}

#[test]
fn success_overrides_reservoir() {
    let mut agg: Aggregator<i32, i32> = Aggregator::new();
    agg.observe_error(1, 0);
    agg.observe_ok(7);
    assert_eq!(agg.finish(), Some(Ok(7)));
}

#[test]
fn fresh_aggregator_returns_none() {
    let agg: Aggregator<i32, i32> = Aggregator::new();
    assert_eq!(agg.finish(), None);
}

#[test]
fn observe_with_real_rng() {
    let mut rng = rand::thread_rng();
    let mut agg: Aggregator<i32, i32> = Aggregator::new();
    assert!(!agg.observe(Err(5), &mut rng));
    assert_eq!(agg.errors_seen, 1);
    assert!(agg.observe(Ok(6), &mut rng));
    assert_eq!(agg.finish(), Some(Ok(6)));
}

#[test]
fn zero_bound_means_one_worker_per_item() {
    assert_eq!(effective_concurrency(0, 5), 5);
    assert_eq!(effective_concurrency(0, 0), 0);
}

#[test]
fn nonzero_bound_is_kept() {
    assert_eq!(effective_concurrency(3, 5), 3);
    assert_eq!(effective_concurrency(7, 2), 7);
}
