use std::cell::Cell;

use calendar_assist::consensus::{
    extract, CandidatePool, ExtractError, OracleError, Sampler, Verdict, DEFAULT_MAX_ATTEMPTS,
    DEFAULT_QUORUM,
};
use calendar_assist::when::{Weekday, When};

type Outcome = Result<Option<When>, OracleError>;

const A: When = When::NextWeek(Weekday::Monday);
const B: When = When::ThisWeek(Weekday::Friday);
const C: When = When::InExactDays(2);

/// Runs `extract` over a stub that hands out `script` in turn, and counts its calls.
fn run_script(script: &[Outcome], quorum: usize, max_attempts: usize) -> (Result<Option<When>, ExtractError>, usize) {
    let calls = Cell::new(0usize);
    let oracle = |_prompt: &str| {
        let i = calls.get();
        calls.set(i + 1);
        script[i % script.len()].clone()
    };
    let r = extract(&oracle, "when is it?", quorum, max_attempts);
    (r, calls.get())
}

#[test]
fn agreement_stops_at_the_quorum() {
    let script = [Ok(Some(A)), Ok(Some(A)), Ok(Some(B)), Ok(Some(A)), Ok(Some(C)), Ok(Some(A))];
    let (r, calls) = run_script(&script, 3, 21);
    assert_eq!(r, Ok(Some(A)));
    // The third `A` comes with the fourth call; nothing more is asked.
    assert_eq!(calls, 4);
}

#[test]
fn exhaustion_without_agreement_gives_no_value() {
    let script: Vec<Outcome> = (0..21).map(|i| Ok(Some(When::InExactDays(i)))).collect();
    let (r, calls) = run_script(&script, DEFAULT_QUORUM, DEFAULT_MAX_ATTEMPTS);
    assert_eq!(r, Ok(None));
    assert_eq!(r.unwrap().unwrap_or_default(), When::default());
    assert_eq!(calls, 21);
}

#[test]
fn failures_are_skipped() {
    let script = [
        Err(OracleError::Unavailable),
        Ok(Some(A)),
        Err(OracleError::SchemaMismatch),
        Ok(Some(A)),
        Ok(None),
        Ok(Some(A)),
    ];
    let (r, calls) = run_script(&script, 3, 21);
    assert_eq!(r, Ok(Some(A)));
    assert_eq!(calls, 6);
}

#[test]
fn failures_do_not_count_toward_a_candidate() {
    let script = [Err(OracleError::Unavailable), Ok(Some(A))];
    let (r, calls) = run_script(&script, 3, 5);
    assert_eq!(r, Ok(None));
    assert_eq!(calls, 5);
}

#[test]
fn all_failures_exhaust_the_oracle() {
    let script = [Err(OracleError::Unavailable), Ok(None)];
    let (r, calls) = run_script(&script, 3, 21);
    assert_eq!(r, Err(ExtractError::OracleExhausted));
    assert_eq!(calls, 21);
}

#[test]
fn zero_attempts_exhaust_at_once() {
    let script = [Ok(Some(A))];
    let (r, calls) = run_script(&script, 3, 0);
    assert_eq!(r, Err(ExtractError::OracleExhausted));
    assert_eq!(calls, 0);
}

#[test]
fn quorum_of_one_still_needs_a_repeat() {
    let script = [Ok(Some(A)), Ok(Some(B)), Ok(Some(B))];
    let (r, calls) = run_script(&script, 1, 21);
    assert_eq!(r, Ok(Some(B)));
    assert_eq!(calls, 3);
}

#[test]
fn interleaved_candidates_are_counted_apart() {
    let script = [Ok(Some(A)), Ok(Some(B)), Ok(Some(B)), Ok(Some(A)), Ok(Some(C)), Ok(Some(B))];
    let (r, calls) = run_script(&script, 3, 21);
    assert_eq!(r, Ok(Some(B)));
    assert_eq!(calls, 6);
}

#[test]
fn sampler_steps() {
    let mut s: Sampler<When> = Sampler::new(2, 3).unwrap();
    assert!(matches!(s.step(Ok(Some(A))), Verdict::Pending));
    assert!(matches!(s.step(Err(OracleError::Unavailable)), Verdict::Pending));
    assert!(matches!(s.step(Ok(Some(A))), Verdict::Agreed(x) if x == A));

    let mut t: Sampler<When> = Sampler::new(2, 2).unwrap();
    assert!(matches!(t.step(Ok(Some(A))), Verdict::Pending));
    assert!(matches!(t.step(Ok(Some(B))), Verdict::NoQuorum));

    let mut u: Sampler<When> = Sampler::new(2, 1).unwrap();
    assert!(matches!(u.step(Ok(None)), Verdict::Exhausted));

    assert!(Sampler::<When>::new(3, 0).is_none());
}

#[test]
fn pool_counts_and_reports_agreement() {
    let mut pool: CandidatePool<When> = CandidatePool::new(3);
    assert!(pool.is_empty());
    assert_eq!(pool.observe(A), None);
    assert!(!pool.is_empty());
    assert_eq!(pool.observe(B), None);
    assert_eq!(pool.observe(A), None);
    assert_eq!(pool.observe(B), None);
    assert_eq!(pool.observe(A), Some(A));
}
