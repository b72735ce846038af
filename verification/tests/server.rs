use proxy::{start_outcome, StartOutcome};

#[test]
fn no_failure_starts() {
    assert_eq!(start_outcome(3, 0), StartOutcome::AllStarted);
    assert_eq!(start_outcome(0, 0), StartOutcome::AllStarted);
    assert_eq!(start_outcome(3, 0).message(), None);
}

#[test]
fn some_failures_warn() {
    let o = start_outcome(3, 1);
    assert_eq!(o, StartOutcome::SomeFailed { failed: 1, total: 3 });
    assert_eq!(
        o.message().unwrap(),
        "warning: 1/3 proxies failed to start, continuing with the rest"
    );
}

#[test]
fn all_failures_fail() {
    let o = start_outcome(12, 12);
    assert_eq!(o, StartOutcome::AllFailed { total: 12 });
    assert_eq!(o.message().unwrap(), "all 12 proxies failed to start");
}
