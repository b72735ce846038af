use crate::text::{decimal, push_decimal};
use vstd::prelude::*;
use vstd::string::*;

verus! {

/// How starting the proxies of a server went.
#[derive(Debug, PartialEq, Eq, Structural)]
pub enum StartOutcome {
    /// Every proxy started (or there were none).
    AllStarted,
    /// Some, but not all, proxies failed to start; the server goes on.
    SomeFailed { failed: usize, total: usize },
    /// Every one of a positive number of proxies failed: the start fails.
    AllFailed { total: usize },
}

/// The outcome of starting `total` proxies of which `failed` failed.
pub open spec fn spec_start_outcome(total: usize, failed: usize) -> StartOutcome {
    if failed == total && total > 0 {
        StartOutcome::AllFailed { total }
    } else if failed > 0 {
        StartOutcome::SomeFailed { failed, total }
    } else {
        StartOutcome::AllStarted
    }
}

/// Judges the start of `total` proxies of which `failed` failed.
pub fn start_outcome(total: usize, failed: usize) -> (r: StartOutcome)
    requires
        failed <= total,
    ensures
        r == spec_start_outcome(total, failed),
        r is AllFailed <==> failed == total && total > 0,
        r is SomeFailed <==> 0 < failed < total,
        r is AllStarted <==> failed == 0,
        r matches StartOutcome::SomeFailed { failed: f, total: t } ==> f == failed && t == total,
        r matches StartOutcome::AllFailed { total: t } ==> t == total,
{
    if failed == total && total > 0 {
        StartOutcome::AllFailed { total }
    } else if failed > 0 {
        StartOutcome::SomeFailed { failed, total }
    } else {
        StartOutcome::AllStarted
    }
}

/// A start is judged failed exactly when every one of a positive number of
/// proxies failed; it is partial exactly when some but not all failed, and
/// full exactly when none failed. The counts reported are the ones given.
pub proof fn lemma_start_outcome_cases(total: usize, failed: usize)
    requires
        failed <= total,
    ensures
        spec_start_outcome(total, failed) is AllFailed <==> failed == total && total > 0,
        spec_start_outcome(total, failed) is SomeFailed <==> 0 < failed < total,
        spec_start_outcome(total, failed) is AllStarted <==> failed == 0,
        spec_start_outcome(total, failed) matches StartOutcome::SomeFailed { failed: f, total: t }
            ==> f == failed && t == total,
        spec_start_outcome(total, failed) matches StartOutcome::AllFailed { total: t } ==> t
            == total,
{
}

impl StartOutcome {
    /// The text reported for the outcome: the error of a failed start, the
    /// warning of a partial one, nothing for a full one.
    pub open spec fn spec_message(self) -> Option<Seq<char>> {
        match self {
            StartOutcome::AllStarted => None,
            StartOutcome::SomeFailed { failed, total } => Some(
                "warning: "@ + decimal(failed as nat) + "/"@ + decimal(total as nat)
                    + " proxies failed to start, continuing with the rest"@,
            ),
            StartOutcome::AllFailed { total } => Some(
                "all "@ + decimal(total as nat) + " proxies failed to start"@,
            ),
        }
    }

    /// The text reported for the outcome, if any.
    pub fn message(&self) -> (r: Option<String>)
        ensures
            match r {
                Some(s) => self.spec_message() == Some(s@),
                None => self.spec_message() is None,
            },
    {
        match self {
            StartOutcome::AllStarted => None,
            StartOutcome::SomeFailed { failed, total } => {
                let mut s = String::from_str("warning: ");
                push_decimal(&mut s, *failed as u64);
                s.append("/");
                push_decimal(&mut s, *total as u64);
                s.append(" proxies failed to start, continuing with the rest");
                assert(s@ =~= "warning: "@ + decimal(*failed as nat) + "/"@ + decimal(
                    *total as nat,
                ) + " proxies failed to start, continuing with the rest"@);
                Some(s)
            },
            StartOutcome::AllFailed { total } => {
                let mut s = String::from_str("all ");
                push_decimal(&mut s, *total as u64);
                s.append(" proxies failed to start");
                assert(s@ =~= "all "@ + decimal(*total as nat) + " proxies failed to start"@);
                Some(s)
            },
        }
    }
}

} // verus!
