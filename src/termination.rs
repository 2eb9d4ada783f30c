//! The termination policy of the loop: reasons, exit codes and limits.

use vstd::prelude::*;
use crate::text::{decimal_digits, owned, push_str, u64_text};

verus! {

/// Why the loop stopped.
#[derive(Debug, Clone, Copy, PartialEq, Eq, Structural)]
pub enum TerminationReason {
    /// The completion promise arrived.
    CompletionPromise,
    /// The iteration limit was reached.
    MaxIterations,
    /// The runtime limit was reached.
    MaxRuntime,
    /// The cost limit was reached.
    MaxCost,
    /// Too many agent runs failed in a row.
    ConsecutiveFailures,
    /// Abandoned tasks were dispatched again too often.
    LoopThrashing,
    /// Too many malformed journal lines in a row.
    ValidationFailure,
    /// Stopped on request.
    Stopped,
    /// Interrupted by a signal.
    Interrupted,
    /// A restart was requested.
    RestartRequested,
}

/// The exit code of each reason: 0 on completion, 2 at a limit, 1 on failure or
/// manual stop, 130 on interrupt, 3 for a restart.
pub open spec fn exit_code_of(r: TerminationReason) -> i32 {
    match r {
        TerminationReason::CompletionPromise => 0,
        TerminationReason::ConsecutiveFailures | TerminationReason::LoopThrashing
        | TerminationReason::ValidationFailure | TerminationReason::Stopped => 1,
        TerminationReason::MaxIterations | TerminationReason::MaxRuntime
        | TerminationReason::MaxCost => 2,
        TerminationReason::Interrupted => 130,
        TerminationReason::RestartRequested => 3,
    }
}

/// The name of each reason in the `loop.terminate` payload.
pub open spec fn reason_name(r: TerminationReason) -> Seq<char> {
    match r {
        TerminationReason::CompletionPromise => "completed"@,
        TerminationReason::MaxIterations => "max_iterations"@,
        TerminationReason::MaxRuntime => "max_runtime"@,
        TerminationReason::MaxCost => "max_cost"@,
        TerminationReason::ConsecutiveFailures => "consecutive_failures"@,
        TerminationReason::LoopThrashing => "loop_thrashing"@,
        TerminationReason::ValidationFailure => "validation_failure"@,
        TerminationReason::Stopped => "stopped"@,
        TerminationReason::Interrupted => "interrupted"@,
        TerminationReason::RestartRequested => "restart_requested"@,
    }
}

/// The human-readable status of each reason.
pub open spec fn status_text(r: TerminationReason) -> Seq<char> {
    match r {
        TerminationReason::CompletionPromise => "All tasks completed successfully."@,
        TerminationReason::MaxIterations => "Stopped at iteration limit."@,
        TerminationReason::MaxRuntime => "Stopped at runtime limit."@,
        TerminationReason::MaxCost => "Stopped at cost limit."@,
        TerminationReason::ConsecutiveFailures => "Too many consecutive failures."@,
        TerminationReason::LoopThrashing => "Loop thrashing detected - same hat repeatedly blocked."@,
        TerminationReason::ValidationFailure => "Too many consecutive malformed JSONL events."@,
        TerminationReason::Stopped => "Manually stopped."@,
        TerminationReason::Interrupted => "Interrupted by signal."@,
        TerminationReason::RestartRequested => "Restarting by human request."@,
    }
}

impl TerminationReason {
    /// The exit code of this reason.
    pub fn exit_code(&self) -> (r: i32)
        ensures
            r == exit_code_of(*self),
    {
        match self {
            TerminationReason::CompletionPromise => 0,
            TerminationReason::ConsecutiveFailures | TerminationReason::LoopThrashing
            | TerminationReason::ValidationFailure | TerminationReason::Stopped => 1,
            TerminationReason::MaxIterations | TerminationReason::MaxRuntime
            | TerminationReason::MaxCost => 2,
            TerminationReason::Interrupted => 130,
            TerminationReason::RestartRequested => 3,
        }
    }

    /// The name of this reason in the `loop.terminate` payload.
    pub fn as_str(&self) -> (r: &'static str)
        ensures
            r@ == reason_name(*self),
    {
        match self {
            TerminationReason::CompletionPromise => "completed",
            TerminationReason::MaxIterations => "max_iterations",
            TerminationReason::MaxRuntime => "max_runtime",
            TerminationReason::MaxCost => "max_cost",
            TerminationReason::ConsecutiveFailures => "consecutive_failures",
            TerminationReason::LoopThrashing => "loop_thrashing",
            TerminationReason::ValidationFailure => "validation_failure",
            TerminationReason::Stopped => "stopped",
            TerminationReason::Interrupted => "interrupted",
            TerminationReason::RestartRequested => "restart_requested",
        }
    }

    /// Whether this reason is a successful completion.
    pub fn is_success(&self) -> (r: bool)
        ensures
            r == (*self == TerminationReason::CompletionPromise),
    {
        matches!(self, TerminationReason::CompletionPromise)
    }
}

/// The human-readable status of `reason`.
pub fn termination_status_text(reason: &TerminationReason) -> (r: &'static str)
    ensures
        r@ == status_text(*reason),
{
    match reason {
        TerminationReason::CompletionPromise => "All tasks completed successfully.",
        TerminationReason::MaxIterations => "Stopped at iteration limit.",
        TerminationReason::MaxRuntime => "Stopped at runtime limit.",
        TerminationReason::MaxCost => "Stopped at cost limit.",
        TerminationReason::ConsecutiveFailures => "Too many consecutive failures.",
        TerminationReason::LoopThrashing => "Loop thrashing detected - same hat repeatedly blocked.",
        TerminationReason::ValidationFailure => "Too many consecutive malformed JSONL events.",
        TerminationReason::Stopped => "Manually stopped.",
        TerminationReason::Interrupted => "Interrupted by signal.",
        TerminationReason::RestartRequested => "Restarting by human request.",
    }
}

/// A duration of `secs` seconds as `Hh Mm Ss`, `Mm Ss` or `Ss`.
pub open spec fn duration_text(secs: nat) -> Seq<char> {
    let h = secs / 3600;
    let m = (secs % 3600) / 60;
    let s = secs % 60;
    if h > 0 {
        decimal_digits(h) + "h "@ + decimal_digits(m) + "m "@ + decimal_digits(s) + "s"@
    } else if m > 0 {
        decimal_digits(m) + "m "@ + decimal_digits(s) + "s"@
    } else {
        decimal_digits(s) + "s"@
    }
}

/// A duration of `secs` seconds, as `duration_text` states.
pub fn format_duration(secs: u64) -> (r: String)
    ensures
        r@ == duration_text(secs as nat),
{
    let h = secs / 3600;
    let m = (secs % 3600) / 60;
    let s = secs % 60;
    let mut out = owned("");
    if h > 0 {
        push_str(&mut out, u64_text(h).as_str());
        push_str(&mut out, "h ");
        push_str(&mut out, u64_text(m).as_str());
        push_str(&mut out, "m ");
    } else if m > 0 {
        push_str(&mut out, u64_text(m).as_str());
        push_str(&mut out, "m ");
    }
    push_str(&mut out, u64_text(s).as_str());
    push_str(&mut out, "s");
    proof {
        reveal_strlit("");
        assert(out@ =~= duration_text(secs as nat));
    }
    out
}

} // verus!
