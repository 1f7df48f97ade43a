//! The escalating termination protocol: the decisions, the report on one
//! run of it, and the log and diagnostic messages it produces. Delivering
//! signals, sleeping out the grace period and writing the diagnostic are
//! left to the caller; every decision is taken here.

use vstd::prelude::*;
use vstd::string::StringExecFns;
use crate::digits::dec_digits;
use crate::units::{format_bytes, spec_format_bytes};

verus! {

/// Milliseconds the protocol waits after a delivered graceful signal.
pub const GRACE_MILLIS: u64 = 100;

/// What delivering the graceful termination signal reported: delivered,
/// explicitly refused, or not supported / target unavailable.
#[derive(Clone, Copy, Debug, PartialEq, Eq, Structural)]
pub enum SignalOutcome {
    Delivered,
    Refused,
    Unsupported,
}

/// How one run of the termination protocol ended.
#[derive(Clone, Copy, Debug, PartialEq, Eq, Structural)]
pub enum TermReport {
    /// The target was already gone when the protocol started.
    TargetGone,
    /// The graceful signal was delivered; the protocol waits out the grace
    /// period and is done.
    GracefulSent,
    /// The graceful signal could not be delivered and the forceful kill
    /// succeeded.
    ForcefulSent,
    /// The graceful signal could not be delivered and the forceful kill
    /// failed as well.
    ForcefulFailed,
}

/// Escalation rule: the forceful kill is issued exactly when the graceful
/// signal was not delivered.
pub fn needs_forceful(graceful: SignalOutcome) -> (r: bool)
    ensures
        r <==> !(graceful is Delivered),
{
    match graceful {
        SignalOutcome::Delivered => false,
        SignalOutcome::Refused => true,
        SignalOutcome::Unsupported => true,
    }
}

/// The protocol's outcome for every combination of observations: whether
/// the target still existed, what the graceful signal reported, and —
/// where the escalation reached it — whether the forceful kill succeeded.
/// Total: no combination is rejected, so the protocol never fails its
/// caller.
pub fn terminate_outcome(found: bool, graceful: SignalOutcome, forceful_delivered: bool) -> (r:
    TermReport)
    ensures
        !found ==> r == TermReport::TargetGone,
        found && graceful is Delivered ==> r == TermReport::GracefulSent,
        found && !(graceful is Delivered) && forceful_delivered ==> r == TermReport::ForcefulSent,
        found && !(graceful is Delivered) && !forceful_delivered ==> r
            == TermReport::ForcefulFailed,
{
    if !found {
        TermReport::TargetGone
    } else if !needs_forceful(graceful) {
        TermReport::GracefulSent
    } else if forceful_delivered {
        TermReport::ForcefulSent
    } else {
        TermReport::ForcefulFailed
    }
}

/// The log line for one run of the protocol: `None` where the target was
/// already gone (nothing is logged), otherwise the reason, the action
/// taken and the target PID.
pub open spec fn spec_kill_log_message(r: TermReport, msg: Seq<char>, pid: u32) -> Option<
    Seq<char>,
> {
    match r {
        TermReport::TargetGone => None,
        TermReport::GracefulSent => Some(
            msg + " - Sent SIGTERM to process "@ + dec_digits(pid as nat),
        ),
        TermReport::ForcefulSent => Some(
            msg + " - Sent SIGKILL to process "@ + dec_digits(pid as nat),
        ),
        TermReport::ForcefulFailed => Some(
            msg + " - Failed to kill process "@ + dec_digits(pid as nat),
        ),
    }
}

/// Builds the log line for a protocol report, `None` where nothing is to
/// be logged.
pub fn kill_log_message(r: TermReport, msg: &str, pid: u32) -> (line: Option<String>)
    ensures
        match line {
            Some(s) => spec_kill_log_message(r, msg@, pid) == Some(s@),
            None => spec_kill_log_message(r, msg@, pid) is None,
        },
{
    let action = match r {
        TermReport::TargetGone => {
            return None;
        },
        TermReport::GracefulSent => " - Sent SIGTERM to process ",
        TermReport::ForcefulSent => " - Sent SIGKILL to process ",
        TermReport::ForcefulFailed => " - Failed to kill process ",
    };
    let mut s = String::from_str(msg);
    s.append(action);
    s.append(crate::digits::u64_to_string(pid as u64).as_str());
    Some(s)
}

/// A failed forceful kill is the one report logged as an error; the rest
/// of the protocol's log lines are informational.
pub fn report_is_error(r: TermReport) -> (b: bool)
    ensures
        b <==> r is ForcefulFailed,
{
    match r {
        TermReport::ForcefulFailed => true,
        _ => false,
    }
}

/// The diagnostic written into the target's error stream before the
/// signals: red terminal colour around the memory usage and the ceiling.
pub open spec fn spec_termination_message(memory: u64, ceiling: u64) -> Seq<char> {
    "\n\u{1b}[31mProcess killed by memguard: Memory usage "@ + spec_format_bytes(memory)
        + " exceeds limit "@ + spec_format_bytes(ceiling) + "\u{1b}[0m\n"@
}

/// Builds the best-effort diagnostic message for the target process.
pub fn termination_message(memory: u64, ceiling: u64) -> (r: String)
    ensures
        r@ == spec_termination_message(memory, ceiling),
{
    let mut s = String::from_str("\n\u{1b}[31mProcess killed by memguard: Memory usage ");
    s.append(format_bytes(memory).as_str());
    s.append(" exceeds limit ");
    s.append(format_bytes(ceiling).as_str());
    s.append("\u{1b}[0m\n");
    s
}

} // verus!
