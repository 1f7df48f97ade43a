use memguard::protocol::{
    kill_log_message, needs_forceful, report_is_error, terminate_outcome, termination_message,
    SignalOutcome, TermReport, GRACE_MILLIS,
};

#[test]
fn grace_period_is_100ms() {
    assert_eq!(GRACE_MILLIS, 100);
}

#[test]
fn forceful_kill_exactly_when_graceful_not_delivered() {
    assert!(!needs_forceful(SignalOutcome::Delivered));
    assert!(needs_forceful(SignalOutcome::Refused));
    assert!(needs_forceful(SignalOutcome::Unsupported));
}

#[test]
fn terminate_outcome_is_total_and_never_fails() {
    // every combination of observations completes with a report
    let outcomes = [
        SignalOutcome::Delivered,
        SignalOutcome::Refused,
        SignalOutcome::Unsupported,
    ];
    for found in [false, true] {
        for graceful in outcomes {
            for forceful in [false, true] {
                let r = terminate_outcome(found, graceful, forceful);
                if !found {
                    assert_eq!(r, TermReport::TargetGone);
                } else if graceful == SignalOutcome::Delivered {
                    assert_eq!(r, TermReport::GracefulSent);
                } else if forceful {
                    assert_eq!(r, TermReport::ForcefulSent);
                } else {
                    assert_eq!(r, TermReport::ForcefulFailed);
                }
            }
        }
    }
}

#[test]
fn gone_target_at_every_step_is_absorbed() {
    // target vanished before the lookup
    assert_eq!(
        terminate_outcome(false, SignalOutcome::Unsupported, false),
        TermReport::TargetGone
    );
    // vanished between lookup and graceful signal
    assert_eq!(
        terminate_outcome(true, SignalOutcome::Unsupported, true),
        TermReport::ForcefulSent
    );
    // vanished before the forceful kill as well
    assert_eq!(
        terminate_outcome(true, SignalOutcome::Unsupported, false),
        TermReport::ForcefulFailed
    );
}

#[test]
fn kill_log_lines() {
    assert_eq!(kill_log_message(TermReport::TargetGone, "Memory limit exceeded", 7), None);
    assert_eq!(
        kill_log_message(TermReport::GracefulSent, "Memory limit exceeded", 7),
        Some(String::from("Memory limit exceeded - Sent SIGTERM to process 7"))
    );
    assert_eq!(
        kill_log_message(TermReport::ForcefulSent, "Coupled process (port 8000)", 4242),
        Some(String::from("Coupled process (port 8000) - Sent SIGKILL to process 4242"))
    );
    assert_eq!(
        kill_log_message(TermReport::ForcefulFailed, "Memory limit exceeded", 7),
        Some(String::from("Memory limit exceeded - Failed to kill process 7"))
    );
}

#[test]
fn only_a_failed_forceful_kill_is_an_error() {
    assert!(!report_is_error(TermReport::TargetGone));
    assert!(!report_is_error(TermReport::GracefulSent));
    assert!(!report_is_error(TermReport::ForcefulSent));
    assert!(report_is_error(TermReport::ForcefulFailed));
}

#[test]
fn diagnostic_message_embeds_usage_and_ceiling() {
    let m = termination_message(2 * 1024 * 1024 * 1024, 1024 * 1024 * 1024);
    let expected = format!(
        "\n\x1b[31mProcess killed by memguard: Memory usage {} exceeds limit {}\x1b[0m\n",
        "2.00 GB", "1.00 GB"
    );
    assert_eq!(m, expected);
}
