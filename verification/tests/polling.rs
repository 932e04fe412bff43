use mrot::backoff::{BackoffPolicy, DEFAULT_BASE_SECS, DEFAULT_MAX_ATTEMPTS};
use mrot::driver::{DriverAction, DriverEvent, PollTrace, RunPhase, StepOutcome};
use mrot::error::TriggerError;
use mrot::github::{
    DispatchReply, GithubWorkflow, PendingResponse, PollResponse, PollSample, RunListing,
    RunStatus, ACCEPTED,
};

fn workflow() -> GithubWorkflow {
    GithubWorkflow::new(
        "deploy".to_string(),
        "site".to_string(),
        "acme".to_string(),
        "deploy.yml".to_string(),
    )
}

fn waiting() -> PollResponse {
    PollResponse::Pending(PendingResponse::NonComplete)
}

fn budget_spent() -> PollResponse {
    PollResponse::Failure("exceeded retry budget".to_string())
}

#[test]
fn workflow_keeps_what_it_was_made_of() {
    let w = workflow();
    assert_eq!(w.name(), "deploy");
    assert_eq!(w.repo(), "site");
    assert_eq!(w.owner(), "acme");
    assert_eq!(w.id(), "deploy.yml");
    assert_eq!(w.duplicate(), w);
    assert_eq!(GithubWorkflow::git_ref(), "master");
}

#[test]
fn five_pending_samples_spend_a_budget_of_five() {
    let samples = vec![waiting(), waiting(), waiting(), waiting(), waiting(), PollResponse::Success];
    let trace = workflow().poll_workflow_until_complete(&samples, 5, BackoffPolicy::new(4));
    assert_eq!(trace.polls, 5);
    assert_eq!(trace.outcome, budget_spent());
}

#[test]
fn six_pending_samples_spend_a_budget_of_five() {
    let samples = vec![waiting(), waiting(), waiting(), waiting(), waiting(), waiting()];
    let trace = workflow().poll_workflow_until_complete(&samples, 5, BackoffPolicy::new(4));
    assert_eq!(
        trace,
        PollTrace { outcome: budget_spent(), polls: 5, waits: vec![4, 16, 64, 256, 1024] }
    );
}

#[test]
fn success_after_two_pending_samples_takes_three_polls() {
    let samples = vec![waiting(), waiting(), PollResponse::Success];
    let trace = workflow().poll_workflow_until_complete(&samples, 5, BackoffPolicy::new(4));
    assert_eq!(trace, PollTrace { outcome: PollResponse::Success, polls: 3, waits: vec![4, 16] });
}

#[test]
fn first_verdict_ends_polling() {
    let samples = vec![PollResponse::Success, waiting(), PollResponse::Failure("late".to_string())];
    let trace = workflow().poll_workflow_until_complete(&samples, 5, BackoffPolicy::new(4));
    assert_eq!(trace, PollTrace { outcome: PollResponse::Success, polls: 1, waits: vec![] });

    let samples =
        vec![waiting(), PollResponse::Failure("Workflow failed".to_string()), PollResponse::Success];
    let trace = workflow().poll_workflow_until_complete(&samples, 5, BackoffPolicy::new(1));
    assert_eq!(
        trace,
        PollTrace {
            outcome: PollResponse::Failure("Workflow failed".to_string()),
            polls: 2,
            waits: vec![1]
        }
    );
}

#[test]
fn rate_limit_is_fatal_whatever_the_budget() {
    for budget in [1u32, 2, 5, 1000, u32::MAX] {
        let samples = vec![PollResponse::Pending(PendingResponse::RateLimit), PollResponse::Success];
        let trace = workflow().poll_workflow_until_complete(&samples, budget, BackoffPolicy::new(4));
        assert_eq!(trace.outcome, PollResponse::Failure("Hit the github rate limit".to_string()));
        assert_eq!(trace.polls, 1);
        assert_eq!(trace.waits, Vec::<u64>::new());
    }
    let samples = vec![waiting(), PollResponse::Pending(PendingResponse::RateLimit), waiting()];
    let trace = workflow().poll_workflow_until_complete(&samples, 5, BackoffPolicy::new(4));
    assert_eq!(trace.outcome, PollResponse::Failure("Hit the github rate limit".to_string()));
    assert_eq!(trace.polls, 2);
}

#[test]
fn samples_that_end_early_leave_the_run_pending() {
    let samples = vec![waiting(), waiting()];
    let trace = workflow().poll_workflow_until_complete(&samples, 5, BackoffPolicy::new(4));
    assert_eq!(trace, PollTrace { outcome: waiting(), polls: 2, waits: vec![4, 16] });
    let trace = workflow().poll_workflow_until_complete(&vec![], 5, BackoffPolicy::new(4));
    assert_eq!(trace, PollTrace { outcome: waiting(), polls: 0, waits: vec![] });
}

#[test]
fn no_budget_means_no_poll() {
    let samples = vec![PollResponse::Success];
    let trace = workflow().poll_workflow_until_complete(&samples, 0, BackoffPolicy::new(4));
    assert_eq!(trace, PollTrace { outcome: budget_spent(), polls: 0, waits: vec![] });
}

#[test]
fn verdict_at_the_last_attempt_counts() {
    let samples = vec![waiting(), waiting(), PollResponse::Success];
    let trace = workflow().poll_workflow_until_complete(&samples, 3, BackoffPolicy::new(4));
    assert_eq!(trace.outcome, PollResponse::Success);
    assert_eq!(trace.polls, 3);
}

#[test]
fn run_goes_from_idle_to_success() {
    let mut run = workflow().run_workflow(5, BackoffPolicy::new(4));
    assert_eq!(run.phase(), RunPhase::Idle);
    assert_eq!(run.polls(), 0);
    assert_eq!(run.workflow(), &workflow());
    assert!(!run.is_finished());
    assert_eq!(run.step(DriverEvent::Start), Some(DriverAction::Dispatch));
    assert_eq!(run.phase(), RunPhase::Triggering);
    assert_eq!(
        run.step(DriverEvent::Dispatched(DispatchReply::Status(204))),
        Some(DriverAction::Poll)
    );
    assert_eq!(run.phase(), RunPhase::Polling);
    assert_eq!(run.step(DriverEvent::Sampled(waiting())), Some(DriverAction::Sleep(4)));
    assert_eq!(run.phase(), RunPhase::Backoff);
    assert_eq!(run.polls(), 1);
    assert_eq!(run.step(DriverEvent::Woke), Some(DriverAction::Poll));
    assert_eq!(run.step(DriverEvent::Sampled(waiting())), Some(DriverAction::Sleep(16)));
    assert_eq!(run.step(DriverEvent::Woke), Some(DriverAction::Poll));
    assert_eq!(
        run.step(DriverEvent::Sampled(PollResponse::Success)),
        Some(DriverAction::Finish(StepOutcome::Success))
    );
    assert_eq!(run.phase(), RunPhase::Success);
    assert_eq!(run.polls(), 3);
    assert_eq!(run.history(), &vec![waiting(), waiting(), PollResponse::Success]);
    assert!(run.is_finished());
}

#[test]
fn finished_run_takes_no_event() {
    let mut run = workflow().run_workflow(5, BackoffPolicy::new(4));
    run.step(DriverEvent::Start);
    run.step(DriverEvent::Dispatched(DispatchReply::Status(ACCEPTED)));
    run.step(DriverEvent::Sampled(PollResponse::Failure("Workflow cancelled".to_string())));
    assert_eq!(run.phase(), RunPhase::Failed);
    let frozen = run.clone();
    assert_eq!(run.step(DriverEvent::Start), None);
    assert_eq!(run.step(DriverEvent::Dispatched(DispatchReply::Status(204))), None);
    assert_eq!(run.step(DriverEvent::Sampled(PollResponse::Success)), None);
    assert_eq!(run.step(DriverEvent::Woke), None);
    assert_eq!(run, frozen);
}

#[test]
fn event_that_does_not_fit_changes_nothing() {
    let mut run = workflow().run_workflow(5, BackoffPolicy::new(4));
    let idle = run.clone();
    assert_eq!(run.step(DriverEvent::Woke), None);
    assert_eq!(run.step(DriverEvent::Sampled(PollResponse::Success)), None);
    assert_eq!(run.step(DriverEvent::Dispatched(DispatchReply::Status(204))), None);
    assert_eq!(run, idle);
    run.step(DriverEvent::Start);
    let triggering = run.clone();
    assert_eq!(run.step(DriverEvent::Start), None);
    assert_eq!(run.step(DriverEvent::Woke), None);
    assert_eq!(run, triggering);
}

#[test]
fn rejected_dispatch_ends_the_step_without_a_poll() {
    let mut run = workflow().run_workflow(5, BackoffPolicy::new(4));
    run.step(DriverEvent::Start);
    assert_eq!(
        run.step(DriverEvent::Dispatched(DispatchReply::Status(422))),
        Some(DriverAction::Finish(StepOutcome::NotTriggered(TriggerError::Rejected(422))))
    );
    assert_eq!(run.phase(), RunPhase::Failed);
    assert_eq!(run.polls(), 0);

    let mut run = workflow().run_workflow(5, BackoffPolicy::new(4));
    run.step(DriverEvent::Start);
    assert_eq!(
        run.step(DriverEvent::Dispatched(DispatchReply::Unreachable)),
        Some(DriverAction::Finish(StepOutcome::NotTriggered(TriggerError::Transport)))
    );
    assert_eq!(run.phase(), RunPhase::Failed);
}

#[test]
fn budget_is_spent_after_the_last_sleep() {
    let mut run = workflow().run_workflow(2, BackoffPolicy::new(3));
    run.step(DriverEvent::Start);
    run.step(DriverEvent::Dispatched(DispatchReply::Status(204)));
    assert_eq!(run.step(DriverEvent::Sampled(waiting())), Some(DriverAction::Sleep(3)));
    assert_eq!(run.step(DriverEvent::Woke), Some(DriverAction::Poll));
    assert_eq!(run.step(DriverEvent::Sampled(waiting())), Some(DriverAction::Sleep(12)));
    assert_eq!(
        run.step(DriverEvent::Woke),
        Some(DriverAction::Finish(StepOutcome::Failure("exceeded retry budget".to_string())))
    );
    assert_eq!(run.phase(), RunPhase::Failed);
    assert_eq!(run.polls(), 2);
}

#[test]
fn only_the_accepting_status_triggers() {
    assert_eq!(GithubWorkflow::trigger_workflow(DispatchReply::Status(204)), Ok(()));
    assert_eq!(
        GithubWorkflow::trigger_workflow(DispatchReply::Status(200)),
        Err(TriggerError::Rejected(200))
    );
    assert_eq!(
        GithubWorkflow::trigger_workflow(DispatchReply::Status(404)),
        Err(TriggerError::Rejected(404))
    );
    assert_eq!(
        GithubWorkflow::trigger_workflow(DispatchReply::Unreachable),
        Err(TriggerError::Transport)
    );
    assert_eq!(ACCEPTED, 204);
}

fn reply(remaining: &str, status: &str) -> PollSample {
    PollSample::Reply {
        rate_limit_remaining: Some(remaining.as_bytes().to_vec()),
        runs: RunListing::Latest(status.to_string()),
    }
}

fn unreadable() -> PollResponse {
    PollResponse::Failure("failed to deserialize workflow response".to_string())
}

#[test]
fn sample_is_read_by_quota_then_status() {
    let poll = GithubWorkflow::poll_workflow;
    assert_eq!(poll(&reply("59", "success")), PollResponse::Success);
    assert_eq!(poll(&reply("59", "completed")), PollResponse::Success);
    assert_eq!(poll(&reply("59", "failure")), PollResponse::Failure("Workflow failed".to_string()));
    assert_eq!(
        poll(&reply("59", "timed_out")),
        PollResponse::Failure("Workflow timed out".to_string())
    );
    assert_eq!(
        poll(&reply("59", "cancelled")),
        PollResponse::Failure("Workflow cancelled".to_string())
    );
    for status in [
        "action_required",
        "neutral",
        "skipped",
        "stale",
        "in_progress",
        "queued",
        "requested",
        "Waiting",
    ] {
        assert_eq!(poll(&reply("1", status)), waiting());
    }
    assert_eq!(poll(&reply("0", "success")), PollResponse::Pending(PendingResponse::RateLimit));
    assert_eq!(
        poll(&PollSample::Unreachable),
        PollResponse::Failure("Error trying to contact github api endpoint".to_string())
    );
}

#[test]
fn reply_without_runs_is_not_finished() {
    let sample =
        PollSample::Reply { rate_limit_remaining: Some(b"59".to_vec()), runs: RunListing::NoRun };
    assert_eq!(GithubWorkflow::poll_workflow(&sample), waiting());
    assert_eq!(GithubWorkflow::read_listing(&RunListing::NoRun), waiting());
}

#[test]
fn reply_that_cannot_be_read_is_a_failure() {
    let poll = GithubWorkflow::poll_workflow;
    let no_header = PollSample::Reply {
        rate_limit_remaining: None,
        runs: RunListing::Latest("success".to_string()),
    };
    assert_eq!(
        poll(&no_header),
        PollResponse::Failure("Failed to find the remaining rate limit header".to_string())
    );
    let no_header_no_body =
        PollSample::Reply { rate_limit_remaining: None, runs: RunListing::Unreadable };
    assert_eq!(
        poll(&no_header_no_body),
        PollResponse::Failure("Failed to find the remaining rate limit header".to_string())
    );
    let no_body = PollSample::Reply {
        rate_limit_remaining: Some(b"12".to_vec()),
        runs: RunListing::Unreadable,
    };
    assert_eq!(poll(&no_body), unreadable());
    assert_eq!(poll(&reply("12", "waiting")), unreadable());
    assert_eq!(poll(&reply("12", "")), unreadable());
    assert_eq!(GithubWorkflow::read_listing(&RunListing::Unreadable), unreadable());
}

#[test]
fn exhausted_quota_is_reported_whatever_the_body() {
    let poll = GithubWorkflow::poll_workflow;
    let limited = PollResponse::Pending(PendingResponse::RateLimit);
    for runs in [RunListing::Unreadable, RunListing::NoRun, RunListing::Latest("bogus".to_string())]
    {
        let sample = PollSample::Reply { rate_limit_remaining: Some(b"0".to_vec()), runs };
        assert_eq!(poll(&sample), limited);
    }
}

#[test]
fn unreadable_reply_ends_the_run_with_a_failure() {
    let mut run = workflow().run_workflow(5, BackoffPolicy::new(4));
    run.step(DriverEvent::Start);
    run.step(DriverEvent::Dispatched(DispatchReply::Status(ACCEPTED)));
    let sample =
        PollSample::Reply { rate_limit_remaining: None, runs: RunListing::Unreadable };
    let response = GithubWorkflow::poll_workflow(&sample);
    assert_eq!(
        run.step(DriverEvent::Sampled(response)),
        Some(DriverAction::Finish(StepOutcome::Failure(
            "Failed to find the remaining rate limit header".to_string()
        )))
    );
    assert_eq!(run.phase(), RunPhase::Failed);
}

#[test]
fn addresses_hold_owner_repository_and_identifier() {
    let w = workflow();
    assert_eq!(
        w.dispatch_url(),
        "https://api.github.com/repos/acme/site/actions/workflows/deploy.yml/dispatches"
    );
    assert_eq!(w.runs_url(), "https://api.github.com/repos/acme/site/actions/workflows/deploy.yml/runs");
    let other = GithubWorkflow::new(
        "shown name".to_string(),
        "r".to_string(),
        "o".to_string(),
        "42".to_string(),
    );
    assert_eq!(other.dispatch_url(), "https://api.github.com/repos/o/r/actions/workflows/42/dispatches");
    assert_eq!(other.runs_url(), "https://api.github.com/repos/o/r/actions/workflows/42/runs");
}

#[test]
fn quota_is_exhausted_only_at_the_digit_zero() {
    assert!(GithubWorkflow::is_quota_exhausted(&b"0".to_vec()));
    assert!(!GithubWorkflow::is_quota_exhausted(&b"1".to_vec()));
    assert!(!GithubWorkflow::is_quota_exhausted(&b"00".to_vec()));
    assert!(!GithubWorkflow::is_quota_exhausted(&b"10".to_vec()));
    assert!(!GithubWorkflow::is_quota_exhausted(&b"".to_vec()));
    assert!(!GithubWorkflow::is_quota_exhausted(&vec![0u8]));
}

#[test]
fn status_is_read_from_its_name() {
    assert_eq!(RunStatus::from_name("completed"), Some(RunStatus::Completed));
    assert_eq!(RunStatus::from_name("action_required"), Some(RunStatus::ActionRequired));
    assert_eq!(RunStatus::from_name("cancelled"), Some(RunStatus::Cancelled));
    assert_eq!(RunStatus::from_name("failure"), Some(RunStatus::Failure));
    assert_eq!(RunStatus::from_name("neutral"), Some(RunStatus::Neutral));
    assert_eq!(RunStatus::from_name("skipped"), Some(RunStatus::Skipped));
    assert_eq!(RunStatus::from_name("stale"), Some(RunStatus::Stale));
    assert_eq!(RunStatus::from_name("success"), Some(RunStatus::Success));
    assert_eq!(RunStatus::from_name("timed_out"), Some(RunStatus::TimedOut));
    assert_eq!(RunStatus::from_name("in_progress"), Some(RunStatus::InProgress));
    assert_eq!(RunStatus::from_name("queued"), Some(RunStatus::Queued));
    assert_eq!(RunStatus::from_name("requested"), Some(RunStatus::Requested));
    assert_eq!(RunStatus::from_name("Waiting"), Some(RunStatus::Waiting));
    assert_eq!(RunStatus::from_name("waiting"), None);
    assert_eq!(RunStatus::from_name("Success"), None);
    assert_eq!(RunStatus::from_name(""), None);
    assert_eq!(RunStatus::from_name("success "), None);
}

#[test]
fn status_outcome_matches_sample_reading() {
    assert_eq!(RunStatus::Success.outcome(), PollResponse::Success);
    assert_eq!(RunStatus::Queued.outcome(), waiting());
    assert_eq!(RunStatus::Failure.outcome(), PollResponse::Failure("Workflow failed".to_string()));
}

#[test]
fn backoff_grows_fourfold_from_its_base() {
    let policy = BackoffPolicy::new(4);
    assert_eq!(policy.delay(0), 4);
    assert_eq!(policy.delay(1), 16);
    assert_eq!(policy.delay(2), 64);
    assert_eq!(policy.delay(10), 4_194_304);
    assert_eq!(BackoffPolicy::new(1).delay(0), 1);
    assert_eq!(BackoffPolicy::new(1).delay(31), 1u64 << 62);
    assert_eq!(BackoffPolicy::new(3).delay(3), 192);
}

#[test]
fn backoff_stops_at_the_largest_number() {
    assert_eq!(BackoffPolicy::new(1).delay(32), u64::MAX);
    assert_eq!(BackoffPolicy::new(1).delay(u32::MAX), u64::MAX);
    assert_eq!(BackoffPolicy::new(u64::MAX).delay(0), u64::MAX);
    assert_eq!(BackoffPolicy::new(u64::MAX).delay(1), u64::MAX);
    assert_eq!(BackoffPolicy::new((1u64 << 62) - 1).delay(1), u64::MAX - 3);
    assert_eq!(BackoffPolicy::new(1u64 << 62).delay(1), u64::MAX);
    assert_eq!(BackoffPolicy::new(0).delay(0), 0);
    assert_eq!(BackoffPolicy::new(0).delay(u32::MAX), 0);
}

#[test]
fn default_policy_starts_at_four_seconds() {
    assert_eq!(BackoffPolicy::default(), BackoffPolicy::new(4));
    assert_eq!(DEFAULT_BASE_SECS, 4);
    assert_eq!(DEFAULT_MAX_ATTEMPTS, 11);
}

#[test]
fn step_outcome_knows_success() {
    assert!(StepOutcome::Success.is_success());
    assert!(!StepOutcome::Failure("x".to_string()).is_success());
    assert!(!StepOutcome::NotTriggered(TriggerError::Transport).is_success());
    assert!(!StepOutcome::Skipped.is_success());
    let failed = StepOutcome::Failure("x".to_string());
    assert_eq!(failed.duplicate(), failed);
    assert_eq!(waiting().duplicate(), waiting());
    assert_eq!(
        PollResponse::Failure("y".to_string()).duplicate(),
        PollResponse::Failure("y".to_string())
    );
}
