//! The course of one remote run: trigger once, then poll until it is over.
//!
//! A `WorkflowRun` is a state machine. The caller hands it what happened and
//! gets back what to do next: send the dispatch, take a sample, sleep, or stop
//! with the outcome. The run starts idle, is triggered once, and is polled at
//! most as often as its budget allows.

use crate::backoff::{backoff_delay, BackoffPolicy};
use crate::error::TriggerError;
use crate::github::{
    dispatch_outcome, DispatchReply, ACCEPTED, GithubWorkflow, PendingResponse, PollOutcome, PollResponse,
    WorkflowIdentity,
};
use vstd::pervasive::unreached;
use vstd::prelude::*;
use vstd::string::StringExecFns;

verus! {

/// The reason given when a run is still not finished after its last poll.
pub open spec fn budget_reason() -> Seq<char> {
    "exceeded retry budget"@
}

/// The reason given when the remote side refuses further requests.
pub open spec fn rate_limit_reason() -> Seq<char> {
    "Hit the github rate limit"@
}

/// How a step ended.
#[derive(Debug, Clone, PartialEq, Eq)]
pub enum StepOutcome {
    /// The run finished well.
    Success,
    /// The run finished badly, or was given up, for the reason given.
    Failure(String),
    /// The run was never started.
    NotTriggered(TriggerError),
    /// The step was not dispatched at all.
    Skipped,
}

/// A `StepOutcome` with its reason as text.
pub enum StepResult {
    Success,
    Failure(Seq<char>),
    NotTriggered(TriggerError),
    Skipped,
}

impl View for StepOutcome {
    type V = StepResult;

    open spec fn view(&self) -> StepResult {
        match self {
            StepOutcome::Success => StepResult::Success,
            StepOutcome::Failure(reason) => StepResult::Failure(reason@),
            StepOutcome::NotTriggered(error) => StepResult::NotTriggered(*error),
            StepOutcome::Skipped => StepResult::Skipped,
        }
    }
}

impl StepOutcome {
    /// A copy of the outcome.
    pub fn duplicate(&self) -> (copy: StepOutcome)
        ensures
            copy@ == self@,
    {
        match self {
            StepOutcome::Success => StepOutcome::Success,
            StepOutcome::Failure(reason) => StepOutcome::Failure(reason.clone()),
            StepOutcome::NotTriggered(error) => StepOutcome::NotTriggered(*error),
            StepOutcome::Skipped => StepOutcome::Skipped,
        }
    }

    /// Whether the step finished well.
    pub fn is_success(&self) -> (success: bool)
        ensures
            success == (self@ == StepResult::Success),
    {
        match self {
            StepOutcome::Success => true,
            _ => false,
        }
    }
}

/// Where a run stands.
#[derive(Debug, Clone, Copy, PartialEq, Eq)]
pub enum RunPhase {
    /// Nothing has been sent.
    Idle,
    /// The dispatch is under way.
    Triggering,
    /// A sample is being taken.
    Polling,
    /// The run was not finished at the last sample; the caller sleeps.
    Backoff,
    /// The run finished well.
    Success,
    /// The run finished badly, was not started, or was given up.
    Failed,
}

/// What the caller reports to a run.
#[derive(Debug, Clone, PartialEq, Eq)]
pub enum DriverEvent {
    /// The caller is ready to begin.
    Start,
    /// The dispatch was sent, with this reply.
    Dispatched(DispatchReply),
    /// A sample was taken, with this result.
    Sampled(PollResponse),
    /// The sleep is over.
    Woke,
}

/// What a run asks the caller to do.
#[derive(Debug, Clone, PartialEq, Eq)]
pub enum DriverAction {
    /// Send the dispatch, then report `Dispatched`.
    Dispatch,
    /// Take a sample, then report `Sampled`.
    Poll,
    /// Sleep for so many seconds, then report `Woke`.
    Sleep(u64),
    /// Stop: the step ended with this outcome.
    Finish(StepOutcome),
}

/// A `DriverEvent` with its reason as text.
pub enum Event {
    Start,
    Dispatched(DispatchReply),
    Sampled(PollOutcome),
    Woke,
}

/// A `DriverAction` with its reason as text.
pub enum Action {
    Dispatch,
    Poll,
    Sleep(u64),
    Finish(StepResult),
}

impl View for DriverEvent {
    type V = Event;

    open spec fn view(&self) -> Event {
        match self {
            DriverEvent::Start => Event::Start,
            DriverEvent::Dispatched(reply) => Event::Dispatched(*reply),
            DriverEvent::Sampled(response) => Event::Sampled(response@),
            DriverEvent::Woke => Event::Woke,
        }
    }
}

impl View for DriverAction {
    type V = Action;

    open spec fn view(&self) -> Action {
        match self {
            DriverAction::Dispatch => Action::Dispatch,
            DriverAction::Poll => Action::Poll,
            DriverAction::Sleep(secs) => Action::Sleep(*secs),
            DriverAction::Finish(outcome) => Action::Finish(outcome@),
        }
    }
}

/// What a run is, for the contracts.
pub struct RunModel {
    pub workflow: WorkflowIdentity,
    pub phase: RunPhase,
    /// The samples taken so far, oldest first.
    pub history: Seq<PollOutcome>,
    /// How many samples may be taken.
    pub max_attempts: nat,
    pub base_secs: u64,
}

impl RunModel {
    /// How many samples were taken.
    pub open spec fn polls(self) -> nat {
        self.history.len()
    }
}

/// One step of a run: the state after the event and the action asked for, or
/// nothing where the event does not fit the state.
pub open spec fn transition(run: RunModel, event: Event) -> Option<(RunModel, Action)> {
    match (run.phase, event) {
        (RunPhase::Idle, Event::Start) => Some(
            (RunModel { phase: RunPhase::Triggering, ..run }, Action::Dispatch),
        ),
        (RunPhase::Triggering, Event::Dispatched(reply)) => match dispatch_outcome(reply) {
            Err(error) => Some(
                (
                    RunModel { phase: RunPhase::Failed, ..run },
                    Action::Finish(StepResult::NotTriggered(error)),
                ),
            ),
            Ok(_) => Some(after_wait(run)),
        },
        (RunPhase::Polling, Event::Sampled(sample)) => {
            let polled = RunModel { history: run.history.push(sample), ..run };
            match sample {
                PollOutcome::Success => Some(
                    (
                        RunModel { phase: RunPhase::Success, ..polled },
                        Action::Finish(StepResult::Success),
                    ),
                ),
                PollOutcome::Failure(reason) => Some(
                    (
                        RunModel { phase: RunPhase::Failed, ..polled },
                        Action::Finish(StepResult::Failure(reason)),
                    ),
                ),
                PollOutcome::Pending(PendingResponse::RateLimit) => Some(
                    (
                        RunModel { phase: RunPhase::Failed, ..polled },
                        Action::Finish(StepResult::Failure(rate_limit_reason())),
                    ),
                ),
                PollOutcome::Pending(PendingResponse::NonComplete) => Some(
                    (
                        RunModel { phase: RunPhase::Backoff, ..polled },
                        Action::Sleep(backoff_delay(run.base_secs, run.polls()) as u64),
                    ),
                ),
            }
        },
        (RunPhase::Backoff, Event::Woke) => Some(after_wait(run)),
        _ => None,
    }
}

/// Where a run goes when it may poll: to the next sample while the budget
/// lasts, to failure when it is spent.
pub open spec fn after_wait(run: RunModel) -> (RunModel, Action) {
    if run.polls() < run.max_attempts {
        (RunModel { phase: RunPhase::Polling, ..run }, Action::Poll)
    } else {
        (
            RunModel { phase: RunPhase::Failed, ..run },
            Action::Finish(StepResult::Failure(budget_reason())),
        )
    }
}

/// One remote run of one workflow.
#[derive(Debug, Clone, PartialEq, Eq)]
pub struct WorkflowRun {
    workflow: GithubWorkflow,
    phase: RunPhase,
    history: Vec<PollResponse>,
    max_attempts: u32,
    policy: BackoffPolicy,
}

impl View for WorkflowRun {
    type V = RunModel;

    closed spec fn view(&self) -> RunModel {
        RunModel {
            workflow: self.workflow@,
            phase: self.phase,
            history: Seq::new(self.history@.len(), |i: int| self.history@[i]@),
            max_attempts: self.max_attempts as nat,
            base_secs: self.policy.base_secs,
        }
    }
}

impl WorkflowRun {
    /// The invariant of the type: no more samples were taken than the budget
    /// allows, and while a sample is being taken the budget is not yet spent.
    pub closed spec fn wf(&self) -> bool {
        &&& self.history@.len() <= self.max_attempts
        &&& self.phase == RunPhase::Polling ==> self.history@.len() < self.max_attempts
        &&& self.phase == RunPhase::Idle || self.phase == RunPhase::Triggering
            ==> self.history@.len() == 0
    }

    /// What the invariant says of the model.
    pub proof fn lemma_wf(&self)
        requires
            self.wf(),
        ensures
            self@.polls() <= self@.max_attempts,
            self@.max_attempts <= u32::MAX,
            self@.phase == RunPhase::Polling ==> self@.polls() < self@.max_attempts,
            self@.phase == RunPhase::Idle || self@.phase == RunPhase::Triggering ==> self@.polls()
                == 0,
    {
    }

    /// Where the run stands.
    pub fn phase(&self) -> (phase: RunPhase)
        ensures
            phase == self@.phase,
    {
        self.phase
    }

    /// How many samples were taken.
    pub fn polls(&self) -> (polls: usize)
        ensures
            polls == self@.polls(),
    {
        self.history.len()
    }

    /// The samples taken so far, oldest first.
    pub fn history(&self) -> (history: &Vec<PollResponse>)
        ensures
            history@.len() == self@.history.len(),
            forall|i: int| 0 <= i < history@.len() ==> (#[trigger] history@[i])@ == self@.history[i],
    {
        &self.history
    }

    /// The workflow that is run.
    pub fn workflow(&self) -> (workflow: &GithubWorkflow)
        ensures
            workflow@ == self@.workflow,
    {
        &self.workflow
    }

    /// Whether the run is over.
    pub fn is_finished(&self) -> (finished: bool)
        ensures
            finished == (self@.phase == RunPhase::Success || self@.phase == RunPhase::Failed),
    {
        match self.phase {
            RunPhase::Success => true,
            RunPhase::Failed => true,
            _ => false,
        }
    }

    /// Takes one event. Where the event fits the state, the run moves on and
    /// says what to do next; where it does not, nothing changes.
    pub fn step(&mut self, event: DriverEvent) -> (action: Option<DriverAction>)
        requires
            old(self).wf(),
        ensures
            final(self).wf(),
            match transition(old(self)@, event@) {
                Some((next, asked)) => final(self)@ == next && action is Some
                    && action->0@ == asked,
                None => final(self)@ == old(self)@ && action is None,
            },
    {
        match (self.phase, event) {
            (RunPhase::Idle, DriverEvent::Start) => {
                self.phase = RunPhase::Triggering;
                Some(DriverAction::Dispatch)
            },
            (RunPhase::Triggering, DriverEvent::Dispatched(reply)) => {
                match GithubWorkflow::trigger_workflow(reply) {
                    Err(error) => {
                        self.phase = RunPhase::Failed;
                        Some(DriverAction::Finish(StepOutcome::NotTriggered(error)))
                    },
                    Ok(_) => Some(self.resume()),
                }
            },
            (RunPhase::Polling, DriverEvent::Sampled(sample)) => {
                let ghost before = self@;
                let taken = self.history.len();
                self.history.push(sample.duplicate());
                assert(self@.history =~= before.history.push(sample@));
                match sample {
                    PollResponse::Success => {
                        self.phase = RunPhase::Success;
                        Some(DriverAction::Finish(StepOutcome::Success))
                    },
                    PollResponse::Failure(reason) => {
                        self.phase = RunPhase::Failed;
                        Some(DriverAction::Finish(StepOutcome::Failure(reason)))
                    },
                    PollResponse::Pending(PendingResponse::RateLimit) => {
                        self.phase = RunPhase::Failed;
                        Some(
                            DriverAction::Finish(
                                StepOutcome::Failure(String::from_str("Hit the github rate limit")),
                            ),
                        )
                    },
                    PollResponse::Pending(PendingResponse::NonComplete) => {
                        self.phase = RunPhase::Backoff;
                        Some(DriverAction::Sleep(self.policy.delay(taken as u32)))
                    },
                }
            },
            (RunPhase::Backoff, DriverEvent::Woke) => Some(self.resume()),
            _ => None,
        }
    }

    /// Goes on to the next sample, or gives up where the budget is spent.
    fn resume(&mut self) -> (action: DriverAction)
        requires
            old(self).history@.len() <= old(self).max_attempts,
        ensures
            final(self).wf(),
            final(self)@ == after_wait(old(self)@).0,
            action@ == after_wait(old(self)@).1,
    {
        if self.history.len() < self.max_attempts as usize {
            self.phase = RunPhase::Polling;
            DriverAction::Poll
        } else {
            self.phase = RunPhase::Failed;
            DriverAction::Finish(StepOutcome::Failure(String::from_str("exceeded retry budget")))
        }
    }
}

/// Whether a sample says that the run is not finished and may be asked again.
pub open spec fn is_waiting(sample: PollOutcome) -> bool {
    sample == PollOutcome::Pending(PendingResponse::NonComplete)
}

/// What polling ends with on a sample that ends it: the sample itself, or
/// failure where the remote side refuses further requests.
pub open spec fn verdict(sample: PollOutcome) -> PollOutcome {
    match sample {
        PollOutcome::Pending(PendingResponse::RateLimit) => PollOutcome::Failure(
            rate_limit_reason(),
        ),
        other => other,
    }
}

/// The step outcome that stands for a verdict.
pub open spec fn as_step_result(outcome: PollOutcome) -> StepResult {
    match outcome {
        PollOutcome::Success => StepResult::Success,
        PollOutcome::Failure(reason) => StepResult::Failure(reason),
        PollOutcome::Pending(_) => StepResult::Skipped,
    }
}

/// A run that is over takes no further event: nothing is sent after the end.
pub proof fn lemma_finished_is_final(run: RunModel, event: Event)
    requires
        run.phase == RunPhase::Success || run.phase == RunPhase::Failed,
    ensures
        transition(run, event) is None,
{
}

/// The first sample that is not "not finished" ends the run, with that sample's
/// verdict, however much of the budget is left; after it no event is taken.
pub proof fn lemma_verdict_ends_run(run: RunModel, sample: PollOutcome, later: Event)
    requires
        run.phase == RunPhase::Polling,
        !is_waiting(sample),
    ensures
        transition(run, Event::Sampled(sample)) matches Some((next, asked)) && asked
            == Action::Finish(as_step_result(verdict(sample))) && next.history
            == run.history.push(sample)
            && (next.phase == RunPhase::Success || next.phase == RunPhase::Failed) && transition(
            next,
            later,
        ) is None,
{
}

/// A sample that reports an exhausted quota fails the run at once, whatever
/// the budget and however little of it is used.
pub proof fn lemma_rate_limit_is_fatal(run: RunModel)
    requires
        run.phase == RunPhase::Polling,
    ensures
        transition(run, Event::Sampled(PollOutcome::Pending(PendingResponse::RateLimit)))
            matches Some((next, asked)) && asked == Action::Finish(
            StepResult::Failure(rate_limit_reason()),
        ) && next.phase == RunPhase::Failed,
{
}

/// The dispatch is asked for once: only an idle run asks for it, and no run
/// becomes idle again.
pub proof fn lemma_dispatch_once(run: RunModel, event: Event)
    ensures
        transition(run, event) matches Some((next, asked)) ==> next.phase != RunPhase::Idle && (
        asked == Action::Dispatch <==> run.phase == RunPhase::Idle),
{
}

/// What polling a run came to on a given sequence of samples.
#[derive(Debug, Clone, PartialEq, Eq)]
pub struct PollTrace {
    /// The verdict, or "not finished" where the samples ended before the run.
    pub outcome: PollResponse,
    /// How many samples were taken.
    pub polls: usize,
    /// The seconds slept after each sample that was not the last word.
    pub waits: Vec<u64>,
}

impl PollTrace {
    /// Whether the last sample taken ended the run.
    pub open spec fn settled(&self, samples: Seq<PollResponse>) -> bool {
        self.polls > 0 && !is_waiting(samples[self.polls - 1]@)
    }

    /// Whether the trace is what polling comes to on `samples` with a budget
    /// of `max_attempts`: samples are taken in turn while they say "not
    /// finished" and the budget lasts, and each of those is followed by a
    /// sleep; the first other sample gives the verdict; the budget spent
    /// without one is a failure; samples that end before that leave the run
    /// not finished.
    pub open spec fn is_trace_of(
        &self,
        samples: Seq<PollResponse>,
        max_attempts: nat,
        base_secs: u64,
    ) -> bool {
        &&& self.polls <= samples.len()
        &&& self.polls <= max_attempts
        &&& forall|i: int| 0 <= i < self.polls - 1 ==> is_waiting(#[trigger] samples[i]@)
        &&& if self.settled(samples) {
            &&& self.outcome@ == verdict(samples[self.polls - 1]@)
            &&& self.waits@.len() == self.polls - 1
        } else if self.polls == max_attempts {
            &&& self.outcome@ == PollOutcome::Failure(budget_reason())
            &&& self.waits@.len() == self.polls
        } else {
            &&& self.polls == samples.len()
            &&& self.outcome@ == PollOutcome::Pending(PendingResponse::NonComplete)
            &&& self.waits@.len() == self.polls
        }
        &&& forall|k: int|
            0 <= k < self.waits@.len() ==> #[trigger] self.waits@[k] == backoff_delay(
                base_secs,
                k as nat,
            )
    }
}

/// The verdict that a finished run's outcome stands for.
fn as_response(outcome: StepOutcome) -> (response: PollResponse)
    requires
        outcome@ is Success || outcome@ is Failure,
    ensures
        as_step_result(response@) == outcome@,
        !(response@ is Pending),
{
    match outcome {
        StepOutcome::Success => PollResponse::Success,
        StepOutcome::Failure(reason) => PollResponse::Failure(reason),
        _ => unreached(),
    }
}

impl GithubWorkflow {
    /// A run of this workflow that has not begun, with a budget of
    /// `max_attempts` samples.
    pub fn run_workflow(&self, max_attempts: u32, policy: BackoffPolicy) -> (run: WorkflowRun)
        ensures
            run.wf(),
            run@ == (RunModel {
                workflow: self@,
                phase: RunPhase::Idle,
                history: Seq::empty(),
                max_attempts: max_attempts as nat,
                base_secs: policy.base_secs,
            }),
    {
        let run = WorkflowRun {
            workflow: self.duplicate(),
            phase: RunPhase::Idle,
            history: Vec::new(),
            max_attempts,
            policy,
        };
        assert(run@.history =~= Seq::<PollOutcome>::empty());
        run
    }

    /// Polls a run of this workflow to its end on samples given beforehand,
    /// in place of the remote side: the dispatch counts as accepted, and each
    /// time the run asks for a sample it gets the next of `samples`.
    pub fn poll_workflow_until_complete(
        &self,
        samples: &Vec<PollResponse>,
        max_attempts: u32,
        policy: BackoffPolicy,
    ) -> (trace: PollTrace)
        ensures
            trace.is_trace_of(samples@, max_attempts as nat, policy.base_secs),
    {
        let mut run = self.run_workflow(max_attempts, policy);
        let mut waits: Vec<u64> = Vec::new();
        let begun = run.step(DriverEvent::Start);
        let accepted = run.step(DriverEvent::Dispatched(DispatchReply::Status(ACCEPTED)));
        match accepted {
            Some(DriverAction::Poll) => {},
            Some(DriverAction::Finish(outcome)) => {
                return PollTrace { outcome: as_response(outcome), polls: 0, waits };
            },
            _ => {
                return unreached();
            },
        }
        let mut taken: usize = 0;
        loop
            invariant
                run.wf(),
                run@.phase == RunPhase::Polling,
                run@.polls() == taken,
                run@.max_attempts == max_attempts,
                run@.base_secs == policy.base_secs,
                taken <= samples@.len(),
                forall|i: int| 0 <= i < taken ==> is_waiting(#[trigger] samples@[i]@),
                waits@.len() == taken,
                forall|k: int|
                    0 <= k < waits@.len() ==> #[trigger] waits@[k] == backoff_delay(
                        policy.base_secs,
                        k as nat,
                    ),
            decreases samples@.len() - taken,
        {
            proof {
                run.lemma_wf();
            }
            if taken == samples.len() {
                return PollTrace {
                    outcome: PollResponse::Pending(PendingResponse::NonComplete),
                    polls: taken,
                    waits,
                };
            }
            let sample = samples[taken].duplicate();
            let asked = run.step(DriverEvent::Sampled(sample));
            taken += 1;
            match asked {
                Some(DriverAction::Finish(outcome)) => {
                    return PollTrace { outcome: as_response(outcome), polls: taken, waits };
                },
                Some(DriverAction::Sleep(secs)) => {
                    waits.push(secs);
                    match run.step(DriverEvent::Woke) {
                        Some(DriverAction::Poll) => {},
                        Some(DriverAction::Finish(outcome)) => {
                            return PollTrace { outcome: as_response(outcome), polls: taken, waits };
                        },
                        _ => {
                            return unreached();
                        },
                    }
                },
                _ => {
                    return unreached();
                },
            }
        }
    }
}

} // verus!
