//! One workflow of one repository, and what its remote side reports.
//!
//! Nothing here talks to the network. The caller performs the requests and
//! hands over what came back as plain values: a status code, the bytes of a
//! header, the name of a status. The functions here say what that means.

use crate::error::TriggerError;
use vstd::prelude::*;
use vstd::string::StringExecFns;

verus! {

/// The branch on which workflows are dispatched.
pub open spec fn dispatch_ref() -> Seq<char> {
    "master"@
}

/// The reason given when the remote side could not be reached for a poll.
pub open spec fn unreachable_reason() -> Seq<char> {
    "Error trying to contact github api endpoint"@
}

/// The reason given when an answer lacks the header that tells how many
/// requests are left.
pub open spec fn missing_quota_reason() -> Seq<char> {
    "Failed to find the remaining rate limit header"@
}

/// The reason given when the body of an answer cannot be read, or names a
/// status that is not known.
pub open spec fn unreadable_reason() -> Seq<char> {
    "failed to deserialize workflow response"@
}

/// The address under which the remote side keeps a workflow: it holds the
/// owner, the repository and the workflow identifier, not the display name.
pub open spec fn workflow_address(workflow: WorkflowIdentity) -> Seq<char> {
    "https://api.github.com/repos/"@ + workflow.owner + "/"@ + workflow.repo
        + "/actions/workflows/"@ + workflow.id
}

/// The address to which a dispatch of a workflow is sent.
pub open spec fn dispatch_address(workflow: WorkflowIdentity) -> Seq<char> {
    workflow_address(workflow) + "/dispatches"@
}

/// The address at which the runs of a workflow are listed.
pub open spec fn runs_address(workflow: WorkflowIdentity) -> Seq<char> {
    workflow_address(workflow) + "/runs"@
}

/// The reason given when the remote side reports the run as failed.
pub open spec fn failed_reason() -> Seq<char> {
    "Workflow failed"@
}

/// The reason given when the remote side reports the run as timed out.
pub open spec fn timed_out_reason() -> Seq<char> {
    "Workflow timed out"@
}

/// The reason given when the remote side reports the run as cancelled.
pub open spec fn cancelled_reason() -> Seq<char> {
    "Workflow cancelled"@
}

/// What identifies a workflow, as text.
pub struct WorkflowIdentity {
    pub name: Seq<char>,
    pub id: Seq<char>,
    pub repo: Seq<char>,
    pub owner: Seq<char>,
}

/// A workflow of a repository: the display name of its step, and the owner,
/// repository and workflow identifier under which the remote side knows it.
#[derive(Debug, Clone, PartialEq, Eq)]
pub struct GithubWorkflow {
    name: String,
    id: String,
    repo: String,
    owner: String,
}

impl View for GithubWorkflow {
    type V = WorkflowIdentity;

    closed spec fn view(&self) -> WorkflowIdentity {
        WorkflowIdentity {
            name: self.name@,
            id: self.id@,
            repo: self.repo@,
            owner: self.owner@,
        }
    }
}

impl GithubWorkflow {
    pub fn new(name: String, repo: String, owner: String, id: String) -> (workflow: Self)
        ensures
            workflow@ == (WorkflowIdentity { name: name@, id: id@, repo: repo@, owner: owner@ }),
    {
        GithubWorkflow { name, owner, repo, id }
    }

    /// The display name of the step.
    pub fn name(&self) -> (name: &String)
        ensures
            name@ == self@.name,
    {
        &self.name
    }

    /// The workflow identifier.
    pub fn id(&self) -> (id: &String)
        ensures
            id@ == self@.id,
    {
        &self.id
    }

    /// The repository.
    pub fn repo(&self) -> (repo: &String)
        ensures
            repo@ == self@.repo,
    {
        &self.repo
    }

    /// The owner of the repository.
    pub fn owner(&self) -> (owner: &String)
        ensures
            owner@ == self@.owner,
    {
        &self.owner
    }

    /// A copy of the workflow.
    pub fn duplicate(&self) -> (copy: GithubWorkflow)
        ensures
            copy@ == self@,
    {
        GithubWorkflow {
            name: self.name.clone(),
            id: self.id.clone(),
            repo: self.repo.clone(),
            owner: self.owner.clone(),
        }
    }

    /// The address under which the remote side keeps the workflow.
    fn address(&self) -> (url: String)
        ensures
            url@ == workflow_address(self@),
    {
        let mut url = String::from_str("https://api.github.com/repos/");
        url.append(self.owner.as_str());
        url.append("/");
        url.append(self.repo.as_str());
        url.append("/actions/workflows/");
        url.append(self.id.as_str());
        url
    }

    /// The address to which a dispatch of the workflow is sent.
    pub fn dispatch_url(&self) -> (url: String)
        ensures
            url@ == dispatch_address(self@),
    {
        let mut url = self.address();
        url.append("/dispatches");
        url
    }

    /// The address at which the runs of the workflow are listed.
    pub fn runs_url(&self) -> (url: String)
        ensures
            url@ == runs_address(self@),
    {
        let mut url = self.address();
        url.append("/runs");
        url
    }

    /// The branch to dispatch the workflow on.
    pub fn git_ref() -> (name: String)
        ensures
            name@ == dispatch_ref(),
    {
        String::from_str("master")
    }
}

/// Why a run is not finished.
#[derive(Debug, Clone, Copy, PartialEq, Eq)]
pub enum PendingResponse {
    /// The remote side refuses further requests for now.
    RateLimit,
    /// The run has not come to an end.
    NonComplete,
}

/// What one look at a run shows.
#[derive(Debug, Clone, PartialEq, Eq)]
pub enum PollResponse {
    Success,
    Failure(String),
    Pending(PendingResponse),
}

/// A `PollResponse` with its reason as text.
pub enum PollOutcome {
    Success,
    Failure(Seq<char>),
    Pending(PendingResponse),
}

impl View for PollResponse {
    type V = PollOutcome;

    open spec fn view(&self) -> PollOutcome {
        match self {
            PollResponse::Success => PollOutcome::Success,
            PollResponse::Failure(reason) => PollOutcome::Failure(reason@),
            PollResponse::Pending(why) => PollOutcome::Pending(*why),
        }
    }
}

impl PollResponse {
    /// A copy of the response.
    pub fn duplicate(&self) -> (copy: PollResponse)
        ensures
            copy@ == self@,
    {
        match self {
            PollResponse::Success => PollResponse::Success,
            PollResponse::Failure(reason) => PollResponse::Failure(reason.clone()),
            PollResponse::Pending(PendingResponse::RateLimit) => PollResponse::Pending(
                PendingResponse::RateLimit,
            ),
            PollResponse::Pending(PendingResponse::NonComplete) => PollResponse::Pending(
                PendingResponse::NonComplete,
            ),
        }
    }
}

/// The state of a run as the remote side names it.
#[derive(Debug, Clone, Copy, PartialEq, Eq)]
pub enum RunStatus {
    Completed,
    ActionRequired,
    Cancelled,
    Failure,
    Neutral,
    Skipped,
    Stale,
    Success,
    TimedOut,
    InProgress,
    Queued,
    Requested,
    Waiting,
}

/// The status that a name stands for, if it stands for one.
pub open spec fn status_named(name: Seq<char>) -> Option<RunStatus> {
    if name == "completed"@ {
        Some(RunStatus::Completed)
    } else if name == "action_required"@ {
        Some(RunStatus::ActionRequired)
    } else if name == "cancelled"@ {
        Some(RunStatus::Cancelled)
    } else if name == "failure"@ {
        Some(RunStatus::Failure)
    } else if name == "neutral"@ {
        Some(RunStatus::Neutral)
    } else if name == "skipped"@ {
        Some(RunStatus::Skipped)
    } else if name == "stale"@ {
        Some(RunStatus::Stale)
    } else if name == "success"@ {
        Some(RunStatus::Success)
    } else if name == "timed_out"@ {
        Some(RunStatus::TimedOut)
    } else if name == "in_progress"@ {
        Some(RunStatus::InProgress)
    } else if name == "queued"@ {
        Some(RunStatus::Queued)
    } else if name == "requested"@ {
        Some(RunStatus::Requested)
    } else if name == "Waiting"@ {
        Some(RunStatus::Waiting)
    } else {
        None
    }
}

/// What a status means for the run: finished well, finished badly with a
/// reason, or not finished.
pub open spec fn status_outcome(status: RunStatus) -> PollOutcome {
    match status {
        RunStatus::Success => PollOutcome::Success,
        RunStatus::Completed => PollOutcome::Success,
        RunStatus::Failure => PollOutcome::Failure(failed_reason()),
        RunStatus::TimedOut => PollOutcome::Failure(timed_out_reason()),
        RunStatus::Cancelled => PollOutcome::Failure(cancelled_reason()),
        _ => PollOutcome::Pending(PendingResponse::NonComplete),
    }
}

/// Whether `name` and `word` are the same text.
fn is_word(name: &String, word: &str) -> (same: bool)
    ensures
        same == (name@ == word@),
{
    *name == String::from_str(word)
}

impl RunStatus {
    /// Reads a status from its name.
    pub fn from_name(name: &str) -> (status: Option<RunStatus>)
        ensures
            status == status_named(name@),
    {
        let name = String::from_str(name);
        if is_word(&name, "completed") {
            Some(RunStatus::Completed)
        } else if is_word(&name, "action_required") {
            Some(RunStatus::ActionRequired)
        } else if is_word(&name, "cancelled") {
            Some(RunStatus::Cancelled)
        } else if is_word(&name, "failure") {
            Some(RunStatus::Failure)
        } else if is_word(&name, "neutral") {
            Some(RunStatus::Neutral)
        } else if is_word(&name, "skipped") {
            Some(RunStatus::Skipped)
        } else if is_word(&name, "stale") {
            Some(RunStatus::Stale)
        } else if is_word(&name, "success") {
            Some(RunStatus::Success)
        } else if is_word(&name, "timed_out") {
            Some(RunStatus::TimedOut)
        } else if is_word(&name, "in_progress") {
            Some(RunStatus::InProgress)
        } else if is_word(&name, "queued") {
            Some(RunStatus::Queued)
        } else if is_word(&name, "requested") {
            Some(RunStatus::Requested)
        } else if is_word(&name, "Waiting") {
            Some(RunStatus::Waiting)
        } else {
            None
        }
    }

    /// What the status means for the run.
    pub fn outcome(self) -> (response: PollResponse)
        ensures
            response@ == status_outcome(self),
    {
        match self {
            RunStatus::Success => PollResponse::Success,
            RunStatus::Completed => PollResponse::Success,
            RunStatus::Failure => PollResponse::Failure(String::from_str("Workflow failed")),
            RunStatus::TimedOut => PollResponse::Failure(String::from_str("Workflow timed out")),
            RunStatus::Cancelled => PollResponse::Failure(String::from_str("Workflow cancelled")),
            _ => PollResponse::Pending(PendingResponse::NonComplete),
        }
    }
}

/// What the body of an answer lists.
#[derive(Debug, Clone, PartialEq, Eq)]
pub enum RunListing {
    /// The body could not be read.
    Unreadable,
    /// The body lists no run.
    NoRun,
    /// The body lists runs; this is the name of the status of the latest.
    Latest(String),
}

/// What came back from asking the remote side for the runs of a workflow.
#[derive(Debug, Clone, PartialEq, Eq)]
pub enum PollSample {
    /// The request failed before an answer came.
    Unreachable,
    /// An answer came: the bytes of the header that tells how many requests
    /// are left, if the answer has that header, and what the body lists.
    Reply { rate_limit_remaining: Option<Vec<u8>>, runs: RunListing },
}

/// Whether the header says that no request is left: it is the one digit `0`.
pub open spec fn quota_exhausted(remaining: Seq<u8>) -> bool {
    remaining.len() == 1 && remaining[0] == 48
}

/// What the body of an answer means: the status of the latest run decides;
/// where no run is listed yet, the run is not finished; a body that cannot be
/// read, or a status that is not known, is a failure.
pub open spec fn listing_outcome(runs: RunListing) -> PollOutcome {
    match runs {
        RunListing::Unreadable => PollOutcome::Failure(unreadable_reason()),
        RunListing::NoRun => PollOutcome::Pending(PendingResponse::NonComplete),
        RunListing::Latest(name) => match status_named(name@) {
            Some(status) => status_outcome(status),
            None => PollOutcome::Failure(unreadable_reason()),
        },
    }
}

/// What a sample means. Every sample has an outcome.
///
/// No answer is a failure, and so is an answer without the header that tells
/// how many requests are left. An exhausted quota is reported whatever the
/// body holds. Otherwise the body decides.
pub open spec fn sample_outcome(sample: PollSample) -> PollOutcome {
    match sample {
        PollSample::Unreachable => PollOutcome::Failure(unreachable_reason()),
        PollSample::Reply { rate_limit_remaining, runs } => match rate_limit_remaining {
            None => PollOutcome::Failure(missing_quota_reason()),
            Some(remaining) => if quota_exhausted(remaining@) {
                PollOutcome::Pending(PendingResponse::RateLimit)
            } else {
                listing_outcome(runs)
            },
        },
    }
}

/// What came back from asking the remote side to start a run.
#[derive(Debug, Clone, Copy, PartialEq, Eq)]
pub enum DispatchReply {
    /// The request failed before an answer came.
    Unreachable,
    /// An answer came with this status code.
    Status(u16),
}

/// The status code with which the remote side accepts a dispatch.
pub const ACCEPTED: u16 = 204;

/// What a reply to a dispatch means: only the accepting status starts a run.
pub open spec fn dispatch_outcome(reply: DispatchReply) -> Result<(), TriggerError> {
    match reply {
        DispatchReply::Unreachable => Err(TriggerError::Transport),
        DispatchReply::Status(code) => if code == ACCEPTED {
            Ok(())
        } else {
            Err(TriggerError::Rejected(code))
        },
    }
}

impl GithubWorkflow {
    /// Whether the header says that no request is left.
    pub fn is_quota_exhausted(remaining: &Vec<u8>) -> (exhausted: bool)
        ensures
            exhausted == quota_exhausted(remaining@),
    {
        remaining.len() == 1 && remaining[0] == 48
    }

    /// Reads what the body of an answer lists.
    pub fn read_listing(runs: &RunListing) -> (response: PollResponse)
        ensures
            response@ == listing_outcome(*runs),
    {
        match runs {
            RunListing::Unreadable => PollResponse::Failure(
                String::from_str("failed to deserialize workflow response"),
            ),
            RunListing::NoRun => PollResponse::Pending(PendingResponse::NonComplete),
            RunListing::Latest(name) => match RunStatus::from_name(name.as_str()) {
                Some(status) => status.outcome(),
                None => PollResponse::Failure(
                    String::from_str("failed to deserialize workflow response"),
                ),
            },
        }
    }

    /// Reads one sample.
    pub fn poll_workflow(sample: &PollSample) -> (response: PollResponse)
        ensures
            response@ == sample_outcome(*sample),
    {
        match sample {
            PollSample::Unreachable => PollResponse::Failure(
                String::from_str("Error trying to contact github api endpoint"),
            ),
            PollSample::Reply { rate_limit_remaining, runs } => match rate_limit_remaining {
                None => PollResponse::Failure(
                    String::from_str("Failed to find the remaining rate limit header"),
                ),
                Some(remaining) => {
                    if Self::is_quota_exhausted(remaining) {
                        PollResponse::Pending(PendingResponse::RateLimit)
                    } else {
                        Self::read_listing(runs)
                    }
                },
            },
        }
    }

    /// Reads the reply to a dispatch.
    pub fn trigger_workflow(reply: DispatchReply) -> (accepted: Result<(), TriggerError>)
        ensures
            accepted == dispatch_outcome(reply),
    {
        match reply {
            DispatchReply::Unreachable => Err(TriggerError::Transport),
            DispatchReply::Status(code) => {
                if code == ACCEPTED {
                    Ok(())
                } else {
                    Err(TriggerError::Rejected(code))
                }
            },
        }
    }
}

} // verus!
