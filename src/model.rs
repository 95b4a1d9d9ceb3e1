//! The domain: voyages, observe targets, payloads, steers and logbook entries.

use vstd::prelude::*;
use crate::error::StorageError;

verus! {

/// A point in time, as nanoseconds since the Unix epoch (UTC).
#[derive(Clone, Copy, Debug, PartialEq, Eq, Structural)]
pub struct Timestamp {
    pub nanos: i128,
}

impl Timestamp {
    /// Builds a timestamp from nanoseconds since the Unix epoch.
    pub fn from_nanos(nanos: i128) -> (r: Timestamp)
        ensures
            r.nanos == nanos,
    {
        Timestamp { nanos }
    }

    /// Whether `self` is strictly earlier than `other`.
    pub fn is_before(&self, other: &Timestamp) -> (r: bool)
        ensures
            r == (self.nanos < other.nanos),
    {
        self.nanos < other.nanos
    }
}

/// Where a voyage stands in its lifecycle.
#[derive(Clone, Debug, PartialEq, Eq)]
pub enum VoyageStatus {
    /// Work is in progress.
    Active,
    /// The voyage is over; `status` is an optional freeform outcome.
    Ended { ended_at: Timestamp, status: Option<String> },
}

/// A unit of work: an identifier, an intent, a creation time and a status.
#[derive(Clone, Debug, PartialEq, Eq)]
pub struct Voyage {
    /// A 128-bit identifier, rendered as hyphenated hex.
    pub id: u128,
    pub intent: String,
    pub created_at: Timestamp,
    pub status: VoyageStatus,
}

/// The plain-value view of a voyage status.
pub ghost enum VoyageStatusView {
    Active,
    Ended { ended_at: Timestamp, status: Option<Seq<char>> },
}

/// The plain-value view of a voyage.
pub ghost struct VoyageView {
    pub id: u128,
    pub intent: Seq<char>,
    pub created_at: Timestamp,
    pub status: VoyageStatusView,
}

impl View for VoyageStatus {
    type V = VoyageStatusView;

    open spec fn view(&self) -> VoyageStatusView {
        match self {
            VoyageStatus::Active => VoyageStatusView::Active,
            VoyageStatus::Ended { ended_at, status } => VoyageStatusView::Ended {
                ended_at: *ended_at,
                status: match status {
                    Some(s) => Some(s@),
                    None => None,
                },
            },
        }
    }
}

impl View for Voyage {
    type V = VoyageView;

    open spec fn view(&self) -> VoyageView {
        VoyageView {
            id: self.id,
            intent: self.intent@,
            created_at: self.created_at,
            status: self.status@,
        }
    }
}

/// A copy of an optional text with the same view.
pub fn copy_text_option(o: &Option<String>) -> (r: Option<String>)
    ensures
        match (o, r) {
            (Some(a), Some(b)) => a@ == b@,
            (None, None) => true,
            _ => false,
        },
{
    match o {
        Some(s) => Some(s.clone()),
        None => None,
    }
}

impl VoyageStatus {
    /// A copy with the same view.
    pub fn duplicate(&self) -> (r: VoyageStatus)
        ensures
            r@ == self@,
    {
        match self {
            VoyageStatus::Active => VoyageStatus::Active,
            VoyageStatus::Ended { ended_at, status } => {
                let s = copy_text_option(status);
                VoyageStatus::Ended { ended_at: *ended_at, status: s }
            },
        }
    }

    /// Whether the status is `Ended`.
    pub fn is_ended(&self) -> (r: bool)
        ensures
            r == (self@ is Ended),
    {
        match self {
            VoyageStatus::Active => false,
            VoyageStatus::Ended { .. } => true,
        }
    }
}

impl Voyage {
    /// Refuses an ended voyage: observing, sealing and changing the slate
    /// are for active voyages.
    pub fn ensure_active(&self) -> (r: Result<(), StorageError>)
        ensures
            match r {
                Ok(()) => self.status@ is Active,
                Err(e) => self.status@ is Ended && e == StorageError::VoyageAlreadyEnded(self.id),
            },
    {
        if self.status.is_ended() {
            Err(StorageError::VoyageAlreadyEnded(self.id))
        } else {
            Ok(())
        }
    }

    /// A copy with the same view.
    pub fn duplicate(&self) -> (r: Voyage)
        ensures
            r@ == self@,
    {
        Voyage {
            id: self.id,
            intent: self.intent.clone(),
            created_at: self.created_at,
            status: self.status.duplicate(),
        }
    }
}

/// Where a comment lands.
#[derive(Clone, Copy, Debug, PartialEq, Eq, Structural)]
pub enum CommentTarget {
    /// A top-level comment on an issue.
    Issue,
    /// A top-level comment on a pull request.
    PullRequest,
    /// A reply to an inline review comment.
    ReviewFeedback { comment_id: u64 },
}

/// An action that mutates collaborative state.
#[derive(Clone, Debug, PartialEq, Eq)]
pub enum Steer {
    /// Comment on an issue, a pull request, or an inline review thread.
    Comment { number: u64, body: String, target: CommentTarget },
    CreateIssue,
    EditIssue,
    CloseIssue,
    CreatePullRequest,
    EditPullRequest,
    ClosePullRequest,
    RequestReview,
    MergePullRequest,
}

/// The plain-value view of a steer.
pub ghost enum SteerView {
    Comment { number: u64, body: Seq<char>, target: CommentTarget },
    CreateIssue,
    EditIssue,
    CloseIssue,
    CreatePullRequest,
    EditPullRequest,
    ClosePullRequest,
    RequestReview,
    MergePullRequest,
}

impl View for Steer {
    type V = SteerView;

    open spec fn view(&self) -> SteerView {
        match self {
            Steer::Comment { number, body, target } => SteerView::Comment {
                number: *number,
                body: body@,
                target: *target,
            },
            Steer::CreateIssue => SteerView::CreateIssue,
            Steer::EditIssue => SteerView::EditIssue,
            Steer::CloseIssue => SteerView::CloseIssue,
            Steer::CreatePullRequest => SteerView::CreatePullRequest,
            Steer::EditPullRequest => SteerView::EditPullRequest,
            Steer::ClosePullRequest => SteerView::ClosePullRequest,
            Steer::RequestReview => SteerView::RequestReview,
            Steer::MergePullRequest => SteerView::MergePullRequest,
        }
    }
}

impl Steer {
    /// A copy with the same view.
    pub fn duplicate(&self) -> (r: Steer)
        ensures
            r@ == self@,
    {
        match self {
            Steer::Comment { number, body, target } => Steer::Comment {
                number: *number,
                body: body.clone(),
                target: *target,
            },
            Steer::CreateIssue => Steer::CreateIssue,
            Steer::EditIssue => Steer::EditIssue,
            Steer::CloseIssue => Steer::CloseIssue,
            Steer::CreatePullRequest => Steer::CreatePullRequest,
            Steer::EditPullRequest => Steer::EditPullRequest,
            Steer::ClosePullRequest => Steer::ClosePullRequest,
            Steer::RequestReview => Steer::RequestReview,
            Steer::MergePullRequest => Steer::MergePullRequest,
        }
    }
}

/// What a logbook entry records: a steer, or a logged status.
#[derive(Clone, Debug, PartialEq, Eq)]
pub enum EntryKind {
    Steer(Steer),
    Log(String),
}

/// The plain-value view of an entry kind.
pub ghost enum EntryKindView {
    Steer(SteerView),
    Log(Seq<char>),
}

impl View for EntryKind {
    type V = EntryKindView;

    open spec fn view(&self) -> EntryKindView {
        match self {
            EntryKind::Steer(s) => EntryKindView::Steer(s@),
            EntryKind::Log(t) => EntryKindView::Log(t@),
        }
    }
}

impl EntryKind {
    /// A copy with the same view.
    pub fn duplicate(&self) -> (r: EntryKind)
        ensures
            r@ == self@,
    {
        match self {
            EntryKind::Steer(s) => EntryKind::Steer(s.duplicate()),
            EntryKind::Log(t) => EntryKind::Log(t.clone()),
        }
    }
}

/// What to look at on an issue.
#[derive(Clone, Copy, Debug, PartialEq, Eq, Structural)]
pub enum IssueFocus {
    Summary,
    Comments,
}

/// What to look at on a pull request.
#[derive(Clone, Copy, Debug, PartialEq, Eq, Structural)]
pub enum PullRequestFocus {
    Summary,
    Files,
    Checks,
    Diff,
    Comments,
    Reviews,
}

/// What to look at on a repository.
#[derive(Clone, Copy, Debug, PartialEq, Eq, Structural)]
pub enum RepositoryFocus {
    Issues,
    PullRequests,
}

/// A value-typed description of something that can be looked at. Two
/// targets are the same target when all their fields are equal.
#[derive(Clone, Debug, PartialEq, Eq)]
pub enum Observe {
    FileContents { paths: Vec<String> },
    DirectoryTree { root: String, skip: Vec<String>, max_depth: Option<u32> },
    RustProject { root: String },
    GitHubIssue { number: u64 },
    GitHubPullRequest { number: u64 },
    GitHubRepository,
}

} // verus!
