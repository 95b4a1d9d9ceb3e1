//! Payloads: what came back from looking at a target. The store treats them
//! as opaque canonical JSON.

use vstd::prelude::*;

verus! {

/// What came back from an observation; variants mirror the targets.
#[derive(Clone, Debug, PartialEq, Eq)]
pub enum Payload {
    FileContents { contents: Vec<FileContents> },
    DirectoryTree { listings: Vec<DirectoryListing> },
    RustProject { listings: Vec<DirectoryListing>, contents: Vec<FileContents> },
    GitHubPullRequest(Box<PullRequestPayload>),
    GitHubIssue(Box<IssuePayload>),
    GitHubRepository(Box<RepositoryPayload>),
}

/// What was fetched of a pull request.
#[derive(Clone, Debug, PartialEq, Eq)]
pub struct PullRequestPayload {
    pub summary: Option<GitHubSummary>,
    pub files: Vec<String>,
    pub checks: Vec<CheckRun>,
    pub diff: Option<String>,
    pub comments: Vec<GitHubComment>,
    pub reviews: Vec<ReviewComment>,
}

/// What was fetched of an issue.
#[derive(Clone, Debug, PartialEq, Eq)]
pub struct IssuePayload {
    pub summary: Option<GitHubSummary>,
    pub comments: Vec<GitHubComment>,
}

/// What was fetched of a repository.
#[derive(Clone, Debug, PartialEq, Eq)]
pub struct RepositoryPayload {
    pub issues: Vec<GitHubIssueSummary>,
    pub pull_requests: Vec<GitHubPullRequestSummary>,
}

/// The summary of an issue or pull request.
#[derive(Clone, Debug, PartialEq, Eq)]
pub struct GitHubSummary {
    pub title: String,
    pub number: u64,
    pub state: String,
    pub author: String,
    pub labels: Vec<String>,
    pub assignees: Vec<String>,
    pub head_branch: Option<String>,
    pub base_branch: Option<String>,
    pub body: Option<String>,
}

/// One CI check on a pull request.
#[derive(Clone, Debug, PartialEq, Eq)]
pub struct CheckRun {
    pub name: String,
    pub status: String,
    pub conclusion: Option<String>,
}

/// A top-level comment.
#[derive(Clone, Debug, PartialEq, Eq)]
pub struct GitHubComment {
    pub author: String,
    pub body: String,
    pub created_at: String,
}

/// An inline review comment.
#[derive(Clone, Debug, PartialEq, Eq)]
pub struct ReviewComment {
    pub id: u64,
    pub path: String,
    pub line: Option<u64>,
    pub author: String,
    pub body: String,
    pub created_at: String,
    pub in_reply_to_id: Option<u64>,
}

/// An issue in a repository listing.
#[derive(Clone, Debug, PartialEq, Eq)]
pub struct GitHubIssueSummary {
    pub number: u64,
    pub title: String,
    pub state: String,
    pub author: String,
    pub labels: Vec<String>,
}

/// A pull request in a repository listing.
#[derive(Clone, Debug, PartialEq, Eq)]
pub struct GitHubPullRequestSummary {
    pub number: u64,
    pub title: String,
    pub state: String,
    pub author: String,
    pub labels: Vec<String>,
    pub head_branch: String,
}

/// The entries of one directory.
#[derive(Clone, Debug, PartialEq, Eq)]
pub struct DirectoryListing {
    pub path: String,
    pub entries: Vec<DirectoryEntry>,
}

/// The plain-value view of a directory listing.
pub ghost struct ListingView {
    pub path: Seq<char>,
    pub entries: Seq<DirectoryEntry>,
}

impl View for DirectoryListing {
    type V = ListingView;

    open spec fn view(&self) -> ListingView {
        ListingView { path: self.path@, entries: self.entries@ }
    }
}

/// One entry of a directory; files carry their size.
#[derive(Clone, Debug, PartialEq, Eq)]
pub struct DirectoryEntry {
    pub name: String,
    pub is_dir: bool,
    pub size_bytes: Option<u64>,
}

/// The content read from one path.
#[derive(Clone, Debug, PartialEq, Eq)]
pub struct FileContents {
    pub path: String,
    pub content: FileContent,
}

/// A file's content: text, binary of a size, or the error reading it gave.
#[derive(Clone, Debug, PartialEq, Eq)]
pub enum FileContent {
    Text { content: String },
    Binary { size_bytes: u64 },
    Error { message: String },
}

} // verus!
