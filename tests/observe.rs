use helm::model::{CommentTarget, Observe, Steer};
use helm::observe::{describe_target, observe_file_contents};
use helm::payload::{FileContent, Payload};
use helm::steer::perform;

#[test]
fn read_nonexistent_file_returns_error() {
    let paths = vec!["/nonexistent/file.txt".to_string()];
    let reads = vec![Err("No such file or directory (os error 2)".to_string())];
    let Payload::FileContents { contents } = observe_file_contents(&paths, &reads) else {
        panic!("expected FileContents payload");
    };

    assert_eq!(contents.len(), 1);
    assert!(matches!(&contents[0].content, FileContent::Error { .. }));
}

#[test]
fn text_binary_and_empty_are_told_apart() {
    let paths = vec!["a.txt".to_string(), "image.bin".to_string(), "empty.txt".to_string()];
    let reads = vec![
        Ok(b"hello world".to_vec()),
        Ok(vec![0xFF, 0xFE, 0x00, 0x01, 0x80]),
        Ok(Vec::new()),
    ];
    let Payload::FileContents { contents } = observe_file_contents(&paths, &reads) else {
        panic!("expected FileContents payload");
    };
    assert_eq!(contents.len(), 3);
    assert_eq!(contents[0].path, "a.txt");
    assert!(matches!(&contents[0].content, FileContent::Text { content } if content == "hello world"));
    assert!(matches!(&contents[1].content, FileContent::Binary { size_bytes: 5 }));
    assert!(matches!(&contents[2].content, FileContent::Text { content } if content.is_empty()));
}

#[test]
fn read_empty_paths() {
    let Payload::FileContents { contents } = observe_file_contents(&Vec::new(), &Vec::new()) else {
        panic!("expected FileContents payload");
    };
    assert!(contents.is_empty());
}

#[test]
fn targets_are_described() {
    let files = Observe::FileContents { paths: vec!["a".to_string(), "b".to_string()] };
    assert_eq!(describe_target(&files), "2 file(s)");
    let tree = Observe::DirectoryTree { root: "src/".to_string(), skip: vec![], max_depth: None };
    assert_eq!(describe_target(&tree), "directory tree at src/");
    assert_eq!(describe_target(&Observe::RustProject { root: ".".to_string() }), "Rust project at .");
    assert_eq!(describe_target(&Observe::GitHubPullRequest { number: 45 }), "PR #45");
    assert_eq!(describe_target(&Observe::GitHubIssue { number: 7 }), "issue #7");
    assert_eq!(describe_target(&Observe::GitHubRepository), "repository");
}

#[test]
fn comment_steers_become_gh_arguments() {
    let steer = Steer::Comment { number: 42, body: "Here's my plan.".into(), target: CommentTarget::Issue };
    assert_eq!(perform(&steer).unwrap(), vec!["issue", "comment", "42", "--body", "Here's my plan."]);
    let steer = Steer::Comment { number: 3, body: "ok".into(), target: CommentTarget::PullRequest };
    assert_eq!(perform(&steer).unwrap(), vec!["pr", "comment", "3", "--body", "ok"]);
    let steer = Steer::Comment {
        number: 3,
        body: "thanks".into(),
        target: CommentTarget::ReviewFeedback { comment_id: 991 },
    };
    assert_eq!(
        perform(&steer).unwrap(),
        vec!["api", "repos/{owner}/{repo}/pulls/comments/991/replies", "--method", "POST", "-f", "body=thanks"]
    );
}

#[test]
fn other_steers_are_not_performed_yet() {
    assert_eq!(perform(&Steer::MergePullRequest).unwrap_err(), "this steer action is not yet implemented");
}

use helm::model::{IssueFocus, PullRequestFocus, RepositoryFocus};
use helm::observe::{
    observe_directory_tree, observe_github_issue, observe_github_pull_request, observe_github_repository,
    WalkedEntry,
};
use helm::payload::{
    DirectoryEntry, GitHubComment, GitHubIssueSummary, GitHubSummary, IssuePayload, PullRequestPayload,
    RepositoryPayload,
};

fn summary() -> GitHubSummary {
    GitHubSummary {
        title: "Crash on start".into(),
        number: 42,
        state: "OPEN".into(),
        author: "alice".into(),
        labels: vec!["bug".into()],
        assignees: vec![],
        head_branch: None,
        base_branch: None,
        body: Some("It crashes.".into()),
    }
}

fn comment() -> GitHubComment {
    GitHubComment { author: "bob".into(), body: "Same here".into(), created_at: "2024-01-01T00:00:00Z".into() }
}

#[test]
fn issue_focus_defaults_to_summary() {
    let fetched = IssuePayload { summary: Some(summary()), comments: vec![comment()] };
    let Payload::GitHubIssue(p) = observe_github_issue(&[], fetched.clone()) else {
        panic!("expected an issue payload");
    };
    assert_eq!(p.summary, Some(summary()));
    assert!(p.comments.is_empty());

    let Payload::GitHubIssue(p) = observe_github_issue(&[IssueFocus::Comments], fetched) else {
        panic!("expected an issue payload");
    };
    assert_eq!(p.summary, None);
    assert_eq!(p.comments, vec![comment()]);
}

#[test]
fn pull_request_keeps_only_the_focused_parts() {
    let fetched = PullRequestPayload {
        summary: Some(summary()),
        files: vec!["src/main.rs".into()],
        checks: vec![],
        diff: Some("+fn main() {}".into()),
        comments: vec![comment()],
        reviews: vec![],
    };
    let Payload::GitHubPullRequest(p) =
        observe_github_pull_request(&[PullRequestFocus::Files, PullRequestFocus::Diff], fetched)
    else {
        panic!("expected a pull request payload");
    };
    assert_eq!(p.summary, None);
    assert_eq!(p.files, vec!["src/main.rs".to_string()]);
    assert_eq!(p.diff.as_deref(), Some("+fn main() {}"));
    assert!(p.comments.is_empty());
}

#[test]
fn repository_focus_defaults_to_both_listings() {
    let issue = GitHubIssueSummary {
        number: 1,
        title: "t".into(),
        state: "OPEN".into(),
        author: "a".into(),
        labels: vec![],
    };
    let fetched = RepositoryPayload { issues: vec![issue.clone()], pull_requests: vec![] };
    let Payload::GitHubRepository(p) = observe_github_repository(&[], fetched.clone()) else {
        panic!("expected a repository payload");
    };
    assert_eq!(p.issues, vec![issue]);
    let Payload::GitHubRepository(p) = observe_github_repository(&[RepositoryFocus::PullRequests], fetched) else {
        panic!("expected a repository payload");
    };
    assert!(p.issues.is_empty());
}

fn walked(parent: &str, name: &str, is_dir: bool) -> WalkedEntry {
    WalkedEntry {
        parent: parent.into(),
        entry: DirectoryEntry { name: name.into(), is_dir, size_bytes: if is_dir { None } else { Some(1) } },
    }
}

#[test]
fn walk_is_grouped_by_parent_directory() {
    let entries = vec![
        walked("root", "README.md", false),
        walked("root", "src", true),
        walked("root/src", "main.rs", false),
        walked("root/src", "util", true),
        walked("root/src/util", "helpers.rs", false),
        walked("root", "zeta.txt", false),
    ];
    let Payload::DirectoryTree { listings } = observe_directory_tree(entries) else {
        panic!("expected DirectoryTree payload");
    };
    let paths: Vec<&str> = listings.iter().map(|l| l.path.as_str()).collect();
    assert_eq!(paths, vec!["root", "root/src", "root/src/util"]);
    let names: Vec<&str> = listings[0].entries.iter().map(|e| e.name.as_str()).collect();
    assert_eq!(names, vec!["README.md", "src", "zeta.txt"]);
    assert_eq!(listings[2].entries.len(), 1);
}

#[test]
fn empty_walk_has_no_listings() {
    let Payload::DirectoryTree { listings } = observe_directory_tree(Vec::new()) else {
        panic!("expected DirectoryTree payload");
    };
    assert!(listings.is_empty());
}

use helm::columns::{decode_status, encode_status};
use helm::error::StorageError;
use helm::model::{Timestamp, VoyageStatus};
use helm::observe::{check_run, eq_ignore_ascii_case, is_doc_file};

#[test]
fn doc_files_are_recognised() {
    assert!(is_doc_file("README.md", false, Some("src")));
    assert!(is_doc_file("License", false, None));
    assert!(is_doc_file("design.MD", false, Some("Docs")));
    assert!(is_doc_file("notes.md", true, Some("project")));
    assert!(!is_doc_file("notes.md", false, Some("src")));
    assert!(!is_doc_file(".md", true, None));
    assert!(!is_doc_file("main.rs", true, None));
    assert!(eq_ignore_ascii_case("VISION.md", "vision.md"));
}

#[test]
fn check_states_map_to_status_and_conclusion() {
    let c = check_run("ci".into(), "SUCCESS");
    assert_eq!((c.status.as_str(), c.conclusion.as_deref()), ("completed", Some("success")));
    let c = check_run("ci".into(), "FAILURE");
    assert_eq!((c.status.as_str(), c.conclusion.as_deref()), ("completed", Some("failure")));
    let c = check_run("ci".into(), "PENDING");
    assert_eq!((c.status.as_str(), c.conclusion), ("in_progress", None));
    let c = check_run("lint".into(), "SKIPPED");
    assert_eq!((c.name.as_str(), c.status.as_str(), c.conclusion), ("lint", "skipped", None));
}

#[test]
fn status_columns_round_trip() {
    assert_eq!(encode_status(&VoyageStatus::Active), ("active", None, None));
    let ended = VoyageStatus::Ended { ended_at: Timestamp::from_nanos(5), status: Some("Done.".into()) };
    let (s, at, outcome) = encode_status(&ended);
    assert_eq!((s, at, outcome.as_deref()), ("ended", Some(Timestamp::from_nanos(5)), Some("Done.")));
    assert_eq!(decode_status(s, at, outcome).unwrap(), ended);
    assert_eq!(decode_status("active", None, None).unwrap(), VoyageStatus::Active);
    assert!(matches!(decode_status("ended", None, None), Err(StorageError::TimeParse(_))));
    assert!(matches!(decode_status("paused", None, None), Err(StorageError::Database(_))));
}

use helm::observe::{observe_from_target, ObserveTarget};

#[test]
fn command_line_targets_become_observe_targets() {
    assert_eq!(
        observe_from_target(ObserveTarget::FileContents { read: vec![] }).unwrap_err(),
        "specify at least one --read"
    );
    assert_eq!(
        observe_from_target(ObserveTarget::FileContents { read: vec!["a".into()] }).unwrap(),
        Observe::FileContents { paths: vec!["a".into()] }
    );
    assert_eq!(
        observe_from_target(ObserveTarget::RustProject { path: ".".into() }).unwrap(),
        Observe::RustProject { root: ".".into() }
    );
    assert_eq!(
        observe_from_target(ObserveTarget::GitHubIssue { number: 4 }).unwrap(),
        Observe::GitHubIssue { number: 4 }
    );
}
