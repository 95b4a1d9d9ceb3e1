use helm::actions::{format_action, format_issue_focuses, format_pr_focuses, format_repo_focuses};
use helm::actions::{ActionKind, IssueAction, PullRequestAction};
use helm::model::{IssueFocus, PullRequestFocus, RepositoryFocus};

#[test]
fn parse_pr_number_from_url() {
    let url = "https://github.com/dyreby/helm/pull/45\n";
    assert_eq!(helm::actions::parse_pr_number(url).unwrap(), 45);
}

#[test]
fn parse_pr_number_invalid() {
    assert!(helm::actions::parse_pr_number("not a url").is_err());
}

#[test]
fn parse_issue_number_from_url() {
    let url = "https://github.com/dyreby/helm/issues/42\n";
    assert_eq!(helm::actions::parse_issue_number(url).unwrap(), 42);
}

#[test]
fn parse_issue_number_invalid() {
    assert!(helm::actions::parse_issue_number("not a url").is_err());
}

#[test]
fn cli_parse_pr_number_from_github_url() {
    let url = "https://github.com/dyreby/helm/pull/45";
    assert_eq!(helm::actions::parse_pr_number_from_url(url).unwrap(), 45);
}

#[test]
fn cli_parse_issue_number_from_github_url() {
    let url = "https://github.com/dyreby/helm/issues/12";
    assert_eq!(helm::actions::parse_issue_number_from_url(url).unwrap(), 12);
}

#[test]
fn actions_parse_pr_number_from_github_url() {
    let url = "https://github.com/dyreby/helm/pull/45";
    assert_eq!(helm::actions::parse_pr_number_from_url(url).unwrap(), 45);
}

#[test]
fn actions_parse_issue_number_from_github_url() {
    let url = "https://github.com/dyreby/helm/issues/12";
    assert_eq!(helm::actions::parse_issue_number_from_url(url).unwrap(), 12);
}

fn check_commit() {
    let kind = ActionKind::Commit { sha: "abc1234".to_string() };
    assert_eq!(format_action(&kind), "committed (abc1234)");
}

fn check_push() {
    let kind = ActionKind::Push { branch: "main".to_string(), sha: "abc1234".to_string() };
    assert_eq!(format_action(&kind), "pushed to main (abc1234)");
}

fn check_pr_kinds() {
    let cases = [
        (PullRequestAction::Create, "created PR #10"),
        (PullRequestAction::Merge, "merged PR #10"),
        (PullRequestAction::Comment, "commented on PR #10"),
        (PullRequestAction::Reply, "replied on PR #10"),
        (
            PullRequestAction::RequestedReview { reviewers: vec!["alice".to_string()] },
            "requested review on PR #10",
        ),
    ];
    for (pr_action, expected) in cases {
        let kind = ActionKind::PullRequest { number: 10, action: pr_action };
        assert_eq!(format_action(&kind), expected);
    }
}

fn check_issue_kinds() {
    let cases = [
        (IssueAction::Create, "created issue #5"),
        (IssueAction::Close, "closed issue #5"),
        (IssueAction::Comment, "commented on issue #5"),
    ];
    for (issue_action, expected) in cases {
        let kind = ActionKind::Issue { number: 5, action: issue_action };
        assert_eq!(format_action(&kind), expected);
    }
}

#[test]
fn cli_format_commit_action_kind() {
    check_commit();
}

#[test]
fn cli_format_push_action_kind() {
    check_push();
}

#[test]
fn cli_format_pr_action_kinds() {
    check_pr_kinds();
}

#[test]
fn cli_format_issue_action_kinds() {
    check_issue_kinds();
}

#[test]
fn format_format_commit_action_kind() {
    check_commit();
}

#[test]
fn format_format_push_action_kind() {
    check_push();
}

#[test]
fn format_format_pr_action_kinds() {
    check_pr_kinds();
}

#[test]
fn format_format_issue_action_kinds() {
    check_issue_kinds();
}

#[test]
fn parse_accepts_plus_sign_and_rejects_overflow() {
    assert_eq!(helm::actions::parse_pr_number_from_url("https://x/pull/+7").unwrap(), 7);
    assert_eq!(
        helm::actions::parse_pr_number_from_url("https://x/pull/18446744073709551615").unwrap(),
        u64::MAX
    );
    assert!(helm::actions::parse_pr_number_from_url("https://x/pull/18446744073709551616").is_err());
    assert!(helm::actions::parse_pr_number_from_url("https://x/pull/").is_err());
    assert!(helm::actions::parse_pr_number_from_url("https://x/pull/-3").is_err());
}

#[test]
fn parse_error_names_the_url() {
    assert_eq!(
        helm::actions::parse_issue_number("nope").unwrap_err(),
        "could not parse issue number from: nope"
    );
    assert_eq!(
        helm::actions::parse_pr_number_from_url("x/y").unwrap_err(),
        "could not parse PR number from: x/y"
    );
}

#[test]
fn trimming_drops_surrounding_whitespace_only() {
    assert_eq!(helm::actions::parse_pr_number("  https://github.com/o/r/pull/9 \t\n").unwrap(), 9);
    assert!(helm::actions::parse_pr_number_from_url("https://github.com/o/r/pull/9\n").is_err());
}

#[test]
fn focus_lists_default_and_join() {
    assert_eq!(format_pr_focuses(&[]), "summary");
    assert_eq!(
        format_pr_focuses(&[PullRequestFocus::Files, PullRequestFocus::Diff, PullRequestFocus::Reviews]),
        "files, diff, reviews"
    );
    assert_eq!(format_issue_focuses(&[]), "summary");
    assert_eq!(format_issue_focuses(&[IssueFocus::Comments]), "comments");
    assert_eq!(format_repo_focuses(&[]), "issues, pull requests");
    assert_eq!(format_repo_focuses(&[RepositoryFocus::PullRequests]), "pull requests");
}

#[test]
fn large_numbers_render_in_decimal() {
    let kind = ActionKind::Issue { number: 1234567890, action: IssueAction::Close };
    assert_eq!(format_action(&kind), "closed issue #1234567890");
    let kind = ActionKind::PullRequest { number: 0, action: PullRequestAction::Merge };
    assert_eq!(format_action(&kind), "merged PR #0");
}
