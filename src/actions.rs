//! Records of operations performed on git and GitHub, their one-line
//! descriptions, and the numbers read back from GitHub URLs.

use vstd::prelude::*;
use crate::model::{IssueFocus, PullRequestFocus, RepositoryFocus};
use crate::text::{
    decimal, joined, last_segment, last_segment_of, parse_u64, parse_u64_spec, push_decimal, trim,
    trimmed,
};

verus! {

/// What was done to a pull request.
#[derive(Clone, Debug, PartialEq, Eq)]
pub enum PullRequestAction {
    Create,
    Merge,
    Comment,
    Reply,
    RequestedReview { reviewers: Vec<String> },
}

/// What was done to an issue.
#[derive(Clone, Copy, Debug, PartialEq, Eq, Structural)]
pub enum IssueAction {
    Create,
    Close,
    Comment,
}

/// One operation performed on git or GitHub.
#[derive(Clone, Debug, PartialEq, Eq)]
pub enum ActionKind {
    Commit { sha: String },
    Push { branch: String, sha: String },
    PullRequest { number: u64, action: PullRequestAction },
    Issue { number: u64, action: IssueAction },
}

/// The verb describing a pull request action.
pub open spec fn pr_verb(a: PullRequestAction) -> Seq<char> {
    match a {
        PullRequestAction::Create => "created"@,
        PullRequestAction::Merge => "merged"@,
        PullRequestAction::Comment => "commented on"@,
        PullRequestAction::Reply => "replied on"@,
        PullRequestAction::RequestedReview { .. } => "requested review on"@,
    }
}

/// The verb describing an issue action.
pub open spec fn issue_verb(a: IssueAction) -> Seq<char> {
    match a {
        IssueAction::Create => "created"@,
        IssueAction::Close => "closed"@,
        IssueAction::Comment => "commented on"@,
    }
}

/// The one-line description of an action.
pub open spec fn action_text(a: ActionKind) -> Seq<char> {
    match a {
        ActionKind::Commit { sha } => "committed ("@ + sha@ + ")"@,
        ActionKind::Push { branch, sha } => "pushed to "@ + branch@ + " ("@ + sha@ + ")"@,
        ActionKind::PullRequest { number, action } => pr_verb(action) + " PR #"@ + decimal(number as nat),
        ActionKind::Issue { number, action } => issue_verb(action) + " issue #"@ + decimal(number as nat),
    }
}

/// The name of a pull request focus.
pub open spec fn pr_focus_name(f: PullRequestFocus) -> Seq<char> {
    match f {
        PullRequestFocus::Summary => "summary"@,
        PullRequestFocus::Files => "files"@,
        PullRequestFocus::Checks => "checks"@,
        PullRequestFocus::Diff => "diff"@,
        PullRequestFocus::Comments => "comments"@,
        PullRequestFocus::Reviews => "reviews"@,
    }
}

/// The name of an issue focus.
pub open spec fn issue_focus_name(f: IssueFocus) -> Seq<char> {
    match f {
        IssueFocus::Summary => "summary"@,
        IssueFocus::Comments => "comments"@,
    }
}

/// The name of a repository focus.
pub open spec fn repo_focus_name(f: RepositoryFocus) -> Seq<char> {
    match f {
        RepositoryFocus::Issues => "issues"@,
        RepositoryFocus::PullRequests => "pull requests"@,
    }
}

/// The focus names joined by `", "`, or `default` for no focus.
pub open spec fn focus_text(names: Seq<Seq<char>>, default: Seq<char>) -> Seq<char> {
    if names.len() == 0 {
        default
    } else {
        joined(names, ", "@)
    }
}

/// The number at the end of a GitHub URL, after trimming whitespace.
pub open spec fn url_number(url: Seq<char>) -> Option<u64> {
    parse_u64_spec(last_segment(trimmed(url)))
}

/// The description of an action, as the logbook shows it.
pub fn format_action(act: &ActionKind) -> (r: String)
    ensures
        r@ == action_text(*act),
{
    match act {
        ActionKind::Commit { sha } => {
            let mut s = String::from_str("committed (");
            s.append(sha.as_str());
            s.append(")");
            s
        },
        ActionKind::Push { branch, sha } => {
            let mut s = String::from_str("pushed to ");
            s.append(branch.as_str());
            s.append(" (");
            s.append(sha.as_str());
            s.append(")");
            s
        },
        ActionKind::PullRequest { number, action } => {
            let verb = match action {
                PullRequestAction::Create => "created",
                PullRequestAction::Merge => "merged",
                PullRequestAction::Comment => "commented on",
                PullRequestAction::Reply => "replied on",
                PullRequestAction::RequestedReview { .. } => "requested review on",
            };
            let mut s = String::from_str(verb);
            s.append(" PR #");
            push_decimal(&mut s, *number);
            s
        },
        ActionKind::Issue { number, action } => {
            let verb = match action {
                IssueAction::Create => "created",
                IssueAction::Close => "closed",
                IssueAction::Comment => "commented on",
            };
            let mut s = String::from_str(verb);
            s.append(" issue #");
            push_decimal(&mut s, *number);
            s
        },
    }
}

/// The names joined by `", "`, or `default` for none.
fn join_names(names: &Vec<&str>, default: &str) -> (r: String)
    ensures
        r@ == focus_text(names@.map_values(|n: &str| n@), default@),
{
    let ghost views = names@.map_values(|n: &str| n@);
    if names.len() == 0 {
        return String::from_str(default);
    }
    let mut s = String::from_str(names[0]);
    assert(views.take(1) =~= seq![views[0]]);
    let mut i: usize = 1;
    while i < names.len()
        invariant
            1 <= i <= names.len(),
            views == names@.map_values(|n: &str| n@),
            s@ == joined(views.take(i as int), ", "@),
        decreases names.len() - i,
    {
        s.append(", ");
        s.append(names[i]);
        assert(views.take(i as int + 1).drop_last() =~= views.take(i as int));
        i = i + 1;
    }
    assert(views.take(i as int) =~= views);
    s
}

/// The pull request focus list; `summary` where none is given.
pub fn format_pr_focuses(focuses: &[PullRequestFocus]) -> (r: String)
    ensures
        r@ == focus_text(focuses@.map_values(|f: PullRequestFocus| pr_focus_name(f)), "summary"@),
{
    let mut names: Vec<&str> = Vec::new();
    let mut i: usize = 0;
    while i < focuses.len()
        invariant
            i <= focuses@.len(),
            names@.map_values(|n: &str| n@) == focuses@.take(i as int).map_values(|f: PullRequestFocus| pr_focus_name(f)),
        decreases focuses@.len() - i,
    {
        let n = match focuses[i] {
            PullRequestFocus::Summary => "summary",
            PullRequestFocus::Files => "files",
            PullRequestFocus::Checks => "checks",
            PullRequestFocus::Diff => "diff",
            PullRequestFocus::Comments => "comments",
            PullRequestFocus::Reviews => "reviews",
        };
        let ghost before = names@;
        names.push(n);
        assert(names@.map_values(|n: &str| n@) =~= before.map_values(|n: &str| n@).push(n@));
        assert(focuses@.take(i as int + 1).map_values(|f: PullRequestFocus| pr_focus_name(f))
            =~= focuses@.take(i as int).map_values(|f: PullRequestFocus| pr_focus_name(f)).push(pr_focus_name(focuses@[i as int])));
        i = i + 1;
    }
    assert(focuses@.take(i as int) =~= focuses@);
    join_names(&names, "summary")
}

/// The issue focus list; `summary` where none is given.
pub fn format_issue_focuses(focuses: &[IssueFocus]) -> (r: String)
    ensures
        r@ == focus_text(focuses@.map_values(|f: IssueFocus| issue_focus_name(f)), "summary"@),
{
    let mut names: Vec<&str> = Vec::new();
    let mut i: usize = 0;
    while i < focuses.len()
        invariant
            i <= focuses@.len(),
            names@.map_values(|n: &str| n@) == focuses@.take(i as int).map_values(|f: IssueFocus| issue_focus_name(f)),
        decreases focuses@.len() - i,
    {
        let n = match focuses[i] {
            IssueFocus::Summary => "summary",
            IssueFocus::Comments => "comments",
        };
        let ghost before = names@;
        names.push(n);
        assert(names@.map_values(|n: &str| n@) =~= before.map_values(|n: &str| n@).push(n@));
        assert(focuses@.take(i as int + 1).map_values(|f: IssueFocus| issue_focus_name(f))
            =~= focuses@.take(i as int).map_values(|f: IssueFocus| issue_focus_name(f)).push(issue_focus_name(focuses@[i as int])));
        i = i + 1;
    }
    assert(focuses@.take(i as int) =~= focuses@);
    join_names(&names, "summary")
}

/// The repository focus list; both issues and pull requests where none is given.
pub fn format_repo_focuses(focuses: &[RepositoryFocus]) -> (r: String)
    ensures
        r@ == focus_text(focuses@.map_values(|f: RepositoryFocus| repo_focus_name(f)), "issues, pull requests"@),
{
    let mut names: Vec<&str> = Vec::new();
    let mut i: usize = 0;
    while i < focuses.len()
        invariant
            i <= focuses@.len(),
            names@.map_values(|n: &str| n@) == focuses@.take(i as int).map_values(|f: RepositoryFocus| repo_focus_name(f)),
        decreases focuses@.len() - i,
    {
        let n = match focuses[i] {
            RepositoryFocus::Issues => "issues",
            RepositoryFocus::PullRequests => "pull requests",
        };
        let ghost before = names@;
        names.push(n);
        assert(names@.map_values(|n: &str| n@) =~= before.map_values(|n: &str| n@).push(n@));
        assert(focuses@.take(i as int + 1).map_values(|f: RepositoryFocus| repo_focus_name(f))
            =~= focuses@.take(i as int).map_values(|f: RepositoryFocus| repo_focus_name(f)).push(repo_focus_name(focuses@[i as int])));
        i = i + 1;
    }
    assert(focuses@.take(i as int) =~= focuses@);
    join_names(&names, "issues, pull requests")
}

/// Reads the number at the end of `url`, or reports `what` could not be read.
fn number_from_url(url: &str, trimmed_first: bool, what: &str) -> (r: Result<u64, String>)
    ensures
        match parse_u64_spec(last_segment(if trimmed_first { trimmed(url@) } else { url@ })) {
            Some(n) => r == Ok::<u64, String>(n),
            None => r matches Err(m) && m@ == "could not parse "@ + what@ + " number from: "@ + url@,
        },
{
    let t = if trimmed_first {
        trim(url)
    } else {
        url
    };
    match parse_u64(last_segment_of(t)) {
        Some(n) => Ok(n),
        None => {
            let mut m = String::from_str("could not parse ");
            m.append(what);
            m.append(" number from: ");
            m.append(url);
            Err(m)
        },
    }
}

/// The pull request number at the end of the URL that `gh pr create` prints.
pub fn parse_pr_number(url: &str) -> (r: Result<u64, String>)
    ensures
        match url_number(url@) {
            Some(n) => r == Ok::<u64, String>(n),
            None => r matches Err(m) && m@ == "could not parse PR number from: "@ + url@,
        },
{
    proof {
        reveal_strlit("could not parse ");
        reveal_strlit("PR");
        reveal_strlit(" number from: ");
        reveal_strlit("could not parse PR number from: ");
        assert("could not parse "@ + "PR"@ + " number from: "@ =~= "could not parse PR number from: "@);
    }
    number_from_url(url, true, "PR")
}

/// The issue number at the end of the URL that `gh issue create` prints.
pub fn parse_issue_number(url: &str) -> (r: Result<u64, String>)
    ensures
        match url_number(url@) {
            Some(n) => r == Ok::<u64, String>(n),
            None => r matches Err(m) && m@ == "could not parse issue number from: "@ + url@,
        },
{
    proof {
        reveal_strlit("could not parse ");
        reveal_strlit("issue");
        reveal_strlit(" number from: ");
        reveal_strlit("could not parse issue number from: ");
        assert("could not parse "@ + "issue"@ + " number from: "@ =~= "could not parse issue number from: "@);
    }
    number_from_url(url, true, "issue")
}

/// The pull request number at the end of an already trimmed GitHub URL.
pub fn parse_pr_number_from_url(url: &str) -> (r: Result<u64, String>)
    ensures
        match parse_u64_spec(last_segment(url@)) {
            Some(n) => r == Ok::<u64, String>(n),
            None => r matches Err(m) && m@ == "could not parse PR number from: "@ + url@,
        },
{
    proof {
        reveal_strlit("could not parse ");
        reveal_strlit("PR");
        reveal_strlit(" number from: ");
        reveal_strlit("could not parse PR number from: ");
        assert("could not parse "@ + "PR"@ + " number from: "@ =~= "could not parse PR number from: "@);
    }
    number_from_url(url, false, "PR")
}

/// The issue number at the end of an already trimmed GitHub URL.
pub fn parse_issue_number_from_url(url: &str) -> (r: Result<u64, String>)
    ensures
        match parse_u64_spec(last_segment(url@)) {
            Some(n) => r == Ok::<u64, String>(n),
            None => r matches Err(m) && m@ == "could not parse issue number from: "@ + url@,
        },
{
    proof {
        reveal_strlit("could not parse ");
        reveal_strlit("issue");
        reveal_strlit(" number from: ");
        reveal_strlit("could not parse issue number from: ");
        assert("could not parse "@ + "issue"@ + " number from: "@ =~= "could not parse issue number from: "@);
    }
    number_from_url(url, false, "issue")
}

} // verus!
