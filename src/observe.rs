//! Turning what was read into payloads, and naming targets for people.

use vstd::prelude::*;
use vstd::slice::slice_to_vec;
use vstd::utf8::{decode_utf8, valid_utf8};
use crate::model::{IssueFocus, Observe, PullRequestFocus, RepositoryFocus};
use crate::payload::{
    CheckRun, DirectoryEntry, DirectoryListing, ListingView, FileContent, FileContents, IssuePayload, Payload, PullRequestPayload, RepositoryPayload,
};
use crate::text::{decimal, push_decimal};

verus! {

/// Relies on String::from_utf8: the text where the bytes are valid UTF-8.
#[verifier::external_body]
fn utf8_text(bytes: &[u8]) -> (r: Option<String>)
    ensures
        match r {
            Some(s) => valid_utf8(bytes@) && s@ == decode_utf8(bytes@),
            None => !valid_utf8(bytes@),
        },
{
    String::from_utf8(bytes.to_vec()).ok()
}

/// How the result of reading a file is classified.
pub open spec fn classified(read: Result<Vec<u8>, String>, c: FileContent) -> bool {
    match read {
        Err(m) => c matches FileContent::Error { message } && message@ == m@,
        Ok(b) => if valid_utf8(b@) {
            c matches FileContent::Text { content } && content@ == decode_utf8(b@)
        } else {
            c matches FileContent::Binary { size_bytes } && size_bytes == b@.len()
        },
    }
}

/// Classifies what reading one file gave.
pub fn classify(read: &Result<Vec<u8>, String>) -> (r: FileContent)
    ensures
        classified(*read, r),
{
    match read {
        Err(m) => FileContent::Error { message: m.clone() },
        Ok(b) => match utf8_text(b.as_slice()) {
            Some(text) => FileContent::Text { content: text },
            None => FileContent::Binary { size_bytes: b.len() as u64 },
        },
    }
}

/// The `FileContents` payload for `paths`, where `reads[i]` is what reading
/// `paths[i]` gave: valid UTF-8 is text, other bytes are binary of their size,
/// and a failed read is an error entry. Observation is total.
pub fn observe_file_contents(paths: &Vec<String>, reads: &Vec<Result<Vec<u8>, String>>) -> (r: Payload)
    requires
        paths.len() == reads.len(),
    ensures
        r matches Payload::FileContents { contents } && contents.len() == paths.len() && forall|i: int|
            0 <= i < paths.len() ==> (#[trigger] contents@[i]).path@ == paths@[i]@ && classified(
                reads@[i],
                contents@[i].content,
            ),
{
    let mut contents: Vec<FileContents> = Vec::new();
    let mut i: usize = 0;
    while i < paths.len()
        invariant
            i <= paths.len(),
            paths.len() == reads.len(),
            contents.len() == i,
            forall|k: int|
                0 <= k < i ==> (#[trigger] contents@[k]).path@ == paths@[k]@ && classified(reads@[k], contents@[k].content),
        decreases paths.len() - i,
    {
        let content = classify(&reads[i]);
        contents.push(FileContents { path: paths[i].clone(), content });
        i = i + 1;
    }
    Payload::FileContents { contents }
}

/// A short human-readable description of a target.
pub open spec fn target_description(t: Observe) -> Seq<char> {
    match t {
        Observe::FileContents { paths } => decimal(paths.len() as nat) + " file(s)"@,
        Observe::DirectoryTree { root, .. } => "directory tree at "@ + root@,
        Observe::RustProject { root } => "Rust project at "@ + root@,
        Observe::GitHubPullRequest { number } => "PR #"@ + decimal(number as nat),
        Observe::GitHubIssue { number } => "issue #"@ + decimal(number as nat),
        Observe::GitHubRepository => "repository"@,
    }
}

/// Describes a target, as messages about the slate name it.
pub fn describe_target(target: &Observe) -> (r: String)
    ensures
        r@ == target_description(*target),
{
    match target {
        Observe::FileContents { paths } => {
            let mut s = String::new();
            push_decimal(&mut s, paths.len() as u64);
            s.append(" file(s)");
            s
        },
        Observe::DirectoryTree { root, .. } => {
            let mut s = String::from_str("directory tree at ");
            s.append(root.as_str());
            s
        },
        Observe::RustProject { root } => {
            let mut s = String::from_str("Rust project at ");
            s.append(root.as_str());
            s
        },
        Observe::GitHubPullRequest { number } => {
            let mut s = String::from_str("PR #");
            push_decimal(&mut s, *number);
            s
        },
        Observe::GitHubIssue { number } => {
            let mut s = String::from_str("issue #");
            push_decimal(&mut s, *number);
            s
        },
        Observe::GitHubRepository => String::from_str("repository"),
    }
}

/// The pull request focus in effect: the summary where none is given.
pub open spec fn pr_focus(focus: Seq<PullRequestFocus>) -> Seq<PullRequestFocus> {
    if focus.len() == 0 {
        seq![PullRequestFocus::Summary]
    } else {
        focus
    }
}

/// The issue focus in effect: the summary where none is given.
pub open spec fn issue_focus(focus: Seq<IssueFocus>) -> Seq<IssueFocus> {
    if focus.len() == 0 {
        seq![IssueFocus::Summary]
    } else {
        focus
    }
}

/// The repository focus in effect: issues and pull requests where none is given.
pub open spec fn repo_focus(focus: Seq<RepositoryFocus>) -> Seq<RepositoryFocus> {
    if focus.len() == 0 {
        seq![RepositoryFocus::Issues, RepositoryFocus::PullRequests]
    } else {
        focus
    }
}

/// The pull request focus in effect, which says what to fetch.
pub fn effective_pr_focus(focus: &[PullRequestFocus]) -> (r: Vec<PullRequestFocus>)
    ensures
        r@ == pr_focus(focus@),
{
    if focus.len() == 0 {
        let mut v = Vec::new();
        v.push(PullRequestFocus::Summary);
        assert(v@ =~= seq![PullRequestFocus::Summary]);
        v
    } else {
        slice_to_vec(focus)
    }
}

/// The issue focus in effect, which says what to fetch.
pub fn effective_issue_focus(focus: &[IssueFocus]) -> (r: Vec<IssueFocus>)
    ensures
        r@ == issue_focus(focus@),
{
    if focus.len() == 0 {
        let mut v = Vec::new();
        v.push(IssueFocus::Summary);
        assert(v@ =~= seq![IssueFocus::Summary]);
        v
    } else {
        slice_to_vec(focus)
    }
}

/// The repository focus in effect, which says what to fetch.
pub fn effective_repo_focus(focus: &[RepositoryFocus]) -> (r: Vec<RepositoryFocus>)
    ensures
        r@ == repo_focus(focus@),
{
    if focus.len() == 0 {
        let mut v = Vec::new();
        v.push(RepositoryFocus::Issues);
        v.push(RepositoryFocus::PullRequests);
        assert(v@ =~= seq![RepositoryFocus::Issues, RepositoryFocus::PullRequests]);
        v
    } else {
        slice_to_vec(focus)
    }
}

fn wants_pr(focus: &Vec<PullRequestFocus>, f: PullRequestFocus) -> (r: bool)
    ensures
        r == focus@.contains(f),
{
    let mut i: usize = 0;
    while i < focus.len()
        invariant
            i <= focus.len(),
            forall|k: int| 0 <= k < i ==> focus@[k] != f,
        decreases focus.len() - i,
    {
        if focus[i] == f {
            return true;
        }
        i = i + 1;
    }
    false
}

fn wants_issue(focus: &Vec<IssueFocus>, f: IssueFocus) -> (r: bool)
    ensures
        r == focus@.contains(f),
{
    let mut i: usize = 0;
    while i < focus.len()
        invariant
            i <= focus.len(),
            forall|k: int| 0 <= k < i ==> focus@[k] != f,
        decreases focus.len() - i,
    {
        if focus[i] == f {
            return true;
        }
        i = i + 1;
    }
    false
}

fn wants_repo(focus: &Vec<RepositoryFocus>, f: RepositoryFocus) -> (r: bool)
    ensures
        r == focus@.contains(f),
{
    let mut i: usize = 0;
    while i < focus.len()
        invariant
            i <= focus.len(),
            forall|k: int| 0 <= k < i ==> focus@[k] != f,
        decreases focus.len() - i,
    {
        if focus[i] == f {
            return true;
        }
        i = i + 1;
    }
    false
}

/// The pull request payload: of what was fetched, the parts the focus in
/// effect names, and nothing of the others.
pub fn observe_github_pull_request(focus: &[PullRequestFocus], fetched: PullRequestPayload) -> (r: Payload)
    ensures
        r matches Payload::GitHubPullRequest(p) && {
            let f = pr_focus(focus@);
            &&& p.summary == if f.contains(PullRequestFocus::Summary) { fetched.summary } else { None }
            &&& (if f.contains(PullRequestFocus::Files) { p.files == fetched.files } else { p.files@.len() == 0 })
            &&& (if f.contains(PullRequestFocus::Checks) { p.checks == fetched.checks } else { p.checks@.len() == 0 })
            &&& p.diff == if f.contains(PullRequestFocus::Diff) { fetched.diff } else { None }
            &&& (if f.contains(PullRequestFocus::Comments) { p.comments == fetched.comments } else { p.comments@.len() == 0 })
            &&& (if f.contains(PullRequestFocus::Reviews) { p.reviews == fetched.reviews } else { p.reviews@.len() == 0 })
        },
{
    let f = effective_pr_focus(focus);
    let PullRequestPayload { summary, files, checks, diff, comments, reviews } = fetched;
    let p = PullRequestPayload {
        summary: if wants_pr(&f, PullRequestFocus::Summary) { summary } else { None },
        files: if wants_pr(&f, PullRequestFocus::Files) { files } else { Vec::new() },
        checks: if wants_pr(&f, PullRequestFocus::Checks) { checks } else { Vec::new() },
        diff: if wants_pr(&f, PullRequestFocus::Diff) { diff } else { None },
        comments: if wants_pr(&f, PullRequestFocus::Comments) { comments } else { Vec::new() },
        reviews: if wants_pr(&f, PullRequestFocus::Reviews) { reviews } else { Vec::new() },
    };
    Payload::GitHubPullRequest(Box::new(p))
}

/// The issue payload: of what was fetched, the parts the focus in effect names.
pub fn observe_github_issue(focus: &[IssueFocus], fetched: IssuePayload) -> (r: Payload)
    ensures
        r matches Payload::GitHubIssue(p) && {
            let f = issue_focus(focus@);
            &&& p.summary == if f.contains(IssueFocus::Summary) { fetched.summary } else { None }
            &&& (if f.contains(IssueFocus::Comments) { p.comments == fetched.comments } else { p.comments@.len() == 0 })
        },
{
    let f = effective_issue_focus(focus);
    let IssuePayload { summary, comments } = fetched;
    let p = IssuePayload {
        summary: if wants_issue(&f, IssueFocus::Summary) { summary } else { None },
        comments: if wants_issue(&f, IssueFocus::Comments) { comments } else { Vec::new() },
    };
    Payload::GitHubIssue(Box::new(p))
}

/// The repository payload: of what was fetched, the listings the focus in
/// effect names.
pub fn observe_github_repository(focus: &[RepositoryFocus], fetched: RepositoryPayload) -> (r: Payload)
    ensures
        r matches Payload::GitHubRepository(p) && {
            let f = repo_focus(focus@);
            &&& (if f.contains(RepositoryFocus::Issues) { p.issues == fetched.issues } else { p.issues@.len() == 0 })
            &&& (if f.contains(RepositoryFocus::PullRequests) {
                p.pull_requests == fetched.pull_requests
            } else {
                p.pull_requests@.len() == 0
            })
        },
{
    let f = effective_repo_focus(focus);
    let RepositoryPayload { issues, pull_requests } = fetched;
    let p = RepositoryPayload {
        issues: if wants_repo(&f, RepositoryFocus::Issues) { issues } else { Vec::new() },
        pull_requests: if wants_repo(&f, RepositoryFocus::PullRequests) { pull_requests } else { Vec::new() },
    };
    Payload::GitHubRepository(Box::new(p))
}

/// One entry the directory walk produced, under its parent directory's path.
#[derive(Clone, Debug, PartialEq, Eq)]
pub struct WalkedEntry {
    pub parent: String,
    pub entry: DirectoryEntry,
}

/// The index of the first listing of directory `p`.
pub open spec fn listing_index(g: Seq<ListingView>, p: Seq<char>) -> Option<int>
    decreases g.len(),
{
    if g.len() == 0 {
        None
    } else {
        match listing_index(g.drop_last(), p) {
            Some(k) => Some(k),
            None => if g.last().path == p {
                Some(g.len() - 1)
            } else {
                None
            },
        }
    }
}

/// The walked entries grouped into one listing per parent directory: the
/// listings in the order their directories first appear, each directory's
/// entries in walk order.
pub open spec fn grouped(ws: Seq<WalkedEntry>) -> Seq<ListingView>
    decreases ws.len(),
{
    if ws.len() == 0 {
        Seq::empty()
    } else {
        let g = grouped(ws.drop_last());
        let w = ws.last();
        match listing_index(g, w.parent@) {
            Some(k) => g.update(k, ListingView { path: g[k].path, entries: g[k].entries.push(w.entry) }),
            None => g.push(ListingView { path: w.parent@, entries: seq![w.entry] }),
        }
    }
}

proof fn lemma_listing_index_prefix(g: Seq<ListingView>, n: int, p: Seq<char>)
    requires
        0 <= n <= g.len(),
        listing_index(g.take(n), p) is Some,
    ensures
        listing_index(g, p) == listing_index(g.take(n), p),
    decreases g.len() - n,
{
    if n < g.len() {
        assert(g.take(n + 1).drop_last() =~= g.take(n));
        lemma_listing_index_prefix(g, n + 1, p);
    } else {
        assert(g.take(n) =~= g);
    }
}

proof fn lemma_listing_index_range(g: Seq<ListingView>, p: Seq<char>)
    ensures
        listing_index(g, p) matches Some(k) ==> 0 <= k < g.len(),
    decreases g.len(),
{
    if g.len() > 0 {
        lemma_listing_index_range(g.drop_last(), p);
    }
}

fn find_listing(listings: &Vec<DirectoryListing>, p: &String) -> (r: Option<usize>)
    ensures
        match r {
            Some(k) => listing_index(listings@.map_values(|l: DirectoryListing| l@), p@) == Some(k as int)
                && k < listings.len(),
            None => listing_index(listings@.map_values(|l: DirectoryListing| l@), p@) is None,
        },
{
    let ghost g = listings@.map_values(|l: DirectoryListing| l@);
    let mut k: usize = 0;
    while k < listings.len()
        invariant
            k <= listings.len(),
            g == listings@.map_values(|l: DirectoryListing| l@),
            listing_index(g.take(k as int), p@) is None,
        decreases listings.len() - k,
    {
        assert(g.take(k as int + 1).drop_last() =~= g.take(k as int));
        if listings[k].path == *p {
            proof {
                lemma_listing_index_prefix(g, k as int + 1, p@);
            }
            return Some(k);
        }
        k = k + 1;
    }
    assert(g.take(k as int) =~= g);
    None
}

/// The `DirectoryTree` payload for the entries a directory walk produced, in
/// walk order: one listing per parent directory, see `grouped`.
pub fn observe_directory_tree(walked: Vec<WalkedEntry>) -> (r: Payload)
    ensures
        r matches Payload::DirectoryTree { listings } && listings@.map_values(|l: DirectoryListing| l@)
            == grouped(walked@),
{
    let ghost ws = walked@;
    let mut rest = walked;
    let mut listings: Vec<DirectoryListing> = Vec::new();
    let ghost mut i: int = 0;
    assert(listings@.map_values(|l: DirectoryListing| l@) =~= grouped(ws.take(0)));
    while rest.len() > 0
        invariant
            0 <= i <= ws.len(),
            rest@ == ws.subrange(i, ws.len() as int),
            listings@.map_values(|l: DirectoryListing| l@) == grouped(ws.take(i)),
        decreases rest.len(),
    {
        let w = rest.remove(0);
        assert(w == ws[i]);
        assert(ws.take(i + 1).drop_last() =~= ws.take(i));
        let ghost g = listings@.map_values(|l: DirectoryListing| l@);
        let WalkedEntry { parent, entry } = w;
        match find_listing(&listings, &parent) {
            Some(k) => {
                let mut l = listings.remove(k);
                l.entries.push(entry);
                listings.insert(k, l);
                assert(listings@.map_values(|l: DirectoryListing| l@) =~= g.update(
                    k as int,
                    ListingView { path: g[k as int].path, entries: g[k as int].entries.push(entry) },
                ));
            },
            None => {
                let mut es: Vec<DirectoryEntry> = Vec::new();
                es.push(entry);
                let l = DirectoryListing { path: parent, entries: es };
                listings.push(l);
                assert(es@ =~= seq![entry]);
                assert(listings@.map_values(|l: DirectoryListing| l@) =~= g.push(l@));
            },
        }
        proof {
            i = i + 1;
        }
    }
    assert(ws.take(i) =~= ws);
    Payload::DirectoryTree { listings }
}

/// `c` with ASCII upper case mapped to lower case.
pub open spec fn ascii_lower(c: char) -> char {
    if 'A' <= c <= 'Z' {
        ((c as u32) + 32) as char
    } else {
        c
    }
}

/// Whether `a` and `b` are equal ignoring ASCII case.
pub open spec fn same_ignoring_case(a: Seq<char>, b: Seq<char>) -> bool {
    a.len() == b.len() && forall|i: int| 0 <= i < a.len() ==> ascii_lower(#[trigger] a[i]) == ascii_lower(b[i])
}

/// Well-known documentation file names, matched ignoring case.
pub open spec fn is_doc_name(n: Seq<char>) -> bool {
    ||| same_ignoring_case(n, "readme"@)
    ||| same_ignoring_case(n, "readme.md"@)
    ||| same_ignoring_case(n, "changelog"@)
    ||| same_ignoring_case(n, "changelog.md"@)
    ||| same_ignoring_case(n, "vision.md"@)
    ||| same_ignoring_case(n, "contributing"@)
    ||| same_ignoring_case(n, "contributing.md"@)
    ||| same_ignoring_case(n, "license"@)
    ||| same_ignoring_case(n, "license.md"@)
    ||| same_ignoring_case(n, "license-mit"@)
    ||| same_ignoring_case(n, "license-apache"@)
    ||| same_ignoring_case(n, "agents.md"@)
    ||| same_ignoring_case(n, "cursorrules"@)
    ||| same_ignoring_case(n, ".cursorrules"@)
}

/// Whether a file name has the extension `md`, ignoring case: a last `.`
/// that is not the name's first character, followed by `md`.
pub open spec fn has_md_extension(n: Seq<char>) -> bool {
    n.len() >= 4 && n[n.len() - 3] == '.' && ascii_lower(n[n.len() - 2]) == 'm' && ascii_lower(n[n.len() - 1]) == 'd'
}

fn lower_char(c: char) -> (r: char)
    ensures
        r == ascii_lower(c),
{
    if 'A' <= c && c <= 'Z' {
        let b = c as u32;
        ((b as u8) + 32) as char
    } else {
        c
    }
}

/// Whether `a` and `b` are equal ignoring ASCII case, as `str::eq_ignore_ascii_case`.
pub fn eq_ignore_ascii_case(a: &str, b: &str) -> (r: bool)
    ensures
        r == same_ignoring_case(a@, b@),
{
    let n = a.unicode_len();
    if n != b.unicode_len() {
        return false;
    }
    let mut i: usize = 0;
    while i < n
        invariant
            i <= n,
            n == a@.len(),
            n == b@.len(),
            forall|k: int| 0 <= k < i ==> ascii_lower(#[trigger] a@[k]) == ascii_lower(b@[k]),
        decreases n - i,
    {
        if lower_char(a.get_char(i)) != lower_char(b.get_char(i)) {
            return false;
        }
        i = i + 1;
    }
    true
}

/// Whether a file belongs to a project's documentation: a well-known doc
/// name anywhere, or a `.md` file directly in the project root or in a
/// directory named `docs`. `parent_is_root` says whether the file's parent
/// is the project root; `parent_name` is the parent directory's name.
pub fn is_doc_file(name: &str, parent_is_root: bool, parent_name: Option<&str>) -> (r: bool)
    ensures
        r == (is_doc_name(name@) || (has_md_extension(name@) && (parent_is_root || match parent_name {
            Some(p) => same_ignoring_case(p@, "docs"@),
            None => false,
        }))),
{
    if eq_ignore_ascii_case(name, "readme") || eq_ignore_ascii_case(name, "readme.md") || eq_ignore_ascii_case(
        name,
        "changelog",
    ) || eq_ignore_ascii_case(name, "changelog.md") || eq_ignore_ascii_case(name, "vision.md")
        || eq_ignore_ascii_case(name, "contributing") || eq_ignore_ascii_case(name, "contributing.md")
        || eq_ignore_ascii_case(name, "license") || eq_ignore_ascii_case(name, "license.md")
        || eq_ignore_ascii_case(name, "license-mit") || eq_ignore_ascii_case(name, "license-apache")
        || eq_ignore_ascii_case(name, "agents.md") || eq_ignore_ascii_case(name, "cursorrules")
        || eq_ignore_ascii_case(name, ".cursorrules") {
        return true;
    }
    let n = name.unicode_len();
    let is_md = n >= 4 && name.get_char(n - 3) == '.' && lower_char(name.get_char(n - 2)) == 'm' && lower_char(
        name.get_char(n - 1),
    ) == 'd';
    if !is_md {
        return false;
    }
    if parent_is_root {
        return true;
    }
    match parent_name {
        Some(p) => eq_ignore_ascii_case(p, "docs"),
        None => false,
    }
}

/// What `str::to_lowercase` makes of a string.
pub uninterp spec fn lower_of(s: Seq<char>) -> Seq<char>;

/// Relies on str::to_lowercase: the result depends on the characters alone.
#[verifier::external_body]
fn lowercase(s: &str) -> (r: String)
    ensures
        r@ == lower_of(s@),
{
    s.to_lowercase()
}

/// Whether `a` and `b` hold the same characters.
pub fn same_text(a: &str, b: &str) -> (r: bool)
    ensures
        r == (a@ == b@),
{
    let n = a.unicode_len();
    if n != b.unicode_len() {
        return false;
    }
    let mut i: usize = 0;
    while i < n
        invariant
            i <= n,
            n == a@.len(),
            n == b@.len(),
            forall|k: int| 0 <= k < i ==> a@[k] == b@[k],
        decreases n - i,
    {
        if a.get_char(i) != b.get_char(i) {
            return false;
        }
        i = i + 1;
    }
    assert(a@ =~= b@);
    true
}

/// The status and conclusion a check state reported by `gh` maps to.
pub open spec fn check_outcome(state: Seq<char>) -> (Seq<char>, Option<Seq<char>>) {
    if state == "SUCCESS"@ {
        ("completed"@, Some("success"@))
    } else if state == "FAILURE"@ {
        ("completed"@, Some("failure"@))
    } else if state == "PENDING"@ {
        ("in_progress"@, None)
    } else {
        (lower_of(state), None)
    }
}

/// A check run from its name and the state `gh` reports: success and
/// failure are completed with that conclusion, pending is in progress, and
/// any other state is kept, lower-cased, without a conclusion.
pub fn check_run(name: String, state: &str) -> (r: CheckRun)
    ensures
        r.name == name,
        r.status@ == check_outcome(state@).0,
        match (r.conclusion, check_outcome(state@).1) {
            (Some(a), Some(b)) => a@ == b,
            (None, None) => true,
            _ => false,
        },
{
    if same_text(state, "SUCCESS") {
        CheckRun { name, status: String::from_str("completed"), conclusion: Some(String::from_str("success")) }
    } else if same_text(state, "FAILURE") {
        CheckRun { name, status: String::from_str("completed"), conclusion: Some(String::from_str("failure")) }
    } else if same_text(state, "PENDING") {
        CheckRun { name, status: String::from_str("in_progress"), conclusion: None }
    } else {
        CheckRun { name, status: lowercase(state), conclusion: None }
    }
}

/// A target as named on the command line.
#[derive(Clone, Debug, PartialEq, Eq)]
pub enum ObserveTarget {
    FileContents { read: Vec<String> },
    DirectoryTree { root: String, skip: Vec<String>, max_depth: Option<u32> },
    RustProject { path: String },
    GitHubPullRequest { number: u64 },
    GitHubIssue { number: u64 },
    GitHubRepository,
}

/// The target a command line names; reading no file at all is refused.
pub fn observe_from_target(target: ObserveTarget) -> (r: Result<Observe, String>)
    ensures
        match target {
            ObserveTarget::FileContents { read } => if read@.len() == 0 {
                r matches Err(m) && m@ == "specify at least one --read"@
            } else {
                r == Ok::<Observe, String>(Observe::FileContents { paths: read })
            },
            ObserveTarget::DirectoryTree { root, skip, max_depth } => r == Ok::<Observe, String>(
                Observe::DirectoryTree { root, skip, max_depth },
            ),
            ObserveTarget::RustProject { path } => r == Ok::<Observe, String>(Observe::RustProject { root: path }),
            ObserveTarget::GitHubPullRequest { number } => r == Ok::<Observe, String>(
                Observe::GitHubPullRequest { number },
            ),
            ObserveTarget::GitHubIssue { number } => r == Ok::<Observe, String>(Observe::GitHubIssue { number }),
            ObserveTarget::GitHubRepository => r == Ok::<Observe, String>(Observe::GitHubRepository),
        },
{
    match target {
        ObserveTarget::FileContents { read } => {
            if read.len() == 0 {
                Err(String::from_str("specify at least one --read"))
            } else {
                Ok(Observe::FileContents { paths: read })
            }
        },
        ObserveTarget::DirectoryTree { root, skip, max_depth } => Ok(Observe::DirectoryTree { root, skip, max_depth }),
        ObserveTarget::RustProject { path } => Ok(Observe::RustProject { root: path }),
        ObserveTarget::GitHubPullRequest { number } => Ok(Observe::GitHubPullRequest { number }),
        ObserveTarget::GitHubIssue { number } => Ok(Observe::GitHubIssue { number }),
        ObserveTarget::GitHubRepository => Ok(Observe::GitHubRepository),
    }
}

} // verus!
