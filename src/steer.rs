//! The `gh` invocations that carry out steers.

use vstd::prelude::*;
use crate::model::{CommentTarget, Steer, SteerView};
use crate::text::{decimal, push_decimal};

verus! {

/// The `gh` arguments that perform a steer, or the message for a steer that
/// cannot be performed yet.
pub open spec fn steer_args(s: SteerView) -> Result<Seq<Seq<char>>, Seq<char>> {
    match s {
        SteerView::Comment { number, body, target } => match target {
            CommentTarget::Issue => Ok(seq!["issue"@, "comment"@, decimal(number as nat), "--body"@, body]),
            CommentTarget::PullRequest => Ok(seq!["pr"@, "comment"@, decimal(number as nat), "--body"@, body]),
            CommentTarget::ReviewFeedback { comment_id } => Ok(
                seq![
                    "api"@,
                    "repos/{owner}/{repo}/pulls/comments/"@ + decimal(comment_id as nat) + "/replies"@,
                    "--method"@,
                    "POST"@,
                    "-f"@,
                    "body="@ + body,
                ],
            ),
        },
        _ => Err("this steer action is not yet implemented"@),
    }
}

fn text(s: &str) -> (r: String)
    ensures
        r@ == s@,
{
    String::from_str(s)
}

fn number_text(n: u64) -> (r: String)
    ensures
        r@ == decimal(n as nat),
{
    let mut s = String::new();
    push_decimal(&mut s, n);
    assert(Seq::<char>::empty() + decimal(n as nat) =~= decimal(n as nat));
    s
}

/// The `gh` arguments that perform `steer`, run with the acting identity's
/// credentials; an error for steers not yet supported.
pub fn perform(steer: &Steer) -> (r: Result<Vec<String>, String>)
    ensures
        match (r, steer_args(steer@)) {
            (Ok(v), Ok(a)) => v@.map_values(|x: String| x@) == a,
            (Err(m), Err(n)) => m@ == n,
            _ => false,
        },
{
    match steer {
        Steer::Comment { number, body, target } => {
            let mut v: Vec<String> = Vec::new();
            match target {
                CommentTarget::Issue => {
                    v.push(text("issue"));
                    v.push(text("comment"));
                    v.push(number_text(*number));
                    v.push(text("--body"));
                    v.push(body.clone());
                },
                CommentTarget::PullRequest => {
                    v.push(text("pr"));
                    v.push(text("comment"));
                    v.push(number_text(*number));
                    v.push(text("--body"));
                    v.push(body.clone());
                },
                CommentTarget::ReviewFeedback { comment_id } => {
                    let mut endpoint = text("repos/{owner}/{repo}/pulls/comments/");
                    push_decimal(&mut endpoint, *comment_id);
                    endpoint.append("/replies");
                    let mut field = text("body=");
                    field.append(body.as_str());
                    v.push(text("api"));
                    v.push(endpoint);
                    v.push(text("--method"));
                    v.push(text("POST"));
                    v.push(text("-f"));
                    v.push(field);
                },
            }
            assert(v@.map_values(|x: String| x@) =~= steer_args(steer@)->Ok_0);
            Ok(v)
        },
        _ => Err(text("this steer action is not yet implemented")),
    }
}

} // verus!
