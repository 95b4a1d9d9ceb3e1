//! How a voyage's status is stored in its row: the `status`, `ended_at` and
//! `ended_status` columns.

use vstd::prelude::*;
use crate::error::StorageError;
use crate::model::{copy_text_option, Timestamp, VoyageStatus, VoyageStatusView};
use crate::observe::same_text;

verus! {

/// The columns that store a status: `("active", null, null)` for an active
/// voyage, `("ended", ended_at, outcome)` for an ended one.
pub open spec fn status_columns(s: VoyageStatusView) -> (Seq<char>, Option<Timestamp>, Option<Seq<char>>) {
    match s {
        VoyageStatusView::Active => ("active"@, None, None),
        VoyageStatusView::Ended { ended_at, status } => ("ended"@, Some(ended_at), status),
    }
}

/// The status that stored columns denote; `None` where they denote none.
pub open spec fn status_of_columns(
    status: Seq<char>,
    ended_at: Option<Timestamp>,
    ended_status: Option<Seq<char>>,
) -> Option<VoyageStatusView> {
    if status == "active"@ {
        Some(VoyageStatusView::Active)
    } else if status == "ended"@ && ended_at is Some {
        Some(VoyageStatusView::Ended { ended_at: ended_at->Some_0, status: ended_status })
    } else {
        None
    }
}

/// The view of an optional owned text.
pub open spec fn view_text_option(o: Option<String>) -> Option<Seq<char>> {
    match o {
        Some(s) => Some(s@),
        None => None,
    }
}

/// The columns that store `status`.
pub fn encode_status(status: &VoyageStatus) -> (r: (&'static str, Option<Timestamp>, Option<String>))
    ensures
        (r.0@, r.1, view_text_option(r.2)) == status_columns(status@),
{
    match status {
        VoyageStatus::Active => ("active", None, None),
        VoyageStatus::Ended { ended_at, status } => ("ended", Some(*ended_at), copy_text_option(status)),
    }
}

/// The status stored columns denote. An unknown status word is a database
/// error; an ended status without its end time is a timestamp error.
pub fn decode_status(status: &str, ended_at: Option<Timestamp>, ended_status: Option<String>) -> (r: Result<
    VoyageStatus,
    StorageError,
>)
    ensures
        match (r, status_of_columns(status@, ended_at, view_text_option(ended_status))) {
            (Ok(s), Some(v)) => s@ == v,
            (Err(StorageError::TimeParse(_)), None) => status@ == "ended"@,
            (Err(StorageError::Database(_)), None) => status@ != "ended"@,
            _ => false,
        },
{
    if same_text(status, "active") {
        Ok(VoyageStatus::Active)
    } else if same_text(status, "ended") {
        match ended_at {
            Some(t) => Ok(VoyageStatus::Ended { ended_at: t, status: ended_status }),
            None => Err(StorageError::TimeParse(String::from_str("an ended voyage has no end time"))),
        }
    } else {
        let mut m = String::from_str("unknown voyage status: ");
        m.append(status);
        Err(StorageError::Database(m))
    }
}

/// Decoding the columns that store a status gives the status back.
pub proof fn law_status_round_trip(s: VoyageStatusView)
    ensures
        status_of_columns(status_columns(s).0, status_columns(s).1, status_columns(s).2) == Some(s),
{
    reveal_strlit("active");
    reveal_strlit("ended");
    assert("ended"@.len() != "active"@.len());
}

} // verus!
