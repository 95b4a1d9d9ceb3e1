//! Resolving who acts: an explicit identity, else the environment's, else the
//! one in the configuration file.

use vstd::prelude::*;

verus! {

/// The error reported when no source yields an identity.
pub const IDENTITY_REQUIRED: &'static str = "identity required: pass --as <identity>, set HELM_IDENTITY, or add `identity = \"...\"` to ~/.helm/config.toml";

/// The identity the sources resolve to, or the error to report. `config` is
/// what reading the configuration file gave: absent where there is no file
/// to read, else the error of reading it or its `identity` value.
pub open spec fn resolution(
    explicit: Option<Seq<char>>,
    env_val: Option<Seq<char>>,
    config: Option<Result<Option<Seq<char>>, Seq<char>>>,
) -> Result<Seq<char>, Seq<char>> {
    if explicit is Some {
        Ok(explicit->Some_0)
    } else if env_val is Some && env_val->Some_0.len() > 0 {
        Ok(env_val->Some_0)
    } else {
        match config {
            Some(Err(m)) => Err(m),
            Some(Ok(Some(id))) => if id.len() > 0 {
                Ok(id)
            } else {
                Err(IDENTITY_REQUIRED@)
            },
            _ => Err(IDENTITY_REQUIRED@),
        }
    }
}

/// The view of an optional text.
pub open spec fn view_opt(o: Option<&str>) -> Option<Seq<char>> {
    match o {
        Some(s) => Some(s@),
        None => None,
    }
}

/// The view of what reading the configuration file gave.
pub open spec fn view_config(c: Option<Result<Option<String>, String>>) -> Option<Result<Option<Seq<char>>, Seq<char>>> {
    match c {
        None => None,
        Some(Err(m)) => Some(Err(m@)),
        Some(Ok(None)) => Some(Ok(None)),
        Some(Ok(Some(id))) => Some(Ok(Some(id@))),
    }
}

/// Resolves the acting identity: an explicit one wins, then a non-empty
/// environment value, then a non-empty `identity` from the configuration.
pub fn resolve_inner(
    explicit: Option<&str>,
    env_val: Option<&str>,
    config: Option<Result<Option<String>, String>>,
) -> (r: Result<String, String>)
    ensures
        match (r, resolution(view_opt(explicit), view_opt(env_val), view_config(config))) {
            (Ok(a), Ok(b)) => a@ == b,
            (Err(a), Err(b)) => a@ == b,
            _ => false,
        },
{
    if let Some(id) = explicit {
        return Ok(id.to_owned());
    }
    if let Some(id) = env_val {
        if !id.is_empty() {
            return Ok(id.to_owned());
        }
    }
    match config {
        Some(Err(m)) => Err(m),
        Some(Ok(Some(id))) => {
            if !id.as_str().is_empty() {
                Ok(id)
            } else {
                Err(IDENTITY_REQUIRED.to_owned())
            }
        },
        _ => Err(IDENTITY_REQUIRED.to_owned()),
    }
}

} // verus!
