//! Stillborn detection: born dead means no push, or pushed within 24h of
//! creation.

use vstd::prelude::*;
use crate::github::Repo;

verus! {

/// The last activity of a repo: its last push, or its creation.
pub open spec fn last_activity(r: Repo) -> int {
    match r.pushed_at {
        Some(p) => p.0 as int,
        None => r.created_at.0 as int,
    }
}

pub open spec fn stillborn_spec(r: Repo) -> bool {
    r.pushed_at is None || last_activity(r) - r.created_at.0 <= 24 * 3600
}

/// The repo was born dead: never pushed, or pushed only within 24 hours
/// of its creation.
pub fn stillborn(repo: &Repo) -> (b: bool)
    requires
        i64::MIN <= last_activity(*repo) - repo.created_at.0 <= i64::MAX,
    ensures
        b == stillborn_spec(*repo),
{
    let last = match repo.pushed_at {
        Some(p) => p,
        None => repo.created_at,
    };
    repo.pushed_at.is_none() || ((last.0 - repo.created_at.0) <= 24 * 3600)
}

} // verus!
