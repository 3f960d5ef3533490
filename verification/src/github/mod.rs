//! GitHub REST surface: the `Repo` record and reading it from the API's
//! JSON; status classification, subject/path validation and the page walk
//! live in the submodules.

pub mod client;
pub mod pages;
pub mod routes;
pub mod status;

use vstd::prelude::*;
use crate::error::Error;
use crate::json::unexpected_end;
use crate::json::parser::{Parsed, document};
use crate::json::value::{JVal, Value, jget, model_items, lemma_model_items};
use crate::text::string_of;
use crate::time::{Utc, rfc3339};

verus! {

#[derive(Debug, Clone)]
pub struct Repo {
    pub name: String,
    /// `None` means "born dead": the repo never received a commit.
    pub pushed_at: Option<Utc>,
    pub created_at: Utc,
    pub archived: bool,
    pub fork: bool,
    pub stargazers_count: u64,
    pub html_url: String,
}

/// The string stored under `k`, if there is one.
pub open spec fn str_field(v: JVal, k: Seq<char>) -> Option<Seq<char>> {
    match jget(v, k) {
        Some(JVal::Str(s)) => Some(s),
        _ => None,
    }
}

/// The boolean stored under `k`; `false` when absent or not a boolean.
pub open spec fn bool_field(v: JVal, k: Seq<char>) -> bool {
    match jget(v, k) {
        Some(JVal::Bool(b)) => b,
        _ => false,
    }
}

/// The number stored under `k`, negatives as 0; 0 when absent.
pub open spec fn count_field(v: JVal, k: Seq<char>) -> int {
    match jget(v, k) {
        Some(JVal::Num(n)) => if n < 0 { 0 } else { n },
        _ => 0,
    }
}

/// Why a JSON value is not a repo: a missing name, a missing creation
/// time, or a creation time that is not RFC 3339.
pub open spec fn repo_error(v: JVal) -> Option<Seq<char>> {
    if str_field(v, "name"@) is None {
        Some("missing name"@)
    } else if str_field(v, "created_at"@) is None {
        Some("missing created_at"@)
    } else if rfc3339(str_field(v, "created_at"@)->0) is None {
        Some("bad created_at"@)
    } else {
        None
    }
}

/// `r` holds the fields of the repo JSON `v`.
pub open spec fn repo_from(r: Repo, v: JVal) -> bool {
    &&& r.name@ == str_field(v, "name"@)->0
    &&& r.created_at.0 == rfc3339(str_field(v, "created_at"@)->0)->0
    &&& r.pushed_at == match str_field(v, "pushed_at"@) {
        Some(t) => match rfc3339(t) {
            Some(x) => Some(Utc(x as i64)),
            None => None,
        },
        None => None,
    }
    &&& r.archived == bool_field(v, "archived"@)
    &&& r.fork == bool_field(v, "fork"@)
    &&& r.stargazers_count == count_field(v, "stargazers_count"@)
    &&& r.html_url@ == match str_field(v, "html_url"@) {
        Some(u) => u,
        None => Seq::empty(),
    }
}

/// The first element of `items` that is not a repo, from `from` on.
pub open spec fn first_bad(items: Seq<JVal>, from: int) -> Option<int>
    decreases items.len() - from,
{
    if from < 0 || from >= items.len() {
        None
    } else if repo_error(items[from]) is Some {
        Some(from)
    } else {
        first_bad(items, from + 1)
    }
}

/// Reads one repo from its JSON object.
fn parse_repo(v: &Value) -> (r: Result<Repo, Error>)
    ensures
        match repo_error(v.model()) {
            Some(m) => r matches Err(Error::Json(x)) && x@ == m,
            None => r matches Ok(repo) && repo_from(repo, v.model()),
        },
{
    let name = match v.get("name") {
        Some(x) => match x.as_str() {
            Some(s) => string_of(s),
            None => return Err(Error::Json(string_of("missing name"))),
        },
        None => return Err(Error::Json(string_of("missing name"))),
    };
    let created = match v.get("created_at") {
        Some(x) => match x.as_str() {
            Some(s) => s,
            None => return Err(Error::Json(string_of("missing created_at"))),
        },
        None => return Err(Error::Json(string_of("missing created_at"))),
    };
    let created_at = match Utc::parse_rfc3339(created) {
        Some(t) => t,
        None => return Err(Error::Json(string_of("bad created_at"))),
    };
    let pushed_at = match v.get("pushed_at") {
        Some(x) => match x.as_str() {
            Some(s) => Utc::parse_rfc3339(s),
            None => None,
        },
        None => None,
    };
    let archived = match v.get("archived") {
        Some(x) => match x.as_bool() {
            Some(b) => b,
            None => false,
        },
        None => false,
    };
    let fork = match v.get("fork") {
        Some(x) => match x.as_bool() {
            Some(b) => b,
            None => false,
        },
        None => false,
    };
    let stargazers_count = match v.get("stargazers_count") {
        Some(x) => match x.as_u64() {
            Some(n) => n,
            None => 0,
        },
        None => 0,
    };
    let html_url = match v.get("html_url") {
        Some(x) => match x.as_str() {
            Some(s) => string_of(s),
            None => String::new(),
        },
        None => String::new(),
    };
    Ok(Repo { name, pushed_at, created_at, archived, fork, stargazers_count, html_url })
}

/// Reads the repos of a GitHub list response: a JSON array of repo objects.
pub fn parse_repos(json_text: &str) -> (r: Result<Vec<Repo>, Error>)
    ensures
        match document(json_text@) {
            Parsed::Done(JVal::Array(items), _) => match first_bad(items, 0) {
                Some(i) => r matches Err(Error::Json(x)) && x@ == repo_error(items[i])->0,
                None => r matches Ok(rs) && rs@.len() == items.len()
                    && forall|i: int| 0 <= i < items.len() ==> repo_from(#[trigger] rs@[i], items[i]),
            },
            Parsed::Done(_, _) => r matches Err(Error::Json(x)) && x@ == "expected array"@,
            Parsed::Fail(m) => r matches Err(Error::Json(x)) && x@ == m,
            Parsed::Crash => r matches Err(Error::Json(x)) && x@ == unexpected_end(),
        },
{
    let v = match crate::json::parse(json_text) {
        Ok(v) => v,
        Err(e) => return Err(e),
    };
    let arr = match v {
        Value::Array(a) => a,
        _ => return Err(Error::Json(string_of("expected array"))),
    };
    proof {
        lemma_model_items(arr@);
    }
    let ghost items = model_items(arr@);
    let mut out: Vec<Repo> = Vec::new();
    let mut i: usize = 0;
    while i < arr.len()
        invariant
            document(json_text@) matches Parsed::Done(JVal::Array(it), _) && it == items,
            items == model_items(arr@),
            items.len() == arr@.len(),
            forall|j: int| 0 <= j < arr@.len() ==> #[trigger] items[j] == arr@[j].model(),
            i <= arr@.len(),
            first_bad(items, 0) == first_bad(items, i as int),
            out@.len() == i,
            forall|j: int| 0 <= j < i ==> repo_from(#[trigger] out@[j], items[j]),
        decreases arr.len() - i,
    {
        let rr = parse_repo(&arr[i]);
        match rr {
            Ok(repo) => {
                out.push(repo);
            },
            Err(e) => {
                assert(first_bad(items, i as int) == Some(i as int));
                return Err(e);
            },
        }
        i += 1;
    }
    proof {
        assert(first_bad(items, i as int) is None);
    }
    Ok(out)
}

/// A repo read from a JSON object carries what the object stores: its
/// name and URL are the strings under `name` and `html_url` (the URL empty
/// when there is none), `fork` and `archived` are the booleans stored
/// under those keys (false when absent or not a boolean), the star count
/// is the number under `stargazers_count` (0 when absent, negatives as
/// 0), and the last push is the parsed `pushed_at` time (none when absent
/// or not a time).
pub proof fn law_repo_fields(r: Repo, v: JVal)
    requires
        repo_from(r, v),
    ensures
        jget(v, "fork"@) == Some(JVal::Bool(true)) ==> r.fork,
        jget(v, "fork"@) == Some(JVal::Bool(false)) ==> !r.fork,
        !(jget(v, "fork"@) matches Some(JVal::Bool(_))) ==> !r.fork,
        jget(v, "archived"@) == Some(JVal::Bool(true)) ==> r.archived,
        jget(v, "archived"@) == Some(JVal::Bool(false)) ==> !r.archived,
        !(jget(v, "archived"@) matches Some(JVal::Bool(_))) ==> !r.archived,
        forall|s: Seq<char>| jget(v, "name"@) == Some(JVal::Str(s)) ==> r.name@ == s,
        forall|s: Seq<char>| jget(v, "html_url"@) == Some(JVal::Str(s)) ==> r.html_url@ == s,
        !(jget(v, "html_url"@) matches Some(JVal::Str(_))) ==> r.html_url@.len() == 0,
        forall|n: int| jget(v, "stargazers_count"@) == Some(JVal::Num(n)) && n >= 0 ==> r.stargazers_count == n,
        !(jget(v, "stargazers_count"@) matches Some(JVal::Num(n)) && n > 0) ==> r.stargazers_count == 0,
        forall|t: Seq<char>| jget(v, "pushed_at"@) == Some(JVal::Str(t)) && rfc3339(t) is Some
            ==> r.pushed_at == Some(Utc(rfc3339(t)->0 as i64)),
        !(jget(v, "pushed_at"@) matches Some(JVal::Str(t)) && rfc3339(t) is Some) ==> r.pushed_at is None,
{
}

} // verus!
