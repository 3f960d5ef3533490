//! The decisions of the GitHub REST client: which endpoint lists a
//! subject's repos, how a page URL is built, and what one page's HTTP
//! answer means. Sending the requests is the caller's part.

use vstd::prelude::*;

use crate::json::unexpected_end;
use crate::json::parser::{Parsed, document};
use crate::json::value::JVal;
use crate::json::parse;
use crate::text::{chars_of, dec, eq_ignore_ascii_case, eq_ignore_ascii_case_spec, push_str, push_u64, string_of, str_eq};
use crate::time::{trim, trim_str};
use super::{Repo, first_bad, parse_repos, repo_error, repo_from, str_field};
use super::status::ProbeKind;

verus! {

/// How many pages of 100 the client walks.
pub const MAX_PAGES: u32 = 10;

#[derive(Debug)]
pub enum FetchError {
    NotFound(String),
    Upstream(String),
}

impl FetchError {
    /// The text a person reads.
    pub fn message(&self) -> (r: String)
        ensures
            match self {
                FetchError::NotFound(s) => r@ == "no such user or org: "@ + s@,
                FetchError::Upstream(s) => r@ == "github: "@ + s@,
            },
    {
        let mut r = match self {
            FetchError::NotFound(_) => string_of("no such user or org: "),
            FetchError::Upstream(_) => string_of("github: "),
        };
        match self {
            FetchError::NotFound(s) => push_str(&mut r, s.as_str()),
            FetchError::Upstream(s) => push_str(&mut r, s.as_str()),
        }
        r
    }
}

/// The first 200 characters of `s` (all of it when shorter).
pub open spec fn head_spec(s: Seq<char>) -> Seq<char> {
    if s.len() <= 200 { s } else { s.take(200) }
}

/// The first 200 characters of `s`: how much of an error body is quoted.
pub fn head(s: &str) -> (r: String)
    ensures
        r@ == head_spec(s@),
{
    let cs = chars_of(s);
    let n: usize = if cs.len() < 200 { cs.len() } else { 200 };
    let mut r = String::new();
    let mut i: usize = 0;
    while i < n
        invariant
            cs@ == s@,
            n <= cs@.len(),
            n == (if s@.len() <= 200 { s@.len() } else { 200 }),
            i <= n,
            r@ == s@.take(i as int),
        decreases n - i,
    {
        crate::text::push_char(&mut r, cs[i]);
        i += 1;
        assert(r@ =~= s@.take(i as int));
    }
    assert(s@.len() <= 200 ==> s@.take(n as int) =~= s@);
    r
}

/// The endpoint that lists the repos of `name`, by what kind of account it is.
pub open spec fn repos_endpoint_spec(kind: ProbeKind, name: Seq<char>) -> Seq<char> {
    match kind {
        ProbeKind::Org => "https://api.github.com/orgs/"@ + name + "/repos?type=all"@,
        ProbeKind::SelfUser => "https://api.github.com/user/repos?visibility=all&affiliation=owner"@,
        ProbeKind::User => "https://api.github.com/users/"@ + name + "/repos"@,
    }
}

/// The endpoint that lists the repos of `name`: an organisation's, the
/// token owner's own (private ones too), or a user's public ones.
pub fn repos_endpoint(kind: ProbeKind, name: &str) -> (r: String)
    ensures
        r@ == repos_endpoint_spec(kind, name@),
{
    match kind {
        ProbeKind::Org => {
            let mut r = string_of("https://api.github.com/orgs/");
            push_str(&mut r, name);
            push_str(&mut r, "/repos?type=all");
            r
        },
        ProbeKind::SelfUser => string_of(
            "https://api.github.com/user/repos?visibility=all&affiliation=owner",
        ),
        ProbeKind::User => user_repos_endpoint(name),
    }
}

/// The user endpoint for `name`'s repos; also the fallback when an
/// organisation listing says not found.
pub fn user_repos_endpoint(name: &str) -> (r: String)
    ensures
        r@ == "https://api.github.com/users/"@ + name@ + "/repos"@,
{
    let mut r = string_of("https://api.github.com/users/");
    push_str(&mut r, name);
    push_str(&mut r, "/repos");
    r
}

/// Whether a failed listing is retried on the user endpoint: only an
/// organisation listing that came back not found.
pub fn retry_as_user(kind: ProbeKind, e: &FetchError) -> (b: bool)
    ensures
        b == (kind == ProbeKind::Org && e is NotFound),
{
    match e {
        FetchError::NotFound(_) => kind == ProbeKind::Org,
        FetchError::Upstream(_) => false,
    }
}

/// `page` of a list endpoint, 100 per page; the query is joined with `&`
/// when `base` already has one, else with `?`.
pub open spec fn page_url_spec(base: Seq<char>, page: nat) -> Seq<char> {
    (if base.contains('?') { base.push('&') } else { base.push('?') })
        + "per_page=100&page="@ + dec(page)
}

/// The URL of one page of 100 of a list endpoint.
pub fn page_url(base: &str, page: u32) -> (r: String)
    ensures
        r@ == page_url_spec(base@, page as nat),
{
    let cs = chars_of(base);
    let mut has_query = false;
    let mut i: usize = 0;
    while i < cs.len()
        invariant
            cs@ == base@,
            i <= cs@.len(),
            has_query == (exists|j: int| 0 <= j < i && cs@[j] == '?'),
        decreases cs.len() - i,
    {
        if cs[i] == '?' {
            has_query = true;
        }
        i += 1;
    }
    let mut r = string_of(base);
    if has_query {
        crate::text::push_char(&mut r, '&');
    } else {
        crate::text::push_char(&mut r, '?');
    }
    push_str(&mut r, "per_page=100&page=");
    push_u64(&mut r, page as u64);
    proof {
        if base@.contains('?') {
            let j = choose|j: int| 0 <= j < base@.len() && base@[j] == '?';
            assert(cs@[j] == '?');
        }
    }
    r
}

/// The text of an HTTP failure on `url`: `GET <url> -> <status>: <head of body>`.
pub open spec fn http_failure_text(url: Seq<char>, status: nat, body: Seq<char>) -> Seq<char> {
    "GET "@ + url + " -> "@ + dec(status) + ": "@ + head_spec(body)
}

pub fn http_failure(url: &str, status: u16, body: &str) -> (r: String)
    ensures
        r@ == http_failure_text(url@, status as nat, body@),
{
    let mut m = string_of("GET ");
    push_str(&mut m, url);
    push_str(&mut m, " -> ");
    push_u64(&mut m, status as u64);
    push_str(&mut m, ": ");
    let h = head(body);
    push_str(&mut m, h.as_str());
    m
}

/// What one page request answered with `status` and `body` means: not
/// found on 404, the repos on a 2xx (an unreadable list is an upstream
/// failure carrying the parse error's text), an upstream failure quoting
/// the status and the start of the body otherwise.
pub fn page_result(url: &str, status: u16, body: &str) -> (r: Result<Vec<Repo>, FetchError>)
    ensures
        status == 404 ==> (r matches Err(FetchError::NotFound(u)) && u@ == url@),
        status != 404 && !(200 <= status < 300) ==> (r matches Err(FetchError::Upstream(m))
            && m@ == http_failure_text(url@, status as nat, body@)),
        200 <= status < 300 ==> match document(body@) {
            Parsed::Done(JVal::Array(items), _) => match first_bad(items, 0) {
                Some(i) => r matches Err(FetchError::Upstream(m))
                    && m@ == "json: "@ + repo_error(items[i])->0,
                None => r matches Ok(rs) && rs@.len() == items.len()
                    && forall|i: int| 0 <= i < items.len() ==> repo_from(#[trigger] rs@[i], items[i]),
            },
            Parsed::Done(_, _) => r matches Err(FetchError::Upstream(m)) && m@ == "json: expected array"@,
            Parsed::Fail(m0) => r matches Err(FetchError::Upstream(m)) && m@ == "json: "@ + m0,
            Parsed::Crash => r matches Err(FetchError::Upstream(m)) && m@ == "json: "@ + unexpected_end(),
        },
{
    if status == 404 {
        return Err(FetchError::NotFound(string_of(url)));
    }
    if 200 <= status && status < 300 {
        match parse_repos(body) {
            Ok(rs) => Ok(rs),
            Err(e) => {
                let m = e.message();
                proof {
                    reveal_strlit("json: ");
                    reveal_strlit("json: expected array");
                    reveal_strlit("expected array");
                    assert("json: "@ + "expected array"@ =~= "json: expected array"@);
                }
                Err(FetchError::Upstream(m))
            },
        }
    } else {
        Err(FetchError::Upstream(http_failure(url, status, body)))
    }
}

/// The first candidate that is set and not blank, trimmed.
pub open spec fn first_token(cands: Seq<Option<Seq<char>>>, from: int) -> Option<Seq<char>>
    decreases cands.len() - from,
{
    if from < 0 || from >= cands.len() {
        None
    } else if cands[from] matches Some(t) && trim(t).len() > 0 {
        Some(trim(cands[from]->0))
    } else {
        first_token(cands, from + 1)
    }
}

pub open spec fn opt_views(cands: Seq<Option<String>>) -> Seq<Option<Seq<char>>> {
    cands.map_values(|c: Option<String>| match c {
        Some(s) => Some(s@),
        None => None,
    })
}

/// The API token: the first of the candidate settings (in the order
/// `NECRO_TOKEN`, `GH_TOKEN`, `GITHUB_TOKEN`) that is set and not blank,
/// without surrounding whitespace.
pub fn pick_token(cands: &Vec<Option<String>>) -> (r: Option<String>)
    ensures
        match r {
            Some(t) => first_token(opt_views(cands@), 0) == Some(t@),
            None => first_token(opt_views(cands@), 0) is None,
        },
{
    let ghost cs = opt_views(cands@);
    let mut i: usize = 0;
    while i < cands.len()
        invariant
            cs == opt_views(cands@),
            cs.len() == cands@.len(),
            i <= cands@.len(),
            first_token(cs, 0) == first_token(cs, i as int),
        decreases cands.len() - i,
    {
        assert(cs[i as int] == match cands@[i as int] { Some(s) => Some(s@), None => None::<Seq<char>> });
        match &cands[i] {
            Some(v) => {
                let t = trim_str(v.as_str());
                if t.unicode_len() > 0 {
                    return Some(string_of(t));
                }
            },
            None => {},
        }
        i += 1;
    }
    None
}

/// The string under `k` in the JSON document `body`, if it parses and has one.
pub open spec fn doc_str_field(body: Seq<char>, k: Seq<char>) -> Option<Seq<char>> {
    match document(body) {
        Parsed::Done(v, _) => str_field(v, k),
        _ => None,
    }
}

/// Whether the answer to `GET /users/{name}` says the account is an
/// organisation: a 200 whose document has `"type": "Organization"`.
pub fn probe_says_org(status: u16, body: &str) -> (b: bool)
    ensures
        b == (status == 200 && doc_str_field(body@, "type"@) == Some("Organization"@)),
{
    if status != 200 {
        return false;
    }
    proof {
        reveal_strlit("Organization");
    }
    match parse(body) {
        Ok(v) => match v.get("type") {
            Some(t) => match t.as_str() {
                Some(s) => str_eq(s, "Organization"),
                None => false,
            },
            None => false,
        },
        Err(_) => false,
    }
}

/// Whether the answer to `GET /user` (the token's own account) names
/// `name`, ignoring ASCII case: a 200 whose document's `login` matches.
pub fn own_login_is(status: u16, body: &str, name: &str) -> (b: bool)
    ensures
        b == (status == 200 && doc_str_field(body@, "login"@) is Some
            && eq_ignore_ascii_case_spec(doc_str_field(body@, "login"@)->0, name@)),
{
    if status != 200 {
        return false;
    }
    match parse(body) {
        Ok(v) => match v.get("login") {
            Some(t) => match t.as_str() {
                Some(s) => eq_ignore_ascii_case(s, name),
                None => false,
            },
            None => false,
        },
        Err(_) => false,
    }
}

} // verus!
