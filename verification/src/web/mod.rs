//! The web service's decisions: which requests are rate limited, where a
//! path goes, the `/go` redirect, which subject a card or page path
//! names, what a failed fetch is answered with, and how readings are
//! keyed in the cache. The state, the clock and the network belong to
//! the caller.

pub mod css;
pub mod headers;
pub mod pages;

use vstd::prelude::*;
use vstd::string::*;
use vstd::utf8::encode_utf8;
use crate::escape::valid_subject;
use crate::github::client::FetchError;
use crate::http::parse::{strip_prefix, starts_with_chars, sub_chars, trim_chars};
use crate::http_server::{Request, Response, html_type, typed};
use crate::metrics::{SubjectKind, kind_prefix};
use crate::text::{chars_of, push_str, string_from_chars, string_of};
use crate::time::trim;
use pages::{NOT_FOUND_A, NOT_FOUND_B, UPSTREAM_BODY, page_text};

verus! {

/// Requests per IP per minute on the subject and redirect routes.
pub const LIMIT: u32 = 60;

/// How long a reading is served from the cache, per subject and kind:
/// five minutes.
pub const CACHE_TTL_SECS: u64 = 300;

/// Where a request path goes.
pub enum Route {
    Landing,
    Health,
    Go,
    /// `/u/…` or `/org/…`, with the rest of the path.
    Subject(String, SubjectKind),
    NotFound,
}

/// Paths that count against the rate limit.
pub open spec fn limited_path(path: Seq<char>) -> bool {
    strip_prefix(path, "/u/"@) is Some || strip_prefix(path, "/org/"@) is Some || strip_prefix(path, "/go"@) is Some
}

/// Whether a request to `path` is rate limited: the subject pages and
/// cards, and the redirect.
pub fn is_limited(path: &str) -> (b: bool)
    ensures
        b == limited_path(path@),
{
    let cs = chars_of(path);
    starts_with_chars(cs.as_slice(), "/u/") || starts_with_chars(cs.as_slice(), "/org/")
        || starts_with_chars(cs.as_slice(), "/go")
}

pub open spec fn route_spec(path: Seq<char>) -> (int, Seq<char>, SubjectKind) {
    if path == "/"@ || path.len() == 0 {
        (0, Seq::empty(), SubjectKind::User)
    } else if path == "/healthz"@ {
        (1, Seq::empty(), SubjectKind::User)
    } else if path == "/go"@ || strip_prefix(path, "/go?"@) is Some {
        (2, Seq::empty(), SubjectKind::User)
    } else if strip_prefix(path, "/u/"@) is Some {
        (3, strip_prefix(path, "/u/"@)->0, SubjectKind::User)
    } else if strip_prefix(path, "/org/"@) is Some {
        (3, strip_prefix(path, "/org/"@)->0, SubjectKind::Org)
    } else {
        (4, Seq::empty(), SubjectKind::User)
    }
}

/// The route of a path: `/` (or nothing) is the landing page,
/// `/healthz` the health check, `/go` the redirect, `/u/…` and `/org/…`
/// a subject; anything else is not found.
pub fn route_of(path: &str) -> (r: Route)
    ensures
        match r {
            Route::Landing => route_spec(path@).0 == 0,
            Route::Health => route_spec(path@).0 == 1,
            Route::Go => route_spec(path@).0 == 2,
            Route::Subject(rest, kind) => route_spec(path@).0 == 3 && route_spec(path@).1 == rest@
                && route_spec(path@).2 == kind,
            Route::NotFound => route_spec(path@).0 == 4,
        },
{
    let cs = chars_of(path);
    if crate::text::str_eq(path, "/") || cs.len() == 0 {
        return Route::Landing;
    }
    if crate::text::str_eq(path, "/healthz") {
        return Route::Health;
    }
    if crate::text::str_eq(path, "/go") || starts_with_chars(cs.as_slice(), "/go?") {
        return Route::Go;
    }
    if starts_with_chars(cs.as_slice(), "/u/") {
        proof {
            reveal_strlit("/u/");
        }
        let rest = sub_chars(cs.as_slice(), 3, cs.len());
        assert(rest@ =~= path@.skip(3));
        return Route::Subject(string_from_chars(rest.as_slice(), 0, rest.len()), SubjectKind::User);
    }
    if starts_with_chars(cs.as_slice(), "/org/") {
        proof {
            reveal_strlit("/org/");
        }
        let rest = sub_chars(cs.as_slice(), 5, cs.len());
        assert(rest@ =~= path@.skip(5));
        return Route::Subject(string_from_chars(rest.as_slice(), 0, rest.len()), SubjectKind::Org);
    }
    Route::NotFound
}

/// The value of the first `&`-separated field of a query that starts
/// with `subject=`, trimmed; empty when there is none.
pub open spec fn query_subject(q: Seq<char>) -> Seq<char>
    decreases q.len(),
{
    match crate::http::parse::find_from(q, seq!['&'], 0) {
        Some(i) => if 0 <= i < q.len() {
            match strip_prefix(q.take(i), "subject="@) {
                Some(v) => trim(v),
                None => query_subject(q.skip(i + 1)),
            }
        } else {
            Seq::empty()
        },
        None => match strip_prefix(q, "subject="@) {
            Some(v) => trim(v),
            None => Seq::empty(),
        },
    }
}

fn subject_field(q: &[char]) -> (r: Vec<char>)
    ensures
        r@ == query_subject(q@),
    decreases q@.len(),
{
    proof {
        reveal_strlit("subject=");
    }
    let n = q.len();
    let amp: Vec<char> = vec!['&'];
    assert(amp@ =~= seq!['&']);
    match crate::http::parse::find_chars(q, amp.as_slice()) {
        Some(i) => {
            proof {
                crate::http::parse::lemma_find_from_bounds(q@, amp@, 0);
            }
            let field = sub_chars(q, 0, i);
            if starts_with_chars(field.as_slice(), "subject=") {
                let v = sub_chars(field.as_slice(), 8, field.len());
                assert(v@ =~= field@.skip(8));
                trim_chars(v.as_slice())
            } else {
                let rest = sub_chars(q, i + 1, n);
                assert(rest@ =~= q@.skip(i + 1));
                subject_field(rest.as_slice())
            }
        },
        None => {
            if starts_with_chars(q, "subject=") {
                let v = sub_chars(q, 8, n);
                assert(v@ =~= q@.skip(8));
                trim_chars(v.as_slice())
            } else {
                Vec::new()
            }
        },
    }
}

/// `/go?subject=name` redirects to `/u/name` when `name` is a valid
/// GitHub login, and is a bad request otherwise.
pub fn handle_go(req: &Request) -> (r: Response)
    ensures
        valid_subject(query_subject(req.query@)) ==> r.status == 302 && r.headers@.len() == 1
            && r.headers@[0].0@ == "Location"@ && r.headers@[0].1@ == "/u/"@ + query_subject(req.query@),
        !valid_subject(query_subject(req.query@)) ==> typed(r, 400, crate::http_server::plain_type(), "bad request".spec_bytes()),
{
    let q = chars_of(req.query.as_str());
    let s = subject_field(q.as_slice());
    let subject = string_from_chars(s.as_slice(), 0, s.len());
    assert(s@.subrange(0, s@.len() as int) =~= s@);
    if !crate::github::routes::is_valid_subject(subject.as_str()) {
        return Response::bad_request();
    }
    let mut target = string_of("/u/");
    push_str(&mut target, subject.as_str());
    Response::redirect(target.as_str())
}

/// `s` without the suffix `p`, if it ends with it.
pub open spec fn strip_suffix(s: Seq<char>, p: Seq<char>) -> Option<Seq<char>> {
    if s.len() >= p.len() && s.skip(s.len() - p.len()) == p {
        Some(s.take(s.len() - p.len()))
    } else {
        None
    }
}

/// The subject a `/u/…` or `/org/…` path names and whether the card
/// (`.svg`) is wanted rather than the page.
pub open spec fn target_spec(rest: Seq<char>) -> (Seq<char>, bool) {
    match strip_suffix(rest, ".svg"@) {
        Some(n) => (n, true),
        None => (rest, false),
    }
}

/// The subject named by the rest of a subject path, and whether it asks
/// for the card; `None` when the name is not a valid GitHub login.
pub fn subject_target(rest: &str) -> (r: Option<(String, bool)>)
    ensures
        valid_subject(target_spec(rest@).0) ==> (r matches Some(t) && t.0@ == target_spec(rest@).0
            && t.1 == target_spec(rest@).1),
        !valid_subject(target_spec(rest@).0) ==> r is None,
{
    proof {
        reveal_strlit(".svg");
    }
    let cs = chars_of(rest);
    let n = cs.len();
    let is_svg = n >= 4 && cs[n - 4] == '.' && cs[n - 3] == 's' && cs[n - 2] == 'v' && cs[n - 1] == 'g';
    proof {
        if n >= 4 {
            if is_svg {
                assert(rest@.skip(n - 4) =~= ".svg"@);
            } else {
                assert(rest@.skip(n - 4) != ".svg"@) by {
                    if rest@.skip(n - 4) == ".svg"@ {
                        assert(rest@.skip(n - 4)[0] == '.');
                        assert(rest@.skip(n - 4)[1] == 's');
                        assert(rest@.skip(n - 4)[2] == 'v');
                        assert(rest@.skip(n - 4)[3] == 'g');
                    }
                }
            }
        }
    }
    let name = if is_svg { string_from_chars(cs.as_slice(), 0, n - 4) } else { string_from_chars(cs.as_slice(), 0, n) };
    assert(cs@.subrange(0, n as int) =~= cs@);
    if !crate::github::routes::is_valid_subject(name.as_str()) {
        return None;
    }
    Some((name, is_svg))
}

pub open spec fn kind_word(kind: SubjectKind) -> Seq<char> {
    match kind {
        SubjectKind::User => "user"@,
        SubjectKind::Org => "org"@,
    }
}

/// `user` or `org`, as the not-found message says it.
pub fn kind_str(kind: SubjectKind) -> (s: &'static str)
    ensures
        s@ == kind_word(kind),
{
    match kind {
        SubjectKind::User => "user",
        SubjectKind::Org => "org",
    }
}

/// What a failed fetch is answered with: a page that says GitHub knows
/// no such user or org, or a 502 page when GitHub did not answer.
pub fn failure_response(e: &FetchError, kind: SubjectKind) -> (r: Response)
    ensures
        match e {
            FetchError::NotFound(n) => typed(r, 200, html_type(), encode_utf8(page_text("not found"@,
                NOT_FOUND_A@ + crate::escape::esc("no such "@ + kind_word(kind) + ": "@ + n@) + NOT_FOUND_B@))),
            FetchError::Upstream(_) => typed(r, 502, html_type(), encode_utf8(page_text("upstream error"@, UPSTREAM_BODY@))),
        },
{
    match e {
        FetchError::NotFound(n) => {
            let mut msg = string_of("no such ");
            push_str(&mut msg, kind_str(kind));
            push_str(&mut msg, ": ");
            push_str(&mut msg, n.as_str());
            let p = pages::not_found(msg.as_str());
            Response::html(p.as_str())
        },
        FetchError::Upstream(_) => {
            let p = pages::upstream_error();
            Response::with_type(502, "text/html; charset=utf-8", p.as_str().as_bytes_vec())
        },
    }
}

/// The cache key of a subject: its kind's path prefix, a colon, the name.
pub fn cache_key(kind: SubjectKind, name: &str) -> (r: String)
    ensures
        r@ == kind_prefix(kind) + ":"@ + name@,
{
    let mut k = string_of(kind.prefix());
    push_str(&mut k, ":");
    push_str(&mut k, name);
    k
}

/// Whether a cached reading `age_secs` old is still served.
pub fn cache_fresh(age_secs: u64) -> (b: bool)
    ensures
        b == (age_secs < CACHE_TTL_SECS),
{
    age_secs < CACHE_TTL_SECS
}

/// Cache entries never mix: two subjects share a cache key only when
/// they have the same kind and the same name, so a reading cached for a
/// user never answers for an org of that name, nor the other way round.
pub proof fn law_cache_keys_distinct(k1: SubjectKind, n1: Seq<char>, k2: SubjectKind, n2: Seq<char>)
    requires
        kind_prefix(k1) + ":"@ + n1 == kind_prefix(k2) + ":"@ + n2,
    ensures
        k1 == k2,
        n1 == n2,
{
    reveal_strlit("u");
    reveal_strlit("org");
    reveal_strlit(":");
    let a = kind_prefix(k1) + ":"@ + n1;
    let b = kind_prefix(k2) + ":"@ + n2;
    if k1 != k2 {
        assert(a[0] != b[0]);
    } else {
        let p: int = kind_prefix(k1).len() as int + 1;
        assert(a.skip(p) =~= n1);
        assert(b.skip(p) =~= n2);
    }
}

} // verus!
