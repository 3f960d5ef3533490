//! HTTP status classification, and whether a GitHub account is a user,
//! an organisation or the token's own account, read from the account's
//! JSON document. No network here.

use vstd::prelude::*;
use crate::json::parse;
use crate::json::parser::{Parsed, document};
use crate::metrics::SubjectKind;
use crate::text::{dec, eq_ignore_ascii_case, eq_ignore_ascii_case_spec, push_str, push_u64, string_of};
use super::client::{FetchError, head, head_spec};
use super::str_field;

verus! {

#[derive(Debug, Clone, Copy, PartialEq, Eq, Structural)]
pub enum ProbeKind {
    Org,
    SelfUser,
    User,
}

pub open spec fn probe_subject_kind(k: ProbeKind) -> SubjectKind {
    match k {
        ProbeKind::Org => SubjectKind::Org,
        _ => SubjectKind::User,
    }
}

impl ProbeKind {
    /// Organisations are orgs; the token's own account is a user.
    pub fn subject_kind(self) -> (k: SubjectKind)
        ensures
            k == probe_subject_kind(self),
    {
        match self {
            ProbeKind::Org => SubjectKind::Org,
            ProbeKind::SelfUser => SubjectKind::User,
            ProbeKind::User => SubjectKind::User,
        }
    }
}

#[derive(Debug, Clone, Copy, PartialEq, Eq, Structural)]
pub enum StatusClass {
    Success,
    NotFound,
    RateLimited,
    Other(u16),
}

pub open spec fn classify(status: u16) -> StatusClass {
    if 200 <= status <= 299 {
        StatusClass::Success
    } else if status == 404 {
        StatusClass::NotFound
    } else if status == 403 || status == 429 {
        StatusClass::RateLimited
    } else {
        StatusClass::Other(status)
    }
}

/// 2xx is ok, 404 is a missing account, 403 and 429 are GitHub's rate
/// limit; anything else is reported with its number.
pub fn classify_status(status: u16) -> (c: StatusClass)
    ensures
        c == classify(status),
{
    if 200 <= status && status <= 299 {
        StatusClass::Success
    } else if status == 404 {
        StatusClass::NotFound
    } else if status == 403 || status == 429 {
        StatusClass::RateLimited
    } else {
        StatusClass::Other(status)
    }
}

/// The failure a request on `url` that answered `status` with `body` stands for.
pub open spec fn fetch_error_spec(status: u16, url: Seq<char>, body: Seq<char>) -> (bool, Seq<char>) {
    match classify(status) {
        StatusClass::NotFound => (true, url),
        StatusClass::RateLimited => (false, "GitHub rate limit hit"@),
        StatusClass::Success => (false, "unexpected ok on "@ + url),
        StatusClass::Other(s) => (false, "GET "@ + url + " -> "@ + dec(s as nat) + ": "@ + head_spec(body)),
    }
}

/// The error for an answer that is not a page of repos: a 404 is a
/// missing account, a rate limit says so (it is never reported as a
/// missing account), anything else quotes the status and the start of
/// the body.
pub fn fetch_error(status: u16, url: &str, body: &str) -> (e: FetchError)
    ensures
        fetch_error_spec(status, url@, body@).0 ==> (e matches FetchError::NotFound(s)
            && s@ == fetch_error_spec(status, url@, body@).1),
        !fetch_error_spec(status, url@, body@).0 ==> (e matches FetchError::Upstream(s)
            && s@ == fetch_error_spec(status, url@, body@).1),
{
    match classify_status(status) {
        StatusClass::NotFound => FetchError::NotFound(string_of(url)),
        StatusClass::RateLimited => FetchError::Upstream(string_of("GitHub rate limit hit")),
        StatusClass::Success => {
            let mut m = string_of("unexpected ok on ");
            push_str(&mut m, url);
            FetchError::Upstream(m)
        },
        StatusClass::Other(s) => {
            let mut m = string_of("GET ");
            push_str(&mut m, url);
            push_str(&mut m, " -> ");
            push_u64(&mut m, s as u64);
            push_str(&mut m, ": ");
            let h = head(body);
            push_str(&mut m, h.as_str());
            FetchError::Upstream(m)
        },
    }
}

/// What kind of account the document `body` of `GET /users/{name}`
/// describes, given the token's own login if known. A document that does
/// not parse says nothing, and the account is taken for a user.
pub open spec fn kind_from_doc(body: Seq<char>, name: Seq<char>, self_login: Option<Seq<char>>) -> ProbeKind {
    match document(body) {
        Parsed::Done(v, _) => if str_field(v, "type"@) == Some("Organization"@) {
            ProbeKind::Org
        } else if self_login matches Some(me) && eq_ignore_ascii_case_spec(me, name) {
            ProbeKind::SelfUser
        } else {
            ProbeKind::User
        },
        _ => ProbeKind::User,
    }
}

/// `body` is the JSON from `GET /users/{name}`; `self_login` is the
/// token's own login, if known. The login comparison ignores ASCII case.
pub fn kind_from_user_doc(body: &str, name: &str, self_login: Option<&str>) -> (k: ProbeKind)
    ensures
        k == kind_from_doc(body@, name@, match self_login {
            Some(me) => Some(me@),
            None => None,
        }),
{
    let v = match parse(body) {
        Ok(v) => v,
        Err(_) => return ProbeKind::User,
    };
    let is_org = match v.get("type") {
        Some(t) => match t.as_str() {
            Some(s) => crate::text::str_eq(s, "Organization"),
            None => false,
        },
        None => false,
    };
    proof {
        reveal_strlit("Organization");
    }
    if is_org {
        return ProbeKind::Org;
    }
    match self_login {
        Some(me) => {
            if eq_ignore_ascii_case(me, name) {
                return ProbeKind::SelfUser;
            }
        },
        None => {},
    }
    ProbeKind::User
}

} // verus!
