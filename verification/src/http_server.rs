//! The blocking HTTP/1.1 server's pure half: requests and responses as
//! values, reading a request line and header lines, the status line and
//! headers written before a body, and the per-IP rate limiter. The
//! listener, sockets and threads belong to the caller.

use vstd::prelude::*;
use vstd::string::*;
use crate::text::{chars_of, dec, push_str, push_u64, string_from_chars, string_of};
use crate::time::{trim, trim_end};
use crate::http::parse::{find_chars, find_from, lemma_find_from_bounds, sub_chars, trim_chars};

verus! {

#[derive(Debug)]
pub struct Request {
    pub method: String,
    pub path: String,
    pub query: String,
    pub headers: Vec<(String, String)>,
    pub peer: String,
}

#[derive(Debug)]
pub struct Response {
    pub status: u16,
    pub headers: Vec<(String, String)>,
    pub body: Vec<u8>,
}

/// `r` answers `status` with a single `Content-Type: ctype` header and
/// the body `body`.
pub open spec fn typed(r: Response, status: u16, ctype: Seq<char>, body: Seq<u8>) -> bool {
    &&& r.status == status
    &&& r.headers@.len() == 1
    &&& r.headers@[0].0@ == "Content-Type"@
    &&& r.headers@[0].1@ == ctype
    &&& r.body@ == body
}

pub open spec fn html_type() -> Seq<char> {
    "text/html; charset=utf-8"@
}

pub open spec fn svg_type() -> Seq<char> {
    "image/svg+xml; charset=utf-8"@
}

pub open spec fn plain_type() -> Seq<char> {
    "text/plain; charset=utf-8"@
}

impl Response {
    /// A 200 HTML page.
    pub fn html(s: &str) -> (r: Self)
        ensures
            typed(r, 200, html_type(), s.spec_bytes()),
    {
        Response::with_type(200, "text/html; charset=utf-8", s.as_bytes_vec())
    }

    /// A 200 SVG image.
    pub fn svg(s: &str) -> (r: Self)
        ensures
            typed(r, 200, svg_type(), s.spec_bytes()),
    {
        Response::with_type(200, "image/svg+xml; charset=utf-8", s.as_bytes_vec())
    }

    /// A 200 plain-text body.
    pub fn plain(s: &str) -> (r: Self)
        ensures
            typed(r, 200, plain_type(), s.spec_bytes()),
    {
        Response::with_type(200, "text/plain; charset=utf-8", s.as_bytes_vec())
    }

    /// A 302 to `path`, with no body.
    pub fn redirect(path: &str) -> (r: Self)
        ensures
            r.status == 302,
            r.headers@.len() == 1,
            r.headers@[0].0@ == "Location"@,
            r.headers@[0].1@ == path@,
            r.body@.len() == 0,
    {
        let mut headers: Vec<(String, String)> = Vec::new();
        headers.push((string_of("Location"), string_of(path)));
        Response { status: 302, headers, body: Vec::new() }
    }

    /// 404, `not found`.
    pub fn not_found() -> (r: Self)
        ensures
            typed(r, 404, plain_type(), "not found".spec_bytes()),
    {
        let body = "not found".as_bytes_vec();
        Response::with_type(404, "text/plain; charset=utf-8", body)
    }

    /// 400, `bad request`.
    pub fn bad_request() -> (r: Self)
        ensures
            typed(r, 400, plain_type(), "bad request".spec_bytes()),
    {
        let body = "bad request".as_bytes_vec();
        Response::with_type(400, "text/plain; charset=utf-8", body)
    }

    /// 429, `slow down`.
    pub fn too_many() -> (r: Self)
        ensures
            typed(r, 429, plain_type(), "slow down".spec_bytes()),
    {
        let body = "slow down".as_bytes_vec();
        Response::with_type(429, "text/plain; charset=utf-8", body)
    }

    /// A response with one `Content-Type` header.
    pub fn with_type(status: u16, ctype: &str, body: Vec<u8>) -> (r: Self)
        ensures
            typed(r, status, ctype@, body@),
    {
        let mut headers: Vec<(String, String)> = Vec::new();
        headers.push((string_of("Content-Type"), string_of(ctype)));
        Response { status, headers, body }
    }
}

#[verifier::external_type_specification]
#[verifier::external_body]
pub struct ExInstant(std::time::Instant);

/// `Instant::now`.
#[verifier::external_body]
fn instant_now() -> std::time::Instant {
    std::time::Instant::now()
}

/// `Instant::elapsed`: the time since `origin` on the monotonic clock.
/// What the clock reads is not stated.
#[verifier::external_body]
fn elapsed_since(origin: &std::time::Instant) -> core::time::Duration {
    origin.elapsed()
}

/// `Duration::as_nanos`: the whole nanoseconds of `d`. Nothing more is
/// stated.
#[verifier::external_body]
fn whole_nanos(d: &core::time::Duration) -> u128 {
    d.as_nanos()
}

/// The length of a rate-limit window: one minute, in nanoseconds.
pub const WINDOW_NANOS: u64 = 60_000_000_000;

/// The buckets of a limiter as a map from IP to (window start, count).
pub open spec fn bucket_map(s: Seq<(String, u64, u32)>) -> Map<Seq<char>, (u64, u32)>
    decreases s.len(),
{
    if s.len() == 0 {
        Map::empty()
    } else {
        bucket_map(s.drop_last()).insert(s.last().0@, (s.last().1, s.last().2))
    }
}

pub open spec fn no_dup_ips(s: Seq<(String, u64, u32)>) -> bool {
    forall|i: int, j: int| 0 <= i < j < s.len() ==> s[i].0@ != s[j].0@
}

/// One request from `ip` at time `now` (nanoseconds on the limiter's
/// clock): the IP's bucket (a fresh one if it has none) starts a new
/// window once a whole window has passed since its start; the request
/// is allowed, and counted, while the window's count is below `limit`.
/// A refused request still records the bucket.
pub open spec fn step(m: Map<Seq<char>, (u64, u32)>, limit: u32, ip: Seq<char>, now: u64) -> (Map<Seq<char>, (u64, u32)>, bool) {
    let b = if m.contains_key(ip) { m[ip] } else { (now, 0u32) };
    let b = if now >= b.0 && now - b.0 >= WINDOW_NANOS { (now, 0u32) } else { b };
    if b.1 >= limit {
        (m.insert(ip, b), false)
    } else {
        (m.insert(ip, (b.0, (b.1 + 1) as u32)), true)
    }
}

proof fn lemma_bucket_index(s: Seq<(String, u64, u32)>, i: int)
    requires
        no_dup_ips(s),
        0 <= i < s.len(),
    ensures
        bucket_map(s).contains_key(s[i].0@),
        bucket_map(s)[s[i].0@] == (s[i].1, s[i].2),
    decreases s.len(),
{
    if i < s.len() - 1 {
        lemma_bucket_index(s.drop_last(), i);
    }
}

proof fn lemma_bucket_absent(s: Seq<(String, u64, u32)>, k: Seq<char>)
    requires
        forall|i: int| 0 <= i < s.len() ==> s[i].0@ != k,
    ensures
        !bucket_map(s).contains_key(k),
    decreases s.len(),
{
    if s.len() > 0 {
        lemma_bucket_absent(s.drop_last(), k);
    }
}

proof fn lemma_bucket_keys(s: Seq<(String, u64, u32)>, k: Seq<char>)
    requires
        bucket_map(s).contains_key(k),
    ensures
        exists|i: int| 0 <= i < s.len() && s[i].0@ == k,
    decreases s.len(),
{
    if s.len() > 0 && s.last().0@ != k {
        lemma_bucket_keys(s.drop_last(), k);
        let i = choose|i: int| 0 <= i < s.drop_last().len() && s.drop_last()[i].0@ == k;
        assert(s[i].0@ == k);
    }
}

proof fn lemma_bucket_update(s: Seq<(String, u64, u32)>, i: int, e: (String, u64, u32))
    requires
        no_dup_ips(s),
        0 <= i < s.len(),
        e.0@ == s[i].0@,
    ensures
        bucket_map(s.update(i, e)) == bucket_map(s).insert(e.0@, (e.1, e.2)),
        no_dup_ips(s.update(i, e)),
    decreases s.len(),
{
    let t = s.update(i, e);
    if i == s.len() - 1 {
        assert(t.drop_last() =~= s.drop_last());
        assert(bucket_map(t) =~= bucket_map(s).insert(e.0@, (e.1, e.2)));
    } else {
        assert(t.drop_last() =~= s.drop_last().update(i, e));
        lemma_bucket_update(s.drop_last(), i, e);
        assert(s.last().0@ != e.0@);
        assert(bucket_map(t) =~= bucket_map(s).insert(e.0@, (e.1, e.2)));
    }
}

/// Per-IP request budget: `limit` requests per one-minute window.
pub struct RateLimiter {
    origin: std::time::Instant,
    /// The latest clock reading `allow` used, in nanoseconds since `origin`.
    last: u64,
    buckets: Vec<(String, u64, u32)>,
    limit: u32,
}

impl View for RateLimiter {
    type V = (Map<Seq<char>, (u64, u32)>, u32);

    closed spec fn view(&self) -> Self::V {
        (bucket_map(self.buckets@), self.limit)
    }
}

impl RateLimiter {
    /// The latest clock reading, in nanoseconds on the limiter's clock,
    /// that `allow` counted a request at; 0 before the first.
    pub closed spec fn clock(self) -> u64 {
        self.last
    }

    #[verifier::type_invariant]
    closed spec fn inv(self) -> bool {
        &&& no_dup_ips(self.buckets@)
        &&& forall|i: int| 0 <= i < self.buckets@.len() ==> #[trigger] self.buckets@[i].2 <= self.limit
    }

    /// A limiter that allows `limit` requests per IP per minute.
    pub fn new(limit: u32) -> (r: Self)
        ensures
            r@ == (Map::<Seq<char>, (u64, u32)>::empty(), limit),
            r.clock() == 0,
    {
        let r = RateLimiter { origin: instant_now(), last: 0, buckets: Vec::new(), limit };
        assert(bucket_map(r.buckets@) =~= Map::empty());
        r
    }

    /// Counts a request from `ip` at `now` nanoseconds on the limiter's
    /// clock and says whether it is allowed.
    pub fn allow_at(&mut self, ip: &str, now: u64) -> (b: bool)
        ensures
            (final(self)@.0, b) == step(old(self)@.0, old(self)@.1, ip@, now),
            final(self)@.1 == old(self)@.1,
            final(self).clock() == old(self).clock(),
            forall|k: Seq<char>| #[trigger] final(self)@.0.contains_key(k) ==> final(self)@.0[k].1 <= final(self)@.1,
    {
        proof {
            use_type_invariant(&*self);
        }
        let limit = self.limit;
        let mut v: Vec<(String, u64, u32)> = Vec::new();
        std::mem::swap(&mut v, &mut self.buckets);
        let ghost s0 = v@;
        let ghost m0 = bucket_map(s0);
        let mut idx: usize = 0;
        let mut found = false;
        while idx < v.len()
            invariant_except_break
                !found,
            invariant
                v@ == s0,
                idx <= v@.len(),
                forall|j: int| 0 <= j < idx ==> v@[j].0@ != ip@,
            ensures
                found ==> idx < v@.len() && v@[idx as int].0@ == ip@,
                !found ==> idx == v@.len(),
            decreases v.len() - idx,
        {
            if crate::text::str_eq(v[idx].0.as_str(), ip) {
                found = true;
                break;
            }
            idx += 1;
        }
        let (start, count) = if found {
            proof {
                lemma_bucket_index(s0, idx as int);
            }
            (v[idx].1, v[idx].2)
        } else {
            proof {
                lemma_bucket_absent(s0, ip@);
            }
            (now, 0u32)
        };
        let (start, count) = if now >= start && now - start >= WINDOW_NANOS { (now, 0u32) } else { (start, count) };
        let allowed = count < limit;
        let count = if allowed { count + 1 } else { count };
        let entry = (string_of(ip), start, count);
        if found {
            proof {
                lemma_bucket_update(s0, idx as int, entry);
            }
            v.set(idx, entry);
        } else {
            proof {
                assert(s0.push(entry).drop_last() =~= s0);
            }
            v.push(entry);
        }
        proof {
            assert forall|i: int| 0 <= i < v@.len() implies #[trigger] v@[i].2 <= limit by {
                if i < s0.len() && !(found && i == idx) {
                    assert(v@[i] == s0[i]);
                }
            }
            assert(no_dup_ips(v@)) by {
                if !found {
                    assert forall|i: int, j: int| 0 <= i < j < v@.len() implies v@[i].0@ != v@[j].0@ by {
                        if j == s0.len() {
                            assert(v@[i] == s0[i]);
                        } else {
                            assert(v@[i] == s0[i] && v@[j] == s0[j]);
                        }
                    }
                }
            }
        }
        proof {
            assert forall|k: Seq<char>| #[trigger] bucket_map(v@).contains_key(k) implies bucket_map(v@)[k].1 <= limit by {
                lemma_bucket_keys(v@, k);
                let i = choose|i: int| 0 <= i < v@.len() && v@[i].0@ == k;
                lemma_bucket_index(v@, i);
            }
        }
        self.buckets = v;
        allowed
    }

    /// Counts a request from `ip` now and says whether it is allowed: at
    /// most `limit` per IP in each one-minute window. The time is read on
    /// the monotonic clock; a reading is never taken as earlier than the
    /// one before (which the monotonic clock never gives anyway), so
    /// successive calls count at times that never go back.
    pub fn allow(&mut self, ip: &str) -> (b: bool)
        ensures
            exists|now: u64| now >= old(self).clock() && final(self).clock() == now
                && (final(self)@.0, b) == #[trigger] step(old(self)@.0, old(self)@.1, ip@, now),
            final(self)@.1 == old(self)@.1,
            forall|k: Seq<char>| #[trigger] final(self)@.0.contains_key(k) ==> final(self)@.0[k].1 <= final(self)@.1,
    {
        let n = whole_nanos(&elapsed_since(&self.origin));
        let read: u64 = if n > 18446744073709551615u128 { u64::MAX } else { n as u64 };
        let now: u64 = if read < self.last { self.last } else { read };
        let b = self.allow_at(ip, now);
        proof {
            use_type_invariant(&*self);
        }
        self.last = now;
        b
    }
}

/// `times.len()` requests from `ip`, one at each of `times` in order:
/// the buckets after them and how many were allowed.
pub open spec fn run(m: Map<Seq<char>, (u64, u32)>, limit: u32, ip: Seq<char>, times: Seq<u64>) -> (Map<Seq<char>, (u64, u32)>, nat)
    decreases times.len(),
{
    if times.len() == 0 {
        (m, 0)
    } else {
        let (m1, a) = run(m, limit, ip, times.drop_last());
        let (m2, b) = step(m1, limit, ip, times.last());
        (m2, a + if b { 1nat } else { 0nat })
    }
}

pub open spec fn min_nat(a: nat, b: nat) -> nat {
    if a <= b { a } else { b }
}

proof fn lemma_run_window(m: Map<Seq<char>, (u64, u32)>, limit: u32, ip: Seq<char>, times: Seq<u64>, k: int)
    requires
        !m.contains_key(ip),
        1 <= k <= times.len(),
        forall|i: int, j: int| 0 <= i <= j < times.len() ==> times[i] <= times[j],
        times.last() - times[0] < WINDOW_NANOS,
    ensures
        run(m, limit, ip, times.take(k)).0.contains_key(ip),
        run(m, limit, ip, times.take(k)).0[ip] == (times[0], min_nat(k as nat, limit as nat) as u32),
        run(m, limit, ip, times.take(k)).1 == min_nat(k as nat, limit as nat),
    decreases k,
{
    let t = times.take(k);
    if k == 1 {
        assert(t.drop_last() =~= Seq::<u64>::empty());
        assert(t.last() == times[0]);
        assert(run(m, limit, ip, t.drop_last()) == (m, 0nat));
    } else {
        lemma_run_window(m, limit, ip, times, k - 1);
        assert(t.drop_last() =~= times.take(k - 1));
        assert(t.last() == times[k - 1]);
        assert(times[0] <= times[k - 1] <= times[times.len() - 1]);
        let prev = run(m, limit, ip, times.take(k - 1));
        assert(run(m, limit, ip, t) == (step(prev.0, limit, ip, times[k - 1]).0,
            prev.1 + if step(prev.0, limit, ip, times[k - 1]).1 { 1nat } else { 0nat }));
        let c = min_nat((k - 1) as nat, limit as nat);
        assert(prev.0[ip] == (times[0], c as u32));
        if c >= limit {
            assert(!step(prev.0, limit, ip, times[k - 1]).1);
        } else {
            assert(step(prev.0, limit, ip, times[k - 1]).1);
        }
    }
}

/// The bucket of `ip` after the first `k` requests of `times`.
pub open spec fn bucket_after(m: Map<Seq<char>, (u64, u32)>, limit: u32, ip: Seq<char>, times: Seq<u64>, k: int) -> (u64, u32) {
    run(m, limit, ip, times.take(k)).0[ip]
}

/// Whether request `k` (from 0) of `times` is allowed.
pub open spec fn allowed_at(m: Map<Seq<char>, (u64, u32)>, limit: u32, ip: Seq<char>, times: Seq<u64>, k: int) -> bool {
    step(run(m, limit, ip, times.take(k)).0, limit, ip, times[k]).1
}

/// How many of the first `k` requests of `times` were allowed and
/// counted in the window that starts at `w`.
pub open spec fn allowed_in_window(m: Map<Seq<char>, (u64, u32)>, limit: u32, ip: Seq<char>, times: Seq<u64>, k: int, w: u64) -> nat
    decreases k,
{
    if k <= 0 {
        0
    } else {
        allowed_in_window(m, limit, ip, times, k - 1, w)
            + if bucket_after(m, limit, ip, times, k).0 == w && allowed_at(m, limit, ip, times, k - 1) { 1nat } else { 0nat }
    }
}

proof fn lemma_run_next(m: Map<Seq<char>, (u64, u32)>, limit: u32, ip: Seq<char>, times: Seq<u64>, k: int)
    requires
        0 <= k < times.len(),
    ensures
        run(m, limit, ip, times.take(k + 1)).0 == step(run(m, limit, ip, times.take(k)).0, limit, ip, times[k]).0,
{
    assert(times.take(k + 1).drop_last() =~= times.take(k));
    assert(times.take(k + 1).last() == times[k]);
}

proof fn lemma_run_windows(m: Map<Seq<char>, (u64, u32)>, limit: u32, ip: Seq<char>, times: Seq<u64>, k: int)
    requires
        !m.contains_key(ip),
        forall|i: int, j: int| 0 <= i <= j < times.len() ==> times[i] <= times[j],
        1 <= k <= times.len(),
    ensures
        run(m, limit, ip, times.take(k)).0.contains_key(ip),
        bucket_after(m, limit, ip, times, k).1 == allowed_in_window(m, limit, ip, times, k, bucket_after(m, limit, ip, times, k).0),
        bucket_after(m, limit, ip, times, k).1 <= limit,
        bucket_after(m, limit, ip, times, k).0 <= times[k - 1],
        forall|w: u64| #![trigger allowed_in_window(m, limit, ip, times, k, w)]
            w > bucket_after(m, limit, ip, times, k).0 ==> allowed_in_window(m, limit, ip, times, k, w) == 0,
        forall|w: u64| #![trigger allowed_in_window(m, limit, ip, times, k, w)]
            allowed_in_window(m, limit, ip, times, k, w) <= limit,
    decreases k,
{
    lemma_run_next(m, limit, ip, times, k - 1);
    let t = times[k - 1];
    if k == 1 {
        assert(times.take(0) =~= Seq::<u64>::empty());
        assert(run(m, limit, ip, times.take(0)).0 == m);
        assert forall|w: u64| #![trigger allowed_in_window(m, limit, ip, times, 1, w)]
            allowed_in_window(m, limit, ip, times, 1, w) == if bucket_after(m, limit, ip, times, 1).0 == w && allowed_at(m, limit, ip, times, 0) { 1nat } else { 0nat } by {
            assert(allowed_in_window(m, limit, ip, times, 0, w) == 0);
        }
    } else {
        lemma_run_windows(m, limit, ip, times, k - 1);
        let (s, c) = bucket_after(m, limit, ip, times, k - 1);
        assert(times[k - 2] <= t);
        assert forall|w: u64| #![trigger allowed_in_window(m, limit, ip, times, k, w)]
            allowed_in_window(m, limit, ip, times, k, w) == allowed_in_window(m, limit, ip, times, k - 1, w)
                + if bucket_after(m, limit, ip, times, k).0 == w && allowed_at(m, limit, ip, times, k - 1) { 1nat } else { 0nat } by {
        }
        if t - s >= WINDOW_NANOS {
            assert(allowed_in_window(m, limit, ip, times, k - 1, t) == 0);
        }
    }
}

/// The fixed-window rule, request by request: for requests from one IP
/// at times that never go back (as successive `allow` calls are, see
/// its `ensures`), each request is allowed exactly when fewer than
/// `limit` earlier requests were allowed in its window, and no window
/// ever admits more than `limit`.
pub proof fn law_window_admits_at_most_limit(m: Map<Seq<char>, (u64, u32)>, limit: u32, ip: Seq<char>, times: Seq<u64>)
    requires
        !m.contains_key(ip),
        forall|i: int, j: int| 0 <= i <= j < times.len() ==> times[i] <= times[j],
    ensures
        forall|k: int| #![trigger allowed_at(m, limit, ip, times, k)] 0 <= k < times.len() ==>
            allowed_at(m, limit, ip, times, k)
                == (allowed_in_window(m, limit, ip, times, k, bucket_after(m, limit, ip, times, k + 1).0) < limit),
        forall|w: u64| #![trigger allowed_in_window(m, limit, ip, times, times.len() as int, w)]
            allowed_in_window(m, limit, ip, times, times.len() as int, w) <= limit,
{
    assert forall|k: int| #![trigger allowed_at(m, limit, ip, times, k)] 0 <= k < times.len() implies
        allowed_at(m, limit, ip, times, k)
            == (allowed_in_window(m, limit, ip, times, k, bucket_after(m, limit, ip, times, k + 1).0) < limit) by {
        lemma_run_next(m, limit, ip, times, k);
        let t = times[k];
        if k == 0 {
            assert(times.take(0) =~= Seq::<u64>::empty());
            assert(run(m, limit, ip, times.take(0)).0 == m);
        } else {
            lemma_run_windows(m, limit, ip, times, k);
            let (s, c) = bucket_after(m, limit, ip, times, k);
            assert(times[k - 1] <= t);
            if t - s >= WINDOW_NANOS {
                assert(allowed_in_window(m, limit, ip, times, k, t) == 0);
            } else {
                assert(allowed_in_window(m, limit, ip, times, k, s) == c);
            }
        }
    }
    if times.len() > 0 {
        lemma_run_windows(m, limit, ip, times, times.len() as int);
    } else {
        assert forall|w: u64| #![trigger allowed_in_window(m, limit, ip, times, times.len() as int, w)]
            allowed_in_window(m, limit, ip, times, times.len() as int, w) <= limit by {
        }
    }
}

/// A fresh IP that sends `n` requests within one window gets exactly
/// `min(n, limit)` of them allowed.
pub proof fn law_one_window_allows_limit(m: Map<Seq<char>, (u64, u32)>, limit: u32, ip: Seq<char>, times: Seq<u64>)
    requires
        !m.contains_key(ip),
        times.len() > 0,
        forall|i: int, j: int| 0 <= i <= j < times.len() ==> times[i] <= times[j],
        times.last() - times[0] < WINDOW_NANOS,
    ensures
        run(m, limit, ip, times).1 == min_nat(times.len(), limit as nat),
{
    lemma_run_window(m, limit, ip, times, times.len() as int);
    assert(times.take(times.len() as int) =~= times);
}

/// A request from one IP leaves every other IP's bucket as it was.
pub proof fn law_other_ips_untouched(m: Map<Seq<char>, (u64, u32)>, limit: u32, ip: Seq<char>, other: Seq<char>, now: u64)
    requires
        other != ip,
    ensures
        step(m, limit, ip, now).0.contains_key(other) == m.contains_key(other),
        m.contains_key(other) ==> step(m, limit, ip, now).0[other] == m[other],
{
}

/// A refused request is not counted: the IP's window count stays at
/// the limit.
pub proof fn law_refusal_not_counted(m: Map<Seq<char>, (u64, u32)>, limit: u32, ip: Seq<char>, now: u64)
    requires
        !step(m, limit, ip, now).1,
        m.contains_key(ip) ==> m[ip].1 <= limit,
    ensures
        step(m, limit, ip, now).0[ip].1 == limit,
{
}

/// Once a whole window has passed since an IP's window began, its next
/// request is allowed again (for any limit above zero).
pub proof fn law_window_reopens(m: Map<Seq<char>, (u64, u32)>, limit: u32, ip: Seq<char>, now: u64)
    requires
        limit > 0,
        m.contains_key(ip),
        now >= m[ip].0,
        now - m[ip].0 >= WINDOW_NANOS,
    ensures
        step(m, limit, ip, now).1,
        step(m, limit, ip, now).0[ip] == (now, 1u32),
{
}

/// `str::trim_end`: the slice without trailing Unicode whitespace.
#[verifier::external_body]
fn trim_end_str(s: &str) -> (r: &str)
    ensures
        r@ == trim_end(s@),
{
    s.trim_end()
}

/// The characters of `s` before the first `c`, and those after it
/// (`None` when `c` does not occur).
pub open spec fn cut_at(s: Seq<char>, c: char) -> (Seq<char>, Option<Seq<char>>) {
    match find_from(s, seq![c], 0) {
        Some(i) => if 0 <= i < s.len() { (s.take(i), Some(s.skip(i + 1))) } else { (s, None) },
        None => (s, None),
    }
}

/// Method, path and query of a request line: its first two
/// space-separated fields (the second may be missing), the target cut at
/// its first `?`.
pub open spec fn request_line_parts(line: Seq<char>) -> (Seq<char>, Seq<char>, Seq<char>) {
    let l = trim_end(line);
    let method = cut_at(l, ' ').0;
    let target = match cut_at(l, ' ').1 {
        Some(rest) => cut_at(rest, ' ').0,
        None => Seq::empty(),
    };
    (cut_at(target, '?').0, match cut_at(target, '?').1 { Some(q) => q, None => Seq::empty() }, method)
}

fn cut_chars(s: &[char], c: char) -> (r: (Vec<char>, Option<Vec<char>>))
    ensures
        r.0@ == cut_at(s@, c).0,
        match r.1 {
            Some(x) => cut_at(s@, c).1 == Some(x@),
            None => cut_at(s@, c).1 is None,
        },
{
    let n = s.len();
    let pat: Vec<char> = vec![c];
    assert(pat@ =~= seq![c]);
    match find_chars(s, pat.as_slice()) {
        Some(i) => {
            proof { lemma_find_from_bounds(s@, pat@, 0); }
            (sub_chars(s, 0, i), Some(sub_chars(s, i + 1, n)))
        },
        None => {
            let all = sub_chars(s, 0, n);
            assert(all@ =~= s@);
            (all, None)
        },
    }
}

fn string_of_chars(cs: &Vec<char>) -> (r: String)
    ensures
        r@ == cs@,
{
    let r = string_from_chars(cs.as_slice(), 0, cs.len());
    assert(cs@.subrange(0, cs@.len() as int) =~= cs@);
    r
}

/// Reads a request line into method, path and query.
pub fn parse_request_line(line: &str) -> (r: (String, String, String))
    ensures
        r.0@ == request_line_parts(line@).2,
        r.1@ == request_line_parts(line@).0,
        r.2@ == request_line_parts(line@).1,
{
    let l = chars_of(trim_end_str(line));
    let (method, after) = cut_chars(l.as_slice(), ' ');
    let target = match after {
        Some(rest) => cut_chars(rest.as_slice(), ' ').0,
        None => Vec::new(),
    };
    let (path, query) = cut_chars(target.as_slice(), '?');
    let query = match query {
        Some(q) => q,
        None => Vec::new(),
    };
    (string_of_chars(&method), string_of_chars(&path), string_of_chars(&query))
}

/// What one header line of a request is.
#[derive(Debug)]
pub enum HeaderLine {
    /// The blank line that ends the head.
    End,
    /// `name: value`, both trimmed.
    Field(String, String),
    /// A line without a colon, which is skipped.
    Other,
}

/// Reads one header line (line ending included or not).
pub fn parse_header_line(line: &str) -> (r: HeaderLine)
    ensures
        trim_end(line@).len() == 0 ==> r is End,
        trim_end(line@).len() > 0 ==> match cut_at(trim_end(line@), ':').1 {
            Some(v) => r matches HeaderLine::Field(k, x) && k@ == trim(cut_at(trim_end(line@), ':').0) && x@ == trim(v),
            None => r is Other,
        },
{
    let l = chars_of(trim_end_str(line));
    if l.len() == 0 {
        return HeaderLine::End;
    }
    let (k, v) = cut_chars(l.as_slice(), ':');
    match v {
        Some(v) => {
            let kt = trim_chars(k.as_slice());
            let vt = trim_chars(v.as_slice());
            HeaderLine::Field(string_of_chars(&kt), string_of_chars(&vt))
        },
        None => HeaderLine::Other,
    }
}

pub open spec fn reason(status: u16) -> Seq<char> {
    if status == 200 {
        "OK"@
    } else if status == 302 {
        "Found"@
    } else if status == 400 {
        "Bad Request"@
    } else if status == 404 {
        "Not Found"@
    } else if status == 429 {
        "Too Many Requests"@
    } else if status == 500 {
        "Internal Server Error"@
    } else {
        "OK"@
    }
}

/// The reason phrase written after the status code.
pub fn reason_phrase(status: u16) -> (r: &'static str)
    ensures
        r@ == reason(status),
{
    if status == 200 {
        "OK"
    } else if status == 302 {
        "Found"
    } else if status == 400 {
        "Bad Request"
    } else if status == 404 {
        "Not Found"
    } else if status == 429 {
        "Too Many Requests"
    } else if status == 500 {
        "Internal Server Error"
    } else {
        "OK"
    }
}

/// `name: value` lines, each ended by CRLF.
pub open spec fn header_text(hs: Seq<(String, String)>) -> Seq<char>
    decreases hs.len(),
{
    if hs.len() == 0 {
        Seq::empty()
    } else {
        header_text(hs.drop_last()) + hs.last().0@ + ": "@ + hs.last().1@ + "\r\n"@
    }
}

/// Everything written before a response's body: the status line, its
/// `Content-Length`, its headers, and `Connection: close`.
pub open spec fn head_text(r: Response) -> Seq<char> {
    "HTTP/1.1 "@ + dec(r.status as nat) + " "@ + reason(r.status) + "\r\n"@
        + "Content-Length: "@ + dec(r.body@.len()) + "\r\n"@
        + header_text(r.headers@)
        + "Connection: close\r\n\r\n"@
}

/// The text written before the body of `resp`.
pub fn response_head(resp: &Response) -> (r: String)
    ensures
        r@ == head_text(*resp),
{
    let mut out = string_of("HTTP/1.1 ");
    push_u64(&mut out, resp.status as u64);
    push_str(&mut out, " ");
    push_str(&mut out, reason_phrase(resp.status));
    push_str(&mut out, "\r\n");
    push_str(&mut out, "Content-Length: ");
    push_u64(&mut out, resp.body.len() as u64);
    push_str(&mut out, "\r\n");
    let ghost start = out@;
    let mut i: usize = 0;
    while i < resp.headers.len()
        invariant
            i <= resp.headers@.len(),
            out@ == start + header_text(resp.headers@.take(i as int)),
        decreases resp.headers.len() - i,
    {
        let (k, v) = (&resp.headers[i].0, &resp.headers[i].1);
        push_str(&mut out, k.as_str());
        push_str(&mut out, ": ");
        push_str(&mut out, v.as_str());
        push_str(&mut out, "\r\n");
        proof {
            let t = resp.headers@.take(i + 1);
            assert(t.drop_last() =~= resp.headers@.take(i as int));
            assert(t.last() == resp.headers@[i as int]);
        }
        i += 1;
    }
    assert(resp.headers@.take(resp.headers@.len() as int) =~= resp.headers@);
    push_str(&mut out, "Connection: close\r\n\r\n");
    out
}

} // verus!
