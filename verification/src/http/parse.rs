//! HTTP/1.1 response and URL parsing for the HTTPS client: where the
//! head ends, what the status and headers say, how a chunked body is
//! reassembled, and when a response read so far is complete.

use vstd::prelude::*;
use vstd::utf8::*;
use crate::error::Error;
use super::Response;
use crate::text::{chars_of, eq_ignore_ascii_case, eq_ignore_ascii_case_spec, string_from_chars, string_of};
use crate::time::{trim, trim_str};

verus! {

/// `n` stands in `h` at position `i`.
pub open spec fn occurs_at<T>(h: Seq<T>, n: Seq<T>, i: int) -> bool {
    0 <= i && i + n.len() <= h.len() && h.subrange(i, i + n.len()) == n
}

/// The first position at or after `i` where `n` stands in `h`.
pub open spec fn find_from<T>(h: Seq<T>, n: Seq<T>, i: int) -> Option<int>
    decreases h.len() + 1 - i,
{
    if i < 0 || i + n.len() > h.len() {
        None
    } else if occurs_at(h, n, i) {
        Some(i)
    } else {
        find_from(h, n, i + 1)
    }
}

/// The first position of a non-empty `n` in `h`; `None` for an empty `n`.
pub open spec fn find_first<T>(h: Seq<T>, n: Seq<T>) -> Option<int> {
    if n.len() == 0 { None } else { find_from(h, n, 0) }
}

pub proof fn lemma_find_from_bounds<T>(h: Seq<T>, n: Seq<T>, i: int)
    ensures
        find_from(h, n, i) matches Some(j) ==> i <= j && occurs_at(h, n, j)
            && forall|k: int| i <= k < j ==> !occurs_at(h, n, k),
    decreases h.len() + 1 - i,
{
    if !(i < 0 || i + n.len() > h.len()) && !occurs_at(h, n, i) {
        lemma_find_from_bounds(h, n, i + 1);
    }
}

/// First position of `needle` in `hay`; `None` when `needle` is empty or
/// longer than `hay`.
pub fn find_subslice(hay: &[u8], needle: &[u8]) -> (r: Option<usize>)
    ensures
        match r {
            Some(i) => find_first(hay@, needle@) == Some(i as int),
            None => find_first(hay@, needle@) is None,
        },
{
    if needle.len() == 0 || hay.len() < needle.len() {
        proof {
            if needle@.len() > 0 {
                assert(find_from(hay@, needle@, 0) is None);
            }
        }
        return None;
    }
    let last = hay.len() - needle.len();
    let mut i: usize = 0;
    while i <= last
        invariant
            needle@.len() > 0,
            hay@.len() <= usize::MAX,
            last == hay@.len() - needle@.len(),
            i <= last + 1,
            find_first(hay@, needle@) == find_from(hay@, needle@, i as int),
        decreases last + 1 - i,
    {
        let mut j: usize = 0;
        let mut same = true;
        while j < needle.len()
            invariant
                i <= last,
                hay@.len() <= usize::MAX,
                last == hay@.len() - needle@.len(),
                j <= needle@.len(),
                same == (forall|k: int| 0 <= k < j ==> hay@[i + k] == needle@[k]),
            decreases needle.len() - j,
        {
            if hay[i + j] != needle[j] {
                same = false;
            }
            j += 1;
        }
        if same {
            assert(hay@.subrange(i as int, i + needle@.len()) =~= needle@);
            return Some(i);
        }
        assert(!occurs_at(hay@, needle@, i as int)) by {
            if occurs_at(hay@, needle@, i as int) {
                let k = choose|k: int| 0 <= k < needle@.len() && hay@[i + k] != needle@[k];
                assert(hay@.subrange(i as int, i + needle@.len())[k] == hay@[i + k]);
            }
        }
        i += 1;
    }
    None
}

/// First position of the non-empty `pat` in `h`.
pub fn find_chars(h: &[char], pat: &[char]) -> (r: Option<usize>)
    requires
        pat@.len() > 0,
    ensures
        match r {
            Some(i) => find_from(h@, pat@, 0) == Some(i as int),
            None => find_from(h@, pat@, 0) is None,
        },
{
    if h.len() < pat.len() {
        return None;
    }
    let last = h.len() - pat.len();
    let mut i: usize = 0;
    while i <= last
        invariant
            pat@.len() > 0,
            h@.len() <= usize::MAX,
            last == h@.len() - pat@.len(),
            i <= last + 1,
            find_from(h@, pat@, 0) == find_from(h@, pat@, i as int),
        decreases last + 1 - i,
    {
        let mut j: usize = 0;
        let mut same = true;
        while j < pat.len()
            invariant
                i <= last,
                h@.len() <= usize::MAX,
                last == h@.len() - pat@.len(),
                j <= pat@.len(),
                same == (forall|k: int| 0 <= k < j ==> h@[i + k] == pat@[k]),
            decreases pat.len() - j,
        {
            if h[i + j] != pat[j] {
                same = false;
            }
            j += 1;
        }
        if same {
            assert(h@.subrange(i as int, i + pat@.len()) =~= pat@);
            return Some(i);
        }
        assert(!occurs_at(h@, pat@, i as int)) by {
            if occurs_at(h@, pat@, i as int) {
                let k = choose|k: int| 0 <= k < pat@.len() && h@[i + k] != pat@[k];
                assert(h@.subrange(i as int, i + pat@.len())[k] == h@[i + k]);
            }
        }
        i += 1;
    }
    None
}

/// The characters `h[a..b]`.
pub fn sub_chars(h: &[char], a: usize, b: usize) -> (r: Vec<char>)
    requires
        a <= b <= h@.len(),
    ensures
        r@ == h@.subrange(a as int, b as int),
{
    let mut r: Vec<char> = Vec::new();
    let mut i = a;
    while i < b
        invariant
            a <= i <= b <= h@.len(),
            r@ == h@.subrange(a as int, i as int),
        decreases b - i,
    {
        r.push(h[i]);
        i += 1;
    }
    r
}

/// The bytes `h[a..b]`.
pub fn sub_bytes(h: &[u8], a: usize, b: usize) -> (r: Vec<u8>)
    requires
        a <= b <= h@.len(),
    ensures
        r@ == h@.subrange(a as int, b as int),
{
    let mut r: Vec<u8> = Vec::new();
    let mut i = a;
    while i < b
        invariant
            a <= i <= b <= h@.len(),
            r@ == h@.subrange(a as int, i as int),
        decreases b - i,
    {
        r.push(h[i]);
        i += 1;
    }
    r
}

/// The value of a digit in base 10 or 16 (either case for 16).
pub open spec fn radix_digit(c: char, radix: nat) -> Option<nat> {
    if '0' <= c && c <= '9' {
        Some(((c as u32) - 48) as nat)
    } else if radix == 16 && 'a' <= c && c <= 'f' {
        Some(((c as u32) - 87) as nat)
    } else if radix == 16 && 'A' <= c && c <= 'F' {
        Some(((c as u32) - 55) as nat)
    } else {
        None
    }
}

/// The value of the digits `d` in base `radix`.
pub open spec fn radix_value(d: Seq<char>, radix: nat) -> nat
    decreases d.len(),
{
    if d.len() == 0 {
        0
    } else {
        radix_value(d.drop_last(), radix) * radix + radix_digit(d.last(), radix).unwrap_or(0)
    }
}

/// The digits of an unsigned number: without one leading `+`.
pub open spec fn unsigned_digits(s: Seq<char>) -> Seq<char> {
    if s.len() > 0 && s[0] == '+' { s.drop_first() } else { s }
}

/// Every character of `d` is a digit in base `radix`.
pub open spec fn all_radix_digits(d: Seq<char>, radix: nat) -> bool {
    forall|i: int| 0 <= i < d.len() ==> (#[trigger] radix_digit(d[i], radix)) is Some
}

/// An unsigned number as Rust's `from_str_radix` reads it (base 10 or
/// 16): an optional `+`, at least one digit, nothing else, at most `max`.
pub open spec fn parse_unsigned(s: Seq<char>, radix: nat, max: int) -> Option<nat> {
    if unsigned_digits(s).len() > 0 && all_radix_digits(unsigned_digits(s), radix)
        && radix_value(unsigned_digits(s), radix) <= max {
        Some(radix_value(unsigned_digits(s), radix))
    } else {
        None
    }
}

fn digit_of(c: char, radix: u64) -> (r: Option<u64>)
    requires
        radix == 10 || radix == 16,
    ensures
        match r {
            Some(v) => radix_digit(c, radix as nat) == Some(v as nat) && v < radix,
            None => radix_digit(c, radix as nat) is None,
        },
{
    if '0' <= c && c <= '9' {
        Some((c as u64) - 48)
    } else if radix == 16 && 'a' <= c && c <= 'f' {
        Some((c as u64) - 87)
    } else if radix == 16 && 'A' <= c && c <= 'F' {
        Some((c as u64) - 55)
    } else {
        None
    }
}

proof fn lemma_radix_step(d: Seq<char>, radix: nat, i: int)
    requires
        0 <= i < d.len(),
    ensures
        radix_value(d.take(i + 1), radix) == radix_value(d.take(i), radix) * radix
            + radix_digit(d[i], radix).unwrap_or(0),
{
    assert(d.take(i + 1).drop_last() =~= d.take(i));
    assert(d.take(i + 1).last() == d[i]);
}

/// Reads `s` as an unsigned number in base 10 or 16 no larger than `max`.
pub fn parse_unsigned_chars(s: &[char], radix: u64, max: u64) -> (r: Option<u64>)
    requires
        radix == 10 || radix == 16,
    ensures
        match r {
            Some(v) => parse_unsigned(s@, radix as nat, max as int) == Some(v as nat),
            None => parse_unsigned(s@, radix as nat, max as int) is None,
        },
{
    let ghost d = unsigned_digits(s@);
    let start: usize = if s.len() > 0 && s[0] == '+' { 1 } else { 0 };
    if start == s.len() {
        return None;
    }
    let mut acc: u64 = 0;
    let mut big = false;
    let mut i = start;
    while i < s.len()
        invariant
            radix == 10 || radix == 16,
            start <= i <= s@.len(),
            d == s@.skip(start as int),
            d == unsigned_digits(s@),
            forall|k: int| 0 <= k < i - start ==> (#[trigger] radix_digit(d[k], radix as nat)) is Some,
            !big ==> acc as nat == radix_value(d.take(i - start), radix as nat) && acc <= max,
            big ==> radix_value(d.take(i - start), radix as nat) > max,
        decreases s.len() - i,
    {
        let k = i - start;
        assert(d[k as int] == s@[i as int]);
        let v = match digit_of(s[i], radix) {
            Some(v) => v,
            None => {
                assert(radix_digit(d[k as int], radix as nat) is None);
                assert(k < d.len());
                return None;
            },
        };
        proof {
            lemma_radix_step(d, radix as nat, k as int);
        }
        let ghost prev = radix_value(d.take(k as int), radix as nat);
        if !big {
            if v > max {
                assert(acc * radix + v > max) by (nonlinear_arith)
                    requires
                        v > max,
                        acc >= 0,
                        radix > 0,
                ;
                big = true;
            } else {
                let q = (max - v) / radix;
                if acc > q {
                    assert(acc * radix + v > max) by (nonlinear_arith)
                        requires
                            acc > q,
                            q as int == (max as int - v as int) / (radix as int),
                            radix > 0,
                            v <= max,
                    ;
                    big = true;
                } else {
                    assert(acc * radix + v <= max) by (nonlinear_arith)
                        requires
                            acc <= q,
                            q as int == (max as int - v as int) / (radix as int),
                            radix > 0,
                            v <= max,
                    ;
                    acc = acc * radix + v;
                }
            }
        } else {
            assert(prev * radix + v >= prev) by (nonlinear_arith)
                requires
                    radix >= 1,
            ;
        }
        i += 1;
    }
    proof {
        assert(d.take(d.len() as int) =~= d);
    }
    if big { None } else { Some(acc) }
}

/// `s` without the prefix `p`, if it starts with it.
pub open spec fn strip_prefix(s: Seq<char>, p: Seq<char>) -> Option<Seq<char>> {
    if s.len() >= p.len() && s.take(p.len() as int) == p {
        Some(s.skip(p.len() as int))
    } else {
        None
    }
}

/// Whether `s` starts with `p`.
pub fn starts_with_chars(s: &[char], p: &str) -> (b: bool)
    ensures
        b == (strip_prefix(s@, p@) is Some),
{
    let pc = chars_of(p);
    if s.len() < pc.len() {
        return false;
    }
    let mut i: usize = 0;
    while i < pc.len()
        invariant
            pc@ == p@,
            pc@.len() <= s@.len(),
            i <= pc@.len(),
            forall|k: int| 0 <= k < i ==> s@[k] == pc@[k],
        decreases pc.len() - i,
    {
        if s[i] != pc[i] {
            assert(s@.take(p@.len() as int)[i as int] != p@[i as int]);
            return false;
        }
        i += 1;
    }
    assert(s@.take(p@.len() as int) =~= p@);
    true
}

/// Host, port and path of an `https://` URL; the port is 443 unless the
/// authority names one, the path `/` unless the URL has one.
pub open spec fn url_parts(url: Seq<char>) -> Result<(Seq<char>, u16, Seq<char>), Seq<char>> {
    match strip_prefix(url, "https://"@) {
        None => Err("only https supported"@),
        Some(rest) => {
            let authority = match find_from(rest, seq!['/'], 0) {
                Some(i) => rest.take(i),
                None => rest,
            };
            let path = match find_from(rest, seq!['/'], 0) {
                Some(i) => rest.skip(i),
                None => seq!['/'],
            };
            match find_from(authority, seq![':'], 0) {
                Some(i) => match parse_unsigned(authority.skip(i + 1), 10, 65535) {
                    Some(p) => Ok((authority.take(i), p as u16, path)),
                    None => Err("bad port"@),
                },
                None => Ok((authority, 443u16, path)),
            }
        },
    }
}

/// Splits an `https://` URL into host, port and path.
pub fn parse_url(url: &str) -> (r: Result<(String, u16, String), Error>)
    ensures
        match url_parts(url@) {
            Ok((h, p, pa)) => r matches Ok(x) && x.0@ == h && x.1 == p && x.2@ == pa,
            Err(m) => r matches Err(Error::Http(x)) && x@ == m,
        },
{
    proof {
        reveal_strlit("https://");
        reveal_strlit("only https supported");
        reveal_strlit("bad port");
    }
    let cs = chars_of(url);
    if !starts_with_chars(cs.as_slice(), "https://") {
        return Err(Error::Http(string_of("only https supported")));
    }
    let rest = sub_chars(cs.as_slice(), 8, cs.len());
    assert(rest@ == url@.skip(8));
    let slash: Vec<char> = vec!['/'];
    assert(slash@ =~= seq!['/']);
    let (authority, path) = match find_chars(rest.as_slice(), slash.as_slice()) {
        Some(i) => {
            proof { lemma_find_from_bounds(rest@, slash@, 0); }
            (sub_chars(rest.as_slice(), 0, i), sub_chars(rest.as_slice(), i, rest.len()))
        },
        None => (rest.clone(), slash.clone()),
    };
    assert(authority@ =~= match find_from(rest@, seq!['/'], 0) { Some(i) => rest@.take(i), None => rest@ });
    assert(path@ =~= match find_from(rest@, seq!['/'], 0) { Some(i) => rest@.skip(i), None => seq!['/'] });
    let colon: Vec<char> = vec![':'];
    assert(colon@ =~= seq![':']);
    match find_chars(authority.as_slice(), colon.as_slice()) {
        Some(i) => {
            proof { lemma_find_from_bounds(authority@, colon@, 0); }
            let digits = sub_chars(authority.as_slice(), i + 1, authority.len());
            assert(digits@ =~= authority@.skip(i + 1));
            match parse_unsigned_chars(digits.as_slice(), 10, 65535) {
                Some(p) => {
                    let host = sub_chars(authority.as_slice(), 0, i);
                    assert(host@ =~= authority@.take(i as int));
                    Ok((string_from_chars(host.as_slice(), 0, host.len()), p as u16,
                        string_from_chars(path.as_slice(), 0, path.len())))
                },
                None => Err(Error::Http(string_of("bad port"))),
            }
        },
        None => {
            let r = (string_from_chars(authority.as_slice(), 0, authority.len()), 443u16,
                string_from_chars(path.as_slice(), 0, path.len()));
            assert(authority@.subrange(0, authority@.len() as int) =~= authority@);
            assert(path@.subrange(0, path@.len() as int) =~= path@);
            Ok(r)
        },
    }
}

/// `std::str::from_utf8`: the text, exactly when the bytes are valid UTF-8.
#[verifier::external_body]
fn utf8_str(b: &[u8]) -> (r: Option<&str>)
    ensures
        r is Some <==> valid_utf8(b@),
        r matches Some(s) ==> s@ == decode_utf8(b@),
{
    std::str::from_utf8(b).ok()
}

/// The characters of `cs` without leading and trailing Unicode whitespace.
pub fn trim_chars(cs: &[char]) -> (r: Vec<char>)
    ensures
        r@ == trim(cs@),
{
    let s = string_from_chars(cs, 0, cs.len());
    assert(cs@.subrange(0, cs@.len() as int) =~= cs@);
    let t = trim_str(s.as_str());
    chars_of(t)
}

/// `s` without leading characters equal to `c`.
pub open spec fn strip_start(s: Seq<char>, c: char) -> Seq<char>
    decreases s.len(),
{
    if s.len() > 0 && s[0] == c { strip_start(s.drop_first(), c) } else { s }
}

/// `s` without trailing characters equal to `c`.
pub open spec fn strip_end(s: Seq<char>, c: char) -> Seq<char>
    decreases s.len(),
{
    if s.len() > 0 && s.last() == c { strip_end(s.drop_last(), c) } else { s }
}

/// `str::trim_matches` with one character.
pub open spec fn trim_both(s: Seq<char>, c: char) -> Seq<char> {
    strip_end(strip_start(s, c), c)
}

/// Removes every leading and trailing `c` from `cs`.
pub fn trim_both_chars(cs: &[char], c: char) -> (r: Vec<char>)
    ensures
        r@ == trim_both(cs@, c),
{
    let mut a: usize = 0;
    assert(cs@.skip(0) =~= cs@);
    while a < cs.len() && cs[a] == c
        invariant
            a <= cs@.len(),
            strip_start(cs@, c) == strip_start(cs@.skip(a as int), c),
        decreases cs.len() - a,
    {
        assert(cs@.skip(a as int).drop_first() =~= cs@.skip(a + 1));
        a += 1;
    }
    let ghost mid = cs@.skip(a as int);
    assert(strip_start(mid, c) == mid);
    let mut b: usize = cs.len();
    while b > a && cs[b - 1] == c
        invariant
            a <= b <= cs@.len(),
            mid == cs@.skip(a as int),
            strip_end(mid, c) == strip_end(cs@.subrange(a as int, b as int), c),
        decreases b,
    {
        assert(cs@.subrange(a as int, b as int).drop_last() =~= cs@.subrange(a as int, b - 1));
        b -= 1;
    }
    assert(mid =~= cs@.subrange(a as int, cs@.len() as int));
    sub_chars(cs, a, b)
}

/// Whether the non-empty `pat` occurs in `s`.
pub open spec fn contains_seq(s: Seq<char>, pat: Seq<char>) -> bool {
    find_from(s, pat, 0) is Some
}

pub open spec fn crlf() -> Seq<char> {
    seq!['\r', '\n']
}

/// The text after the first line of `h`, if `h` has more than one line.
pub open spec fn after_first_line(h: Seq<char>) -> Option<Seq<char>> {
    match find_from(h, crlf(), 0) {
        Some(i) => if 0 <= i && i + 2 <= h.len() { Some(h.skip(i + 2)) } else { None },
        None => None,
    }
}

/// The first line of `h`.
pub open spec fn first_line(h: Seq<char>) -> Seq<char> {
    match find_from(h, crlf(), 0) {
        Some(i) => if 0 <= i && i + 2 <= h.len() { h.take(i) } else { h },
        None => h,
    }
}

/// What the headers say of the body: whether it is chunked, and its
/// `Content-Length`, for the completeness check. Each header line sets
/// its field again.
pub open spec fn complete_line(line: Seq<char>, st: (bool, Option<nat>)) -> (bool, Option<nat>) {
    match strip_prefix(line, "Transfer-Encoding:"@) {
        Some(rest) => (eq_ignore_ascii_case_spec(trim(rest), "chunked"@), st.1),
        None => match strip_prefix(line, "Content-Length:"@) {
            Some(rest) => (st.0, parse_unsigned(trim(rest), 10, usize::MAX as int)),
            None => st,
        },
    }
}

/// Folds `step` over the lines of `rest`.
pub open spec fn complete_lines(rest: Seq<char>, st: (bool, Option<nat>)) -> (bool, Option<nat>)
    decreases rest.len(),
{
    match after_first_line(rest) {
        Some(more) => complete_lines(more, complete_line(first_line(rest), st)),
        None => complete_line(rest, st),
    }
}

pub open spec fn head_end_bytes() -> Seq<u8> {
    seq![13u8, 10u8, 13u8, 10u8]
}

/// A response read so far is complete: its head has ended, is UTF-8,
/// and either the body is chunked and its last chunk has come, or the
/// body holds at least `Content-Length` bytes. Without either header it
/// is never complete; the connection's end decides.
pub open spec fn complete_spec(raw: Seq<u8>) -> bool {
    match find_first(raw, head_end_bytes()) {
        None => false,
        Some(split) => {
            let head = raw.take(split);
            let body = raw.skip(split + 4);
            if !valid_utf8(head) {
                false
            } else {
                let st = match after_first_line(decode_utf8(head)) {
                    Some(lines) => complete_lines(lines, (false, None)),
                    None => (false, None),
                };
                if st.0 {
                    find_first(body, seq![48u8, 13u8, 10u8, 13u8, 10u8]) is Some
                        || find_first(body, seq![48u8, 10u8, 10u8]) is Some
                } else {
                    match st.1 {
                        Some(n) => body.len() >= n,
                        None => false,
                    }
                }
            }
        },
    }
}

/// Splits `h` at its first line break: the first line and, if there is
/// a break, the text after it.
fn split_line(h: &[char]) -> (r: (Vec<char>, Option<Vec<char>>))
    ensures
        r.0@ == first_line(h@),
        match r.1 {
            Some(m) => after_first_line(h@) == Some(m@),
            None => after_first_line(h@) is None,
        },
{
    let n = h.len();
    let pat: Vec<char> = vec!['\r', '\n'];
    assert(pat@ =~= crlf());
    match find_chars(h, pat.as_slice()) {
        Some(i) => {
            proof { lemma_find_from_bounds(h@, pat@, 0); }
            (sub_chars(h, 0, i), Some(sub_chars(h, i + 2, h.len())))
        },
        None => {
            let all = sub_chars(h, 0, h.len());
            assert(all@ =~= h@);
            (all, None)
        },
    }
}

fn complete_step(line: &[char], st: (bool, Option<u64>)) -> (r: (bool, Option<u64>))
    ensures
        (r.0, match r.1 { Some(n) => Some(n as nat), None => None::<nat> })
            == complete_line(line@, (st.0, match st.1 { Some(n) => Some(n as nat), None => None::<nat> })),
{
    proof {
        reveal_strlit("Transfer-Encoding:");
        reveal_strlit("Content-Length:");
        reveal_strlit("chunked");
    }
    if starts_with_chars(line, "Transfer-Encoding:") {
        let rest = sub_chars(line, 18, line.len());
        assert(rest@ =~= line@.skip(18));
        let t = trim_chars(rest.as_slice());
        let ts = string_from_chars(t.as_slice(), 0, t.len());
        assert(t@.subrange(0, t@.len() as int) =~= t@);
        (eq_ignore_ascii_case(ts.as_str(), "chunked"), st.1)
    } else if starts_with_chars(line, "Content-Length:") {
        let rest = sub_chars(line, 15, line.len());
        assert(rest@ =~= line@.skip(15));
        let t = trim_chars(rest.as_slice());
        (st.0, parse_unsigned_chars(t.as_slice(), 10, usize::MAX as u64))
    } else {
        st
    }
}

/// Whether the bytes read so far hold a whole response, so that reading
/// can stop before the peer closes the connection.
pub fn response_complete(raw: &[u8]) -> (b: bool)
    ensures
        b == complete_spec(raw@),
{
    let n = raw.len();
    let end_pat: [u8; 4] = [13, 10, 13, 10];
    assert(end_pat@ =~= head_end_bytes());
    let split = match find_subslice(raw, end_pat.as_slice()) {
        Some(i) => i,
        None => return false,
    };
    proof { lemma_find_from_bounds(raw@, head_end_bytes(), 0); }
    let head = sub_bytes(raw, 0, split);
    let body = sub_bytes(raw, split + 4, raw.len());
    assert(head@ =~= raw@.take(split as int));
    assert(body@ =~= raw@.skip(split + 4));
    let head_str = match utf8_str(head.as_slice()) {
        Some(s) => s,
        None => return false,
    };
    let h = chars_of(head_str);
    let (_status, more) = split_line(h.as_slice());
    let mut st: (bool, Option<u64>) = (false, None);
    let ghost init = (false, None::<nat>);
    let ghost goal = match after_first_line(h@) {
        Some(lines) => complete_lines(lines, init),
        None => init,
    };
    if let Some(lines) = more {
        let mut rest = lines;
        loop
            invariant_except_break
                goal == complete_lines(rest@, (st.0, match st.1 { Some(n) => Some(n as nat), None => None::<nat> })),
            ensures
                goal == (st.0, match st.1 { Some(n) => Some(n as nat), None => None::<nat> }),
            decreases rest@.len(),
        {
            let (line, after) = split_line(rest.as_slice());
            st = complete_step(line.as_slice(), st);
            match after {
                Some(m) => {
                    proof {
                        lemma_find_from_bounds(rest@, crlf(), 0);
                    }
                    rest = m;
                },
                None => break,
            }
        }
    }
    let ghost stv = (st.0, match st.1 { Some(n) => Some(n as nat), None => None::<nat> });
    assert(stv == goal);
    if st.0 {
        let a: [u8; 5] = [48, 13, 10, 13, 10];
        let b: [u8; 3] = [48, 10, 10];
        assert(a@ =~= seq![48u8, 13u8, 10u8, 13u8, 10u8]);
        assert(b@ =~= seq![48u8, 10u8, 10u8]);
        return find_subslice(body.as_slice(), a.as_slice()).is_some()
            || find_subslice(body.as_slice(), b.as_slice()).is_some();
    }
    match st.1 {
        Some(n) => body.len() as u64 >= n,
        None => false,
    }
}

/// How far reading a body (or a whole response) gets: what it gives, the
/// error it stops with, or an arithmetic overflow that would abort it.
pub enum Outcome<T> {
    Done(T),
    Fail(Seq<char>),
    Crash,
}

pub open spec fn crlf_bytes() -> Seq<u8> {
    seq![13u8, 10u8]
}

/// Reassembles a chunked body from `i` on, `out` holding the chunks so
/// far: each chunk is a line with its size in hex, then that many bytes
/// and a line break; a chunk of size 0 ends the body, and so does the
/// end of the input.
pub open spec fn dechunk_from(b: Seq<u8>, i: int, out: Seq<u8>) -> Outcome<Seq<u8>>
    decreases b.len() - i,
{
    if i < 0 || i >= b.len() {
        Outcome::Done(out)
    } else {
        match find_first(b.skip(i), crlf_bytes()) {
            None => Outcome::Fail("bad chunk"@),
            Some(le) => if !(0 <= le && i + le + 2 <= b.len()) {
                Outcome::Fail("bad chunk"@)
            } else if !valid_utf8(b.subrange(i, i + le)) {
                Outcome::Fail("bad utf-8 in chunk"@)
            } else {
                match parse_unsigned(trim(decode_utf8(b.subrange(i, i + le))), 16, usize::MAX as int) {
                    None => Outcome::Fail("bad chunk size"@),
                    Some(size) => {
                        let j = i + le + 2;
                        if size == 0 {
                            Outcome::Done(out)
                        } else if j + size > usize::MAX {
                            Outcome::Crash
                        } else if j + size > b.len() {
                            Outcome::Fail("chunk overruns body"@)
                        } else if j + size + 2 > usize::MAX {
                            Outcome::Crash
                        } else {
                            let k = j + size;
                            dechunk_from(b, if k + 2 <= b.len() { k + 2 } else { k }, out + b.subrange(j, k))
                        }
                    },
                }
            },
        }
    }
}

pub open spec fn dechunk_spec(b: Seq<u8>) -> Outcome<Seq<u8>> {
    dechunk_from(b, 0, Seq::empty())
}

/// Reassembles a chunked body; `None` where the size arithmetic would
/// overflow.
pub fn try_dechunk(body: &[u8]) -> (r: Option<Result<Vec<u8>, Error>>)
    ensures
        match dechunk_spec(body@) {
            Outcome::Done(b) => r matches Some(Ok(v)) && v@ == b,
            Outcome::Fail(m) => r matches Some(Err(Error::Http(x))) && x@ == m,
            Outcome::Crash => r is None,
        },
{
    proof {
        reveal_strlit("bad chunk");
        reveal_strlit("bad utf-8 in chunk");
        reveal_strlit("bad chunk size");
        reveal_strlit("chunk overruns body");
    }
    let len = body.len();
    let pat: [u8; 2] = [13, 10];
    assert(pat@ =~= crlf_bytes());
    let mut out: Vec<u8> = Vec::new();
    let mut i: usize = 0;
    while i < len
        invariant
            len == body@.len(),
            pat@ == crlf_bytes(),
            i <= len,
            dechunk_spec(body@) == dechunk_from(body@, i as int, out@),
        decreases len - i,
    {
        let rest = sub_bytes(body, i, len);
        assert(rest@ =~= body@.skip(i as int));
        let le = match find_subslice(rest.as_slice(), pat.as_slice()) {
            Some(le) => le,
            None => return Some(Err(Error::Http(string_of("bad chunk")))),
        };
        proof {
            lemma_find_from_bounds(rest@, crlf_bytes(), 0);
        }
        let line = sub_bytes(body, i, i + le);
        let text = match utf8_str(line.as_slice()) {
            Some(t) => t,
            None => return Some(Err(Error::Http(string_of("bad utf-8 in chunk")))),
        };
        let cs = chars_of(text);
        let t = trim_chars(cs.as_slice());
        let size = match parse_unsigned_chars(t.as_slice(), 16, usize::MAX as u64) {
            Some(n) => n as usize,
            None => return Some(Err(Error::Http(string_of("bad chunk size")))),
        };
        let j = i + le + 2;
        if size == 0 {
            return Some(Ok(out));
        }
        if size > usize::MAX - j {
            return None;
        }
        if j + size > len {
            return Some(Err(Error::Http(string_of("chunk overruns body"))));
        }
        let k = j + size;
        if k > usize::MAX - 2 {
            return None;
        }
        let mut piece = sub_bytes(body, j, k);
        out.append(&mut piece);
        i = if k + 2 <= len { k + 2 } else { k };
    }
    Some(Ok(out))
}

/// The URL of one `Link` entry `<url>; param; ...`: the text before the
/// first `;`, trimmed, with `<` and `>` taken off its ends.
pub open spec fn link_url(e: Seq<char>) -> Seq<char> {
    let t = trim(e);
    let u = match find_from(t, seq![';'], 0) {
        Some(i) => if 0 <= i <= t.len() { t.take(i) } else { t },
        None => t,
    };
    trim_both(trim_both(trim(u), '<'), '>')
}

/// The parameters of one `Link` entry say `rel="next"` (or `rel=next`):
/// they are the text after its first `;`.
pub open spec fn link_is_next(e: Seq<char>) -> bool {
    match find_from(e, seq![';'], 0) {
        Some(i) => 0 <= i < e.len() && ({
            let ps = e.skip(i + 1);
            contains_seq(ps, "rel=\"next\""@) || contains_seq(ps, "rel=next"@)
        }),
        None => false,
    }
}

/// The URL of the first entry of the `Link` value `s` (entries are
/// separated by `,`) whose parameters say `rel=next`.
pub open spec fn link_next(s: Seq<char>) -> Option<Seq<char>>
    decreases s.len(),
{
    match find_from(s, seq![','], 0) {
        Some(i) => if 0 <= i < s.len() {
            if link_is_next(s.take(i)) {
                Some(link_url(s.take(i)))
            } else {
                link_next(s.skip(i + 1))
            }
        } else {
            None
        },
        None => if link_is_next(s) { Some(link_url(s)) } else { None },
    }
}

/// What a header line says about the response: the URL of the `Link`
/// entry marked `rel="next"` (or `rel=next`), whether the body is
/// chunked (once chunked, it stays so), and its `Content-Length` (set
/// again by each such line).
pub open spec fn header_line(line: Seq<char>, st: (Option<Seq<char>>, bool, Option<nat>)) -> (Option<Seq<char>>, bool, Option<nat>) {
    match strip_prefix(line, "Link:"@) {
        Some(rest) => match link_next(rest) {
            Some(u) => (Some(u), st.1, st.2),
            None => st,
        },
        None => match strip_prefix(line, "Transfer-Encoding:"@) {
            Some(rest) => if eq_ignore_ascii_case_spec(trim(rest), "chunked"@) {
                (st.0, true, st.2)
            } else {
                st
            },
            None => match strip_prefix(line, "Content-Length:"@) {
                Some(rest) => (st.0, st.1, parse_unsigned(trim(rest), 10, usize::MAX as int)),
                None => st,
            },
        },
    }
}

pub open spec fn header_lines(rest: Seq<char>, st: (Option<Seq<char>>, bool, Option<nat>)) -> (Option<Seq<char>>, bool, Option<nat>)
    decreases rest.len(),
{
    match after_first_line(rest) {
        Some(more) => header_lines(more, header_line(first_line(rest), st)),
        None => header_line(rest, st),
    }
}

/// The second space-separated field of the status line.
pub open spec fn status_token(line: Seq<char>) -> Option<Seq<char>> {
    match find_from(line, seq![' '], 0) {
        None => None,
        Some(i) => if 0 <= i < line.len() {
            let rest = line.skip(i + 1);
            Some(match find_from(rest, seq![' '], 0) {
                Some(j) => if 0 <= j <= rest.len() { rest.take(j) } else { rest },
                None => rest,
            })
        } else {
            None
        },
    }
}

/// A parsed response: status, body bytes, next-page URL.
pub open spec fn reply_spec(raw: Seq<u8>) -> Outcome<(u16, Seq<u8>, Option<Seq<char>>)> {
    match find_first(raw, head_end_bytes()) {
        None => Outcome::Fail("no header terminator"@),
        Some(split) => {
            let head = raw.take(split);
            let body = raw.skip(split + 4);
            if !valid_utf8(head) {
                Outcome::Fail("bad utf-8 in head"@)
            } else {
                let h = decode_utf8(head);
                match status_token(first_line(h)) {
                    None => Outcome::Fail("no status"@),
                    Some(tok) => match parse_unsigned(tok, 10, 65535) {
                        None => Outcome::Fail("bad status"@),
                        Some(status) => {
                            let st = match after_first_line(h) {
                                Some(lines) => header_lines(lines, (None, false, None)),
                                None => (None, false, None),
                            };
                            if st.1 {
                                match dechunk_spec(body) {
                                    Outcome::Done(b) => Outcome::Done((status as u16, b, st.0)),
                                    Outcome::Fail(m) => Outcome::Fail(m),
                                    Outcome::Crash => Outcome::Crash,
                                }
                            } else {
                                let b = match st.2 {
                                    Some(n) => if n < body.len() { body.take(n as int) } else { body },
                                    None => body,
                                };
                                Outcome::Done((status as u16, b, st.0))
                            }
                        },
                    },
                }
            }
        },
    }
}

/// What `String::from_utf8_lossy` makes of the bytes `b`.
pub uninterp spec fn lossy_utf8(b: Seq<u8>) -> Seq<char>;

/// `String::from_utf8_lossy`, owned: the text of `b`, with each invalid
/// sequence replaced by U+FFFD; valid UTF-8 comes back unchanged. Which
/// replacements are made is not stated beyond that.
#[verifier::external_body]
fn lossy_string(b: &[u8]) -> (r: String)
    ensures
        r@ == lossy_utf8(b@),
        valid_utf8(b@) ==> r@ == decode_utf8(b@),
{
    String::from_utf8_lossy(b).into_owned()
}

pub open spec fn head_view(st: (Option<String>, bool, Option<u64>)) -> (Option<Seq<char>>, bool, Option<nat>) {
    (match st.0 { Some(u) => Some(u@), None => None }, st.1, match st.2 { Some(n) => Some(n as nat), None => None })
}

fn contains_chars(s: &[char], pat: &str) -> (b: bool)
    requires
        pat@.len() > 0,
    ensures
        b == contains_seq(s@, pat@),
{
    let p = chars_of(pat);
    find_chars(s, p.as_slice()).is_some()
}

fn entry_url(e: &[char]) -> (r: String)
    ensures
        r@ == link_url(e@),
{
    let t = trim_chars(e);
    let semi: Vec<char> = vec![';'];
    assert(semi@ =~= seq![';']);
    let u = match find_chars(t.as_slice(), semi.as_slice()) {
        Some(i) => {
            proof { lemma_find_from_bounds(t@, semi@, 0); }
            sub_chars(t.as_slice(), 0, i)
        },
        None => {
            let all = sub_chars(t.as_slice(), 0, t.len());
            assert(all@ =~= t@);
            all
        },
    };
    let v = trim_chars(u.as_slice());
    let a = trim_both_chars(v.as_slice(), '<');
    let b = trim_both_chars(a.as_slice(), '>');
    assert(b@.subrange(0, b@.len() as int) =~= b@);
    string_from_chars(b.as_slice(), 0, b.len())
}

fn entry_is_next(e: &[char]) -> (b: bool)
    ensures
        b == link_is_next(e@),
{
    proof {
        reveal_strlit("rel=\"next\"");
        reveal_strlit("rel=next");
    }
    let semi: Vec<char> = vec![';'];
    assert(semi@ =~= seq![';']);
    match find_chars(e, semi.as_slice()) {
        Some(i) => {
            proof { lemma_find_from_bounds(e@, semi@, 0); }
            assert(i < e@.len());
            assert(i < e.len());
            let ps = sub_chars(e, i + 1, e.len());
            assert(ps@ =~= e@.skip(i + 1));
            contains_chars(ps.as_slice(), "rel=\"next\"") || contains_chars(ps.as_slice(), "rel=next")
        },
        None => false,
    }
}

/// The URL of the first entry of a `Link` value whose parameters say
/// `rel=next`.
fn next_link(s: &[char]) -> (r: Option<String>)
    ensures
        match link_next(s@) {
            Some(u) => r matches Some(x) && x@ == u,
            None => r is None,
        },
    decreases s@.len(),
{
    let comma: Vec<char> = vec![','];
    assert(comma@ =~= seq![',']);
    match find_chars(s, comma.as_slice()) {
        Some(i) => {
            proof { lemma_find_from_bounds(s@, comma@, 0); }
            assert(i < s@.len());
            assert(i < s.len());
            let e = sub_chars(s, 0, i);
            assert(e@ =~= s@.take(i as int));
            if entry_is_next(e.as_slice()) {
                Some(entry_url(e.as_slice()))
            } else {
                let rest = sub_chars(s, i + 1, s.len());
                assert(rest@ =~= s@.skip(i + 1));
                next_link(rest.as_slice())
            }
        },
        None => {
            if entry_is_next(s) {
                Some(entry_url(s))
            } else {
                None
            }
        },
    }
}

fn header_step(line: &[char], st: (Option<String>, bool, Option<u64>)) -> (r: (Option<String>, bool, Option<u64>))
    ensures
        head_view(r) == header_line(line@, head_view(st)),
{
    proof {
        reveal_strlit("Link:");
        reveal_strlit("Transfer-Encoding:");
        reveal_strlit("Content-Length:");
        reveal_strlit("chunked");
        reveal_strlit("rel=\"next\"");
        reveal_strlit("rel=next");
    }
    if starts_with_chars(line, "Link:") {
        let rest = sub_chars(line, 5, line.len());
        assert(rest@ =~= line@.skip(5));
        match next_link(rest.as_slice()) {
            Some(url) => (Some(url), st.1, st.2),
            None => st,
        }
    } else if starts_with_chars(line, "Transfer-Encoding:") {
        let rest = sub_chars(line, 18, line.len());
        assert(rest@ =~= line@.skip(18));
        let t = trim_chars(rest.as_slice());
        let ts = string_from_chars(t.as_slice(), 0, t.len());
        assert(t@.subrange(0, t@.len() as int) =~= t@);
        if eq_ignore_ascii_case(ts.as_str(), "chunked") {
            (st.0, true, st.2)
        } else {
            st
        }
    } else if starts_with_chars(line, "Content-Length:") {
        let rest = sub_chars(line, 15, line.len());
        assert(rest@ =~= line@.skip(15));
        let t = trim_chars(rest.as_slice());
        (st.0, st.1, parse_unsigned_chars(t.as_slice(), 10, usize::MAX as u64))
    } else {
        st
    }
}

/// The second space-separated field of `line`.
fn status_field(line: &[char]) -> (r: Option<Vec<char>>)
    ensures
        match r {
            Some(t) => status_token(line@) == Some(t@),
            None => status_token(line@) is None,
        },
{
    let n = line.len();
    let sp: Vec<char> = vec![' '];
    assert(sp@ =~= seq![' ']);
    match find_chars(line, sp.as_slice()) {
        None => None,
        Some(i) => {
            proof { lemma_find_from_bounds(line@, sp@, 0); }
            let rest = sub_chars(line, i + 1, line.len());
            assert(rest@ =~= line@.skip(i + 1));
            match find_chars(rest.as_slice(), sp.as_slice()) {
                Some(j) => {
                    proof { lemma_find_from_bounds(rest@, sp@, 0); }
                    let t = sub_chars(rest.as_slice(), 0, j);
                    Some(t)
                },
                None => Some(rest),
            }
        },
    }
}

/// Parses a whole HTTP/1.1 response: the status, the `Link` header's
/// next-page URL, and the body (reassembled when chunked, cut at
/// `Content-Length` otherwise), read as UTF-8 with invalid sequences
/// replaced. `None` where reassembling a chunked body would overflow.
pub fn try_parse_response(raw: &[u8]) -> (r: Option<Result<Response, Error>>)
    ensures
        match reply_spec(raw@) {
            Outcome::Done((status, body, next)) => r matches Some(Ok(resp)) && resp.status == status
                && resp.body@ == lossy_utf8(body)
                && (valid_utf8(body) ==> resp.body@ == decode_utf8(body))
                && match next {
                    Some(u) => resp.next matches Some(x) && x@ == u,
                    None => resp.next is None,
                },
            Outcome::Fail(m) => r matches Some(Err(Error::Http(x))) && x@ == m,
            Outcome::Crash => r is None,
        },
{
    proof {
        reveal_strlit("no header terminator");
        reveal_strlit("bad utf-8 in head");
        reveal_strlit("no status");
        reveal_strlit("bad status");
    }
    let n = raw.len();
    let end_pat: [u8; 4] = [13, 10, 13, 10];
    assert(end_pat@ =~= head_end_bytes());
    let split = match find_subslice(raw, end_pat.as_slice()) {
        Some(i) => i,
        None => return Some(Err(Error::Http(string_of("no header terminator")))),
    };
    proof { lemma_find_from_bounds(raw@, head_end_bytes(), 0); }
    let head = sub_bytes(raw, 0, split);
    let body = sub_bytes(raw, split + 4, n);
    assert(head@ =~= raw@.take(split as int));
    assert(body@ =~= raw@.skip(split + 4));
    let head_str = match utf8_str(head.as_slice()) {
        Some(s) => s,
        None => return Some(Err(Error::Http(string_of("bad utf-8 in head")))),
    };
    let h = chars_of(head_str);
    let (status_line, more) = split_line(h.as_slice());
    let tok = match status_field(status_line.as_slice()) {
        Some(t) => t,
        None => return Some(Err(Error::Http(string_of("no status")))),
    };
    let status = match parse_unsigned_chars(tok.as_slice(), 10, 65535) {
        Some(s) => s as u16,
        None => return Some(Err(Error::Http(string_of("bad status")))),
    };
    let mut st: (Option<String>, bool, Option<u64>) = (None, false, None);
    let ghost init = (None::<Seq<char>>, false, None::<nat>);
    let ghost goal = match after_first_line(h@) {
        Some(lines) => header_lines(lines, init),
        None => init,
    };
    assert(head_view(st) == init);
    if let Some(lines) = more {
        let mut rest = lines;
        loop
            invariant_except_break
                goal == header_lines(rest@, head_view(st)),
            ensures
                goal == head_view(st),
            decreases rest@.len(),
        {
            let (line, after) = split_line(rest.as_slice());
            st = header_step(line.as_slice(), st);
            match after {
                Some(m) => {
                    proof {
                        lemma_find_from_bounds(rest@, crlf(), 0);
                    }
                    rest = m;
                },
                None => break,
            }
        }
    }
    let (next, chunked, clen) = st;
    let bytes = if chunked {
        match try_dechunk(body.as_slice()) {
            Some(Ok(b)) => b,
            Some(Err(e)) => return Some(Err(e)),
            None => return None,
        }
    } else {
        match clen {
            Some(c) => {
                if c < body.len() as u64 {
                    sub_bytes(body.as_slice(), 0, c as usize)
                } else {
                    body
                }
            },
            None => body,
        }
    };
    let text = lossy_string(bytes.as_slice());
    Some(Ok(Response { status, body: text, next }))
}

/// Like `try_parse_response`, on responses whose chunk sizes do not
/// overflow.
pub fn parse_response(raw: &[u8]) -> (r: Result<Response, Error>)
    requires
        !(reply_spec(raw@) is Crash),
    ensures
        match reply_spec(raw@) {
            Outcome::Done((status, body, next)) => r matches Ok(resp) && resp.status == status
                && resp.body@ == lossy_utf8(body)
                && (valid_utf8(body) ==> resp.body@ == decode_utf8(body))
                && match next {
                    Some(u) => resp.next matches Some(x) && x@ == u,
                    None => resp.next is None,
                },
            Outcome::Fail(m) => r matches Err(Error::Http(x)) && x@ == m,
            Outcome::Crash => false,
        },
{
    match try_parse_response(raw) {
        Some(r) => r,
        None => Err(Error::Http(String::new())),
    }
}

} // verus!
