//! Recursive-descent JSON parser. The grammar it accepts, and the error
//! each malformed input gets, is written as spec functions over the input
//! characters; the executable `Parser` is proved to follow them.

use vstd::prelude::*;
use vstd::utf8::is_scalar;
use crate::json::value::{JVal, Value, model_items, model_pairs};
use crate::text::{byte_len, char_from_u32, chars_of, dec, digits_value, is_digit, lemma_byte_len_push, lemma_byte_len_take, push_char, push_u64, string_of, utf8_width};
use crate::error::Error;

verus! {

/// Outcome of parsing at a position: a result and the position after it,
/// an error message, or an input on which the parser indexes past the end
/// of its input.
pub enum Parsed<T> {
    Done(T, int),
    Fail(Seq<char>),
    Crash,
}

pub open spec fn is_ws(c: char) -> bool {
    c == ' ' || c == '\t' || c == '\n' || c == '\r'
}

/// The first position at or after `p` that does not hold whitespace.
pub open spec fn ws_end(s: Seq<char>, p: int) -> int
    decreases s.len() - p,
{
    if 0 <= p < s.len() && is_ws(s[p]) {
        ws_end(s, p + 1)
    } else {
        p
    }
}

pub proof fn lemma_ws_end(s: Seq<char>, p: int)
    requires
        0 <= p <= s.len(),
    ensures
        p <= ws_end(s, p) <= s.len(),
        forall|i: int| p <= i < ws_end(s, p) ==> is_ws(#[trigger] s[i]),
        ws_end(s, p) < s.len() ==> !is_ws(s[ws_end(s, p)]),
    decreases s.len() - p,
{
    if p < s.len() && is_ws(s[p]) {
        lemma_ws_end(s, p + 1);
    }
}

/// Byte offset of character position `p` in the UTF-8 encoding of `s`.
pub open spec fn bpos(s: Seq<char>, p: int) -> nat {
    byte_len(s.take(p))
}

/// `kw` occurs in `s` at position `p`.
pub open spec fn at(s: Seq<char>, p: int, kw: Seq<char>) -> bool {
    0 <= p && p + kw.len() <= s.len() && s.subrange(p, p + kw.len()) == kw
}

pub open spec fn hex_value(c: char) -> Option<nat> {
    if '0' <= c && c <= '9' {
        Some(((c as u32) - 48) as nat)
    } else if 'a' <= c && c <= 'f' {
        Some(((c as u32) - 87) as nat)
    } else if 'A' <= c && c <= 'F' {
        Some(((c as u32) - 55) as nat)
    } else {
        None
    }
}

pub open spec fn hex_at(s: Seq<char>, i: int) -> Option<nat> {
    if 0 <= i < s.len() {
        hex_value(s[i])
    } else {
        None
    }
}

/// Four hex digits at `p`: "short hex" when fewer than four bytes remain,
/// "bad hex" when one of the four is not a hex digit.
pub open spec fn hex4(s: Seq<char>, p: int) -> Result<nat, Seq<char>> {
    if byte_len(s) < bpos(s, p) + 4 {
        Err("short hex"@)
    } else {
        match (hex_at(s, p), hex_at(s, p + 1), hex_at(s, p + 2), hex_at(s, p + 3)) {
            (Some(a), Some(b), Some(c), Some(d)) => Ok(a * 4096 + b * 256 + c * 16 + d),
            _ => Err("bad hex"@),
        }
    }
}

/// The character a `\uXXXX` escape stands for: U+FFFD for surrogates.
pub open spec fn code_char(cp: nat) -> char {
    if is_scalar(cp as u32) {
        (cp as u32) as char
    } else {
        '\u{FFFD}'
    }
}

/// The character a one-letter escape `\e` stands for.
pub open spec fn simple_escape(e: char) -> Option<char> {
    if e == '"' {
        Some('"')
    } else if e == '\\' {
        Some('\\')
    } else if e == '/' {
        Some('/')
    } else if e == 'n' {
        Some('\n')
    } else if e == 'r' {
        Some('\r')
    } else if e == 't' {
        Some('\t')
    } else if e == 'b' {
        Some('\u{08}')
    } else if e == 'f' {
        Some('\u{0C}')
    } else {
        None
    }
}

/// The body of a string literal from `p` (just past the opening quote),
/// with `acc` already decoded.
pub open spec fn string_body(s: Seq<char>, p: int, acc: Seq<char>) -> Parsed<Seq<char>>
    decreases s.len() - p,
{
    if p < 0 || p >= s.len() {
        Parsed::Fail("unterminated string"@)
    } else if s[p] == '"' {
        Parsed::Done(acc, p + 1)
    } else if s[p] == '\\' {
        if p + 1 >= s.len() {
            Parsed::Fail("eof in escape"@)
        } else if s[p + 1] == 'u' {
            match hex4(s, p + 2) {
                Ok(cp) => string_body(s, p + 6, acc.push(code_char(cp))),
                Err(m) => Parsed::Fail(m),
            }
        } else {
            match simple_escape(s[p + 1]) {
                Some(c) => string_body(s, p + 2, acc.push(c)),
                None => Parsed::Fail("bad escape"@),
            }
        }
    } else {
        string_body(s, p + 1, acc.push(s[p]))
    }
}

pub proof fn lemma_string_body_advances(s: Seq<char>, p: int, acc: Seq<char>)
    ensures
        string_body(s, p, acc) matches Parsed::Done(_, q) ==> p < q <= s.len(),
        !(string_body(s, p, acc) is Crash),
    decreases s.len() - p,
{
    if 0 <= p < s.len() && s[p] != '"' {
        if s[p] == '\\' {
            if p + 1 < s.len() {
                if s[p + 1] == 'u' {
                    if let Ok(cp) = hex4(s, p + 2) {
                        lemma_string_body_advances(s, p + 6, acc.push(code_char(cp)));
                    }
                } else if let Some(c) = simple_escape(s[p + 1]) {
                    lemma_string_body_advances(s, p + 2, acc.push(c));
                }
            }
        } else {
            lemma_string_body_advances(s, p + 1, acc.push(s[p]));
        }
    }
}

/// A string literal at `p`: the parser reads `s[p]` without checking `p`.
pub open spec fn string_at(s: Seq<char>, p: int) -> Parsed<Seq<char>> {
    if p < 0 || p >= s.len() {
        Parsed::Crash
    } else if s[p] != '"' {
        Parsed::Fail("expected '\"'"@)
    } else {
        string_body(s, p + 1, Seq::empty())
    }
}

/// The first position at or after `p` that does not hold a digit.
pub open spec fn digits_end(s: Seq<char>, p: int) -> int
    decreases s.len() - p,
{
    if 0 <= p < s.len() && is_digit(s[p]) {
        digits_end(s, p + 1)
    } else {
        p
    }
}

pub proof fn lemma_digits_end(s: Seq<char>, p: int)
    requires
        0 <= p <= s.len(),
    ensures
        p <= digits_end(s, p) <= s.len(),
        forall|i: int| p <= i < digits_end(s, p) ==> is_digit(#[trigger] s[i]),
        digits_end(s, p) < s.len() ==> !is_digit(s[digits_end(s, p)]),
    decreases s.len() - p,
{
    if p < s.len() && is_digit(s[p]) {
        lemma_digits_end(s, p + 1);
    }
}

/// A number at `p` (which holds `-` or a digit): an optional `-`, then
/// digits, read as an `i64`.
pub open spec fn number_at(s: Seq<char>, p: int) -> Parsed<JVal> {
    let neg = s[p] == '-';
    let q = if neg { p + 1 } else { p };
    let e = digits_end(s, q);
    let mag = digits_value(s.subrange(q, e));
    if e > q && (if neg { mag <= 9223372036854775808 } else { mag <= 9223372036854775807 }) {
        Parsed::Done(JVal::Num(if neg { -mag } else { mag as int }), e)
    } else {
        Parsed::Fail("bad number "@ + s.subrange(p, e))
    }
}

/// A value at or after `p` (leading whitespace skipped).
pub open spec fn value_at(s: Seq<char>, p: int) -> Parsed<JVal>
    decreases s.len() - p, 0int,
{
    if p < 0 || p > s.len() {
        Parsed::Crash
    } else {
        let q = ws_end(s, p);
        proof {
            lemma_ws_end(s, p);
        }
        if q >= s.len() {
            Parsed::Fail("unexpected end"@)
        } else if s[q] == 'n' {
            if at(s, q, "null"@) { Parsed::Done(JVal::Null, q + 4) } else { Parsed::Fail("expected null"@) }
        } else if s[q] == 't' {
            if at(s, q, "true"@) { Parsed::Done(JVal::Bool(true), q + 4) } else { Parsed::Fail("expected true"@) }
        } else if s[q] == 'f' {
            if at(s, q, "false"@) { Parsed::Done(JVal::Bool(false), q + 5) } else { Parsed::Fail("expected false"@) }
        } else if s[q] == '"' {
            match string_body(s, q + 1, Seq::empty()) {
                Parsed::Done(t, e) => Parsed::Done(JVal::Str(t), e),
                Parsed::Fail(m) => Parsed::Fail(m),
                Parsed::Crash => Parsed::Crash,
            }
        } else if s[q] == '[' {
            let r = ws_end(s, q + 1);
            proof {
                lemma_ws_end(s, q + 1);
            }
            if r < s.len() && s[r] == ']' {
                Parsed::Done(JVal::Array(Seq::empty()), r + 1)
            } else {
                items_at(s, r, Seq::empty())
            }
        } else if s[q] == '{' {
            let r = ws_end(s, q + 1);
            proof {
                lemma_ws_end(s, q + 1);
            }
            if r < s.len() && s[r] == '}' {
                Parsed::Done(JVal::Object(Seq::empty()), r + 1)
            } else {
                members_at(s, r, Seq::empty())
            }
        } else if s[q] == '-' || is_digit(s[q]) {
            number_at(s, q)
        } else {
            Parsed::Fail("bad token at "@ + dec(bpos(s, q)))
        }
    }
}

/// Array elements from `p` on, `acc` already read.
pub open spec fn items_at(s: Seq<char>, p: int, acc: Seq<JVal>) -> Parsed<JVal>
    decreases s.len() - p, 1int,
{
    if p < 0 || p > s.len() {
        Parsed::Crash
    } else {
        match value_at(s, p) {
            Parsed::Done(v, p2) => {
                if p2 <= p || p2 > s.len() {
                    Parsed::Crash
                } else {
                    let r = ws_end(s, p2);
                    proof {
                        lemma_ws_end(s, p2);
                    }
                    if r >= s.len() {
                        Parsed::Fail("eof in array"@)
                    } else if s[r] == ',' {
                        items_at(s, r + 1, acc.push(v))
                    } else if s[r] == ']' {
                        Parsed::Done(JVal::Array(acc.push(v)), r + 1)
                    } else {
                        Parsed::Fail("bad array sep"@)
                    }
                }
            },
            Parsed::Fail(m) => Parsed::Fail(m),
            Parsed::Crash => Parsed::Crash,
        }
    }
}

/// Object members from `p` on, `acc` already read.
pub open spec fn members_at(s: Seq<char>, p: int, acc: Seq<(Seq<char>, JVal)>) -> Parsed<JVal>
    decreases s.len() - p, 1int,
{
    if p < 0 || p > s.len() {
        Parsed::Crash
    } else {
        let k = ws_end(s, p);
        proof {
            lemma_ws_end(s, p);
        }
        match string_at(s, k) {
            Parsed::Done(key, k2) => {
                let c = ws_end(s, k2);
                proof {
                    lemma_string_body_advances(s, k + 1, Seq::empty());
                    lemma_ws_end(s, k2);
                }
                if c >= s.len() || s[c] != ':' {
                    Parsed::Fail("expected ':'"@)
                } else {
                    match value_at(s, c + 1) {
                        Parsed::Done(v, p3) => {
                            if p3 <= c + 1 || p3 > s.len() {
                                Parsed::Crash
                            } else {
                                let r = ws_end(s, p3);
                                proof {
                                    lemma_ws_end(s, p3);
                                }
                                if r >= s.len() {
                                    Parsed::Fail("eof in object"@)
                                } else if s[r] == ',' {
                                    members_at(s, r + 1, acc.push((key, v)))
                                } else if s[r] == '}' {
                                    Parsed::Done(JVal::Object(acc.push((key, v))), r + 1)
                                } else {
                                    Parsed::Fail("bad object sep"@)
                                }
                            }
                        },
                        Parsed::Fail(m) => Parsed::Fail(m),
                        Parsed::Crash => Parsed::Crash,
                    }
                }
            },
            Parsed::Fail(m) => Parsed::Fail(m),
            Parsed::Crash => Parsed::Crash,
        }
    }
}

/// A whole document: one value, surrounded by optional whitespace.
pub open spec fn document(s: Seq<char>) -> Parsed<JVal> {
    match value_at(s, ws_end(s, 0)) {
        Parsed::Done(v, p) => {
            let e = ws_end(s, p);
            if e < s.len() {
                Parsed::Fail("trailing at "@ + dec(bpos(s, e)))
            } else {
                Parsed::Done(v, e)
            }
        },
        Parsed::Fail(m) => Parsed::Fail(m),
        Parsed::Crash => Parsed::Crash,
    }
}

pub proof fn lemma_advances(s: Seq<char>, p: int)
    requires
        0 <= p <= s.len(),
    ensures
        value_at(s, p) matches Parsed::Done(_, q) ==> p < q <= s.len(),
    decreases s.len() - p, 0int,
{
    lemma_ws_end(s, p);
    reveal_strlit("null");
    reveal_strlit("true");
    reveal_strlit("false");
    let q = ws_end(s, p);
    if q < s.len() {
        if s[q] == '"' {
            lemma_string_body_advances(s, q + 1, Seq::empty());
        } else if s[q] == '[' {
            lemma_ws_end(s, q + 1);
            let r = ws_end(s, q + 1);
            if !(r < s.len() && s[r] == ']') {
                lemma_items_advance(s, r, Seq::empty());
            }
        } else if s[q] == '{' {
            lemma_ws_end(s, q + 1);
            let r = ws_end(s, q + 1);
            if !(r < s.len() && s[r] == '}') {
                lemma_members_advance(s, r, Seq::empty());
            }
        } else if s[q] == '-' || is_digit(s[q]) {
            let neg = s[q] == '-';
            let q2 = if neg { q + 1 } else { q };
            lemma_digits_end(s, q2);
            assert(value_at(s, p) == number_at(s, q));
        }
    }
}

pub proof fn lemma_items_advance(s: Seq<char>, p: int, acc: Seq<JVal>)
    requires
        0 <= p <= s.len(),
    ensures
        items_at(s, p, acc) matches Parsed::Done(_, q) ==> p < q <= s.len(),
    decreases s.len() - p, 1int,
{
    lemma_advances(s, p);
    if let Parsed::Done(v, p2) = value_at(s, p) {
        lemma_ws_end(s, p2);
        let r = ws_end(s, p2);
        if r < s.len() && s[r] == ',' {
            lemma_items_advance(s, r + 1, acc.push(v));
        }
    }
}

pub proof fn lemma_members_advance(s: Seq<char>, p: int, acc: Seq<(Seq<char>, JVal)>)
    requires
        0 <= p <= s.len(),
    ensures
        members_at(s, p, acc) matches Parsed::Done(_, q) ==> p < q <= s.len(),
    decreases s.len() - p, 1int,
{
    lemma_ws_end(s, p);
    let k = ws_end(s, p);
    if let Parsed::Done(key, k2) = string_at(s, k) {
        lemma_string_body_advances(s, k + 1, Seq::empty());
        lemma_ws_end(s, k2);
        let c = ws_end(s, k2);
        if c < s.len() && s[c] == ':' {
            lemma_advances(s, c + 1);
            if let Parsed::Done(v, p3) = value_at(s, c + 1) {
                lemma_ws_end(s, p3);
                let r = ws_end(s, p3);
                if r < s.len() && s[r] == ',' {
                    lemma_members_advance(s, r + 1, acc.push((key, v)));
                }
            }
        }
    }
}

/// Why the executable parser stopped without a value: a message, or the
/// input position the parser would read past the end of its input.
pub enum Fault {
    Json(String),
    Crash,
}

/// A parse position: characters consumed and the bytes they occupy.
#[derive(Clone, Copy)]
pub struct Cur {
    pub pos: usize,
    pub bpos: usize,
}

pub open spec fn cur_wf(s: Seq<char>, nbytes: usize, c: Cur) -> bool {
    &&& c.pos <= s.len()
    &&& c.bpos == bpos(s, c.pos as int)
    &&& nbytes == byte_len(s)
}

/// The executable result agrees with the spec outcome.
pub open spec fn agrees<T>(r: Result<T, Fault>, model: spec_fn(T) -> JVal, spec: Parsed<JVal>, end: usize) -> bool {
    match r {
        Ok(v) => spec == Parsed::Done(model(v), end as int),
        Err(Fault::Json(m)) => spec == Parsed::<JVal>::Fail(m@),
        Err(Fault::Crash) => spec is Crash,
    }
}

pub open spec fn agrees_str(r: Result<String, Fault>, spec: Parsed<Seq<char>>, end: usize) -> bool {
    match r {
        Ok(v) => spec == Parsed::Done(v@, end as int),
        Err(Fault::Json(m)) => spec == Parsed::<Seq<char>>::Fail(m@),
        Err(Fault::Crash) => spec is Crash,
    }
}

fn fault(m: &str) -> (f: Fault)
    ensures
        f matches Fault::Json(x) && x@ == m@,
{
    Fault::Json(string_of(m))
}

/// Step past one character.
fn advance(cs: &Vec<char>, nb: usize, c: Cur) -> (r: Cur)
    requires
        cur_wf(cs@, nb, c),
        c.pos < cs@.len(),
    ensures
        cur_wf(cs@, nb, r),
        r.pos == c.pos + 1,
{
    let _n = cs.len();
    let w = utf8_width(cs[c.pos]);
    proof {
        let s = cs@;
        lemma_byte_len_push(s.take(c.pos as int), s[c.pos as int]);
        assert(s.take(c.pos as int).push(s[c.pos as int]) =~= s.take(c.pos + 1));
        lemma_byte_len_take(s, c.pos + 1);
    }
    Cur { pos: c.pos + 1, bpos: c.bpos + w }
}

fn skip_ws_at(cs: &Vec<char>, nb: usize, c: Cur) -> (r: Cur)
    requires
        cur_wf(cs@, nb, c),
    ensures
        cur_wf(cs@, nb, r),
        r.pos == ws_end(cs@, c.pos as int),
{
    let mut k = c;
    while k.pos < cs.len() && (cs[k.pos] == ' ' || cs[k.pos] == '\t' || cs[k.pos] == '\n' || cs[k.pos] == '\r')
        invariant
            cur_wf(cs@, nb, k),
            ws_end(cs@, k.pos as int) == ws_end(cs@, c.pos as int),
        decreases cs@.len() - k.pos,
    {
        k = advance(cs, nb, k);
    }
    k
}

/// `kw` (ASCII) at the cursor; on success the cursor moves past it.
fn keyword(cs: &Vec<char>, nb: usize, c: Cur, kw: &str) -> (r: Option<Cur>)
    requires
        cur_wf(cs@, nb, c),
    ensures
        match r {
            Some(d) => at(cs@, c.pos as int, kw@) && cur_wf(cs@, nb, d) && d.pos == c.pos + kw@.len(),
            None => !at(cs@, c.pos as int, kw@),
        },
{
    let k = chars_of(kw);
    if k.len() > cs.len() - c.pos {
        return None;
    }
    let mut i: usize = 0;
    let mut d = c;
    while i < k.len()
        invariant
            k@ == kw@,
            c.pos + k@.len() <= cs@.len(),
            i <= k@.len(),
            cur_wf(cs@, nb, d),
            d.pos == c.pos + i,
            forall|j: int| 0 <= j < i ==> cs@[c.pos + j] == k@[j],
        decreases k.len() - i,
    {
        if cs[c.pos + i] != k[i] {
            assert(cs@.subrange(c.pos as int, c.pos + k@.len())[i as int] != kw@[i as int]);
            return None;
        }
        d = advance(cs, nb, d);
        i += 1;
    }
    assert(cs@.subrange(c.pos as int, c.pos + k@.len()) =~= kw@);
    Some(d)
}

fn hex_digit_value(ch: char) -> (r: Option<u32>)
    ensures
        match hex_value(ch) {
            Some(v) => r == Some(v as u32),
            None => r is None,
        },
{
    if '0' <= ch && ch <= '9' {
        Some((ch as u32) - 48)
    } else if 'a' <= ch && ch <= 'f' {
        Some((ch as u32) - 87)
    } else if 'A' <= ch && ch <= 'F' {
        Some((ch as u32) - 55)
    } else {
        None
    }
}

fn hex_digit_at(cs: &Vec<char>, base: usize, off: usize) -> (r: Option<u32>)
    ensures
        match hex_at(cs@, base + off) {
            Some(v) => r == Some(v as u32) && v < 16,
            None => r is None,
        },
{
    if base < cs.len() && off < cs.len() - base {
        hex_digit_value(cs[base + off])
    } else {
        None
    }
}

fn hex4_at(cs: &Vec<char>, nb: usize, c: Cur) -> (r: Result<(u32, Cur), Fault>)
    requires
        cur_wf(cs@, nb, c),
    ensures
        match hex4(cs@, c.pos as int) {
            Ok(v) => r matches Ok((x, d)) && x == v && cur_wf(cs@, nb, d) && d.pos == c.pos + 4,
            Err(m) => r matches Err(Fault::Json(x)) && x@ == m,
        },
{
    proof {
        lemma_byte_len_take(cs@, c.pos as int);
    }
    if nb - c.bpos < 4 {
        return Err(fault("short hex"));
    }
    let a = hex_digit_at(cs, c.pos, 0);
    let b = hex_digit_at(cs, c.pos, 1);
    let e = hex_digit_at(cs, c.pos, 2);
    let f = hex_digit_at(cs, c.pos, 3);
    match (a, b, e, f) {
        (Some(a), Some(b), Some(e), Some(f)) => {
            let mut d = advance(cs, nb, c);
            d = advance(cs, nb, d);
            d = advance(cs, nb, d);
            d = advance(cs, nb, d);
            Ok((a * 4096 + b * 256 + e * 16 + f, d))
        },
        _ => Err(fault("bad hex")),
    }
}

/// The body of a string literal, the cursor just past the opening quote.
fn string_body_at(cs: &Vec<char>, nb: usize, c: Cur) -> (r: (Result<String, Fault>, Cur))
    requires
        cur_wf(cs@, nb, c),
    ensures
        cur_wf(cs@, nb, r.1),
        agrees_str(r.0, string_body(cs@, c.pos as int, Seq::empty()), r.1.pos),
{
    let ghost s = cs@;
    let mut out = String::new();
    let mut k = c;
    while k.pos < cs.len()
        invariant
            s == cs@,
            cur_wf(s, nb, k),
            string_body(s, c.pos as int, Seq::empty()) == string_body(s, k.pos as int, out@),
        decreases s.len() - k.pos,
    {
        let ch = cs[k.pos];
        if ch == '"' {
            k = advance(cs, nb, k);
            return (Ok(out), k);
        } else if ch == '\\' {
            if k.pos + 1 >= cs.len() {
                return (Err(fault("eof in escape")), k);
            }
            let e = cs[k.pos + 1];
            if e == 'u' {
                let d = advance(cs, nb, k);
                let d = advance(cs, nb, d);
                match hex4_at(cs, nb, d) {
                    Ok((cp, d2)) => {
                        let ch2 = match char_from_u32(cp) {
                            Some(x) => x,
                            None => '\u{FFFD}',
                        };
                        push_char(&mut out, ch2);
                        k = d2;
                    },
                    Err(f) => return (Err(f), d),
                }
            } else {
                let x = if e == '"' {
                    '"'
                } else if e == '\\' {
                    '\\'
                } else if e == '/' {
                    '/'
                } else if e == 'n' {
                    '\n'
                } else if e == 'r' {
                    '\r'
                } else if e == 't' {
                    '\t'
                } else if e == 'b' {
                    '\u{08}'
                } else if e == 'f' {
                    '\u{0C}'
                } else {
                    return (Err(fault("bad escape")), k);
                };
                push_char(&mut out, x);
                let d = advance(cs, nb, k);
                k = advance(cs, nb, d);
            }
        } else {
            push_char(&mut out, ch);
            k = advance(cs, nb, k);
        }
    }
    (Err(fault("unterminated string")), k)
}

/// Reads `text` (ASCII digits after an optional `-`) as an `i64`.
fn number_value(cs: &Vec<char>, start: usize, q: usize, e: usize, neg: bool) -> (r: Option<i64>)
    requires
        start <= q <= e <= cs@.len(),
        forall|i: int| q <= i < e ==> is_digit(#[trigger] cs@[i]),
    ensures
        ({
            let mag = digits_value(cs@.subrange(q as int, e as int));
            let ok = e > q && (if neg { mag <= 9223372036854775808 } else { mag <= 9223372036854775807 });
            if ok {
                r == Some((if neg { -mag } else { mag as int }) as i64)
            } else {
                r is None
            }
        }),
{
    if e == q {
        return None;
    }
    let limit: u64 = if neg { 9223372036854775808u64 } else { 9223372036854775807u64 };
    let mut v: u64 = 0;
    let mut i = q;
    while i < e
        invariant
            q <= i <= e <= cs@.len(),
            forall|j: int| q <= j < e ==> is_digit(#[trigger] cs@[j]),
            v == digits_value(cs@.subrange(q as int, i as int)),
            v <= limit,
            limit == (if neg { 9223372036854775808u64 } else { 9223372036854775807u64 }),
        decreases e - i,
    {
        let d = (cs[i] as u32 - 48) as u64;
        proof {
            assert(is_digit(cs@[i as int]));
            assert(cs@.subrange(q as int, i + 1).drop_last() =~= cs@.subrange(q as int, i as int));
            assert(cs@.subrange(q as int, i + 1).last() == cs@[i as int]);
        }
        if v > (limit - d) / 10 {
            proof {
                lemma_digits_monotone(cs@.subrange(q as int, e as int), (i + 1 - q) as int);
                assert(cs@.subrange(q as int, e as int).take((i + 1 - q) as int) =~= cs@.subrange(q as int, i + 1));
                assert(v * 10 + d > limit) by (nonlinear_arith)
                    requires v > (limit - d) / 10, d <= 9, d <= limit;
            }
            return None;
        }
        proof {
            assert(v * 10 + d <= limit) by (nonlinear_arith)
                requires v <= (limit - d) / 10, d <= 9, d <= limit;
        }
        v = v * 10 + d;
        i += 1;
    }
    assert(cs@.subrange(q as int, e as int) =~= cs@.subrange(q as int, i as int));
    if neg {
        if v == 9223372036854775808u64 {
            Some(i64::MIN)
        } else {
            Some(-(v as i64))
        }
    } else {
        Some(v as i64)
    }
}

/// The value of a digit string is at least the value of any prefix.
proof fn lemma_digits_monotone(d: Seq<char>, k: int)
    requires
        0 <= k <= d.len(),
    ensures
        digits_value(d.take(k)) <= digits_value(d),
    decreases d.len() - k,
{
    if k < d.len() {
        lemma_digits_monotone(d, k + 1);
        assert(d.take(k + 1).drop_last() =~= d.take(k));
    } else {
        assert(d.take(k) =~= d);
    }
}

fn number_at_exec(cs: &Vec<char>, nb: usize, c: Cur) -> (r: (Result<Value, Fault>, Cur))
    requires
        cur_wf(cs@, nb, c),
        c.pos < cs@.len(),
    ensures
        cur_wf(cs@, nb, r.1),
        agrees(r.0, |v: Value| v.model(), number_at(cs@, c.pos as int), r.1.pos),
{
    let neg = cs[c.pos] == '-';
    let mut k = c;
    if neg {
        k = advance(cs, nb, k);
    }
    let q = k.pos;
    while k.pos < cs.len() && '0' <= cs[k.pos] && cs[k.pos] <= '9'
        invariant
            cur_wf(cs@, nb, k),
            q <= k.pos,
            digits_end(cs@, k.pos as int) == digits_end(cs@, q as int),
            forall|i: int| q <= i < k.pos ==> is_digit(#[trigger] cs@[i]),
        decreases cs@.len() - k.pos,
    {
        k = advance(cs, nb, k);
    }
    let e = k.pos;
    match number_value(cs, c.pos, q, e, neg) {
        Some(n) => (Ok(Value::Num(n)), k),
        None => {
            let mut m = string_of("bad number ");
            let mut i = c.pos;
            while i < e
                invariant
                    c.pos <= i <= e <= cs@.len(),
                    m@ == "bad number "@ + cs@.subrange(c.pos as int, i as int),
                decreases e - i,
            {
                push_char(&mut m, cs[i]);
                i += 1;
                assert(m@ =~= "bad number "@ + cs@.subrange(c.pos as int, i as int));
            }
            (Err(Fault::Json(m)), k)
        },
    }
}

/// A value at or after the cursor.
fn value_exec(cs: &Vec<char>, nb: usize, c: Cur) -> (r: (Result<Value, Fault>, Cur))
    requires
        cur_wf(cs@, nb, c),
    ensures
        cur_wf(cs@, nb, r.1),
        agrees(r.0, |v: Value| v.model(), value_at(cs@, c.pos as int), r.1.pos),
    decreases cs@.len() - c.pos, 0int,
{
    let k = skip_ws_at(cs, nb, c);
    proof {
        lemma_ws_end(cs@, c.pos as int);
    }
    if k.pos >= cs.len() {
        return (Err(fault("unexpected end")), k);
    }
    let ch = cs[k.pos];
    if ch == 'n' {
        match keyword(cs, nb, k, "null") {
            Some(d) => {
                proof { reveal_strlit("null"); }
                (Ok(Value::Null), d)
            },
            None => (Err(fault("expected null")), k),
        }
    } else if ch == 't' {
        match keyword(cs, nb, k, "true") {
            Some(d) => {
                proof { reveal_strlit("true"); }
                (Ok(Value::Bool(true)), d)
            },
            None => (Err(fault("expected true")), k),
        }
    } else if ch == 'f' {
        match keyword(cs, nb, k, "false") {
            Some(d) => {
                proof { reveal_strlit("false"); }
                (Ok(Value::Bool(false)), d)
            },
            None => (Err(fault("expected false")), k),
        }
    } else if ch == '"' {
        let d = advance(cs, nb, k);
        let (r, e) = string_body_at(cs, nb, d);
        match r {
            Ok(t) => (Ok(Value::Str(t)), e),
            Err(f) => (Err(f), e),
        }
    } else if ch == '[' {
        let d = advance(cs, nb, k);
        let d = skip_ws_at(cs, nb, d);
        proof {
            lemma_ws_end(cs@, k.pos + 1);
        }
        if d.pos < cs.len() && cs[d.pos] == ']' {
            let e = advance(cs, nb, d);
            let empty: Vec<Value> = Vec::new();
            proof {
                assert(model_items(empty@) =~= Seq::<JVal>::empty());
            }
            (Ok(Value::Array(empty)), e)
        } else {
            items_exec(cs, nb, d)
        }
    } else if ch == '{' {
        let d = advance(cs, nb, k);
        let d = skip_ws_at(cs, nb, d);
        proof {
            lemma_ws_end(cs@, k.pos + 1);
        }
        if d.pos < cs.len() && cs[d.pos] == '}' {
            let e = advance(cs, nb, d);
            let empty: Vec<(String, Value)> = Vec::new();
            proof {
                assert(model_pairs(empty@) =~= Seq::<(Seq<char>, JVal)>::empty());
            }
            (Ok(Value::Object(empty)), e)
        } else {
            members_exec(cs, nb, d)
        }
    } else if ch == '-' || ('0' <= ch && ch <= '9') {
        number_at_exec(cs, nb, k)
    } else {
        let mut m = string_of("bad token at ");
        push_u64(&mut m, k.bpos as u64);
        (Err(Fault::Json(m)), k)
    }
}

/// Array elements from the cursor on.
fn items_exec(cs: &Vec<char>, nb: usize, c: Cur) -> (r: (Result<Value, Fault>, Cur))
    requires
        cur_wf(cs@, nb, c),
    ensures
        cur_wf(cs@, nb, r.1),
        agrees(r.0, |v: Value| v.model(), items_at(cs@, c.pos as int, Seq::empty()), r.1.pos),
    decreases cs@.len() - c.pos, 1int,
{
    let ghost s = cs@;
    let mut acc: Vec<Value> = Vec::new();
    let mut k = c;
    proof {
        assert(model_items(acc@) =~= Seq::<JVal>::empty());
    }
    loop
        invariant
            s == cs@,
            cur_wf(s, nb, k),
            c.pos <= k.pos,
            items_at(s, c.pos as int, Seq::empty()) == items_at(s, k.pos as int, model_items(acc@)),
        decreases s.len() - k.pos,
    {
        let ghost p = k.pos as int;
        let (rv, k2) = value_exec(cs, nb, k);
        let v = match rv {
            Ok(v) => v,
            Err(f) => return (Err(f), k2),
        };
        proof {
            lemma_advances(s, p);
            lemma_ws_end(s, k2.pos as int);
        }
        let k3 = skip_ws_at(cs, nb, k2);
        if k3.pos >= cs.len() {
            return (Err(fault("eof in array")), k3);
        }
        let sep = cs[k3.pos];
        if sep == ',' {
            let ghost before = acc@;
            acc.push(v);
            proof {
                assert(acc@.drop_last() =~= before);
            }
            k = advance(cs, nb, k3);
        } else if sep == ']' {
            let ghost before = acc@;
            acc.push(v);
            proof {
                assert(acc@.drop_last() =~= before);
            }
            let e = advance(cs, nb, k3);
            return (Ok(Value::Array(acc)), e);
        } else {
            return (Err(fault("bad array sep")), k3);
        }
    }
}

/// Object members from the cursor on.
fn members_exec(cs: &Vec<char>, nb: usize, c: Cur) -> (r: (Result<Value, Fault>, Cur))
    requires
        cur_wf(cs@, nb, c),
    ensures
        cur_wf(cs@, nb, r.1),
        agrees(r.0, |v: Value| v.model(), members_at(cs@, c.pos as int, Seq::empty()), r.1.pos),
    decreases cs@.len() - c.pos, 1int,
{
    let ghost s = cs@;
    let mut acc: Vec<(String, Value)> = Vec::new();
    let mut k = c;
    proof {
        assert(model_pairs(acc@) =~= Seq::<(Seq<char>, JVal)>::empty());
    }
    loop
        invariant
            s == cs@,
            cur_wf(s, nb, k),
            c.pos <= k.pos,
            members_at(s, c.pos as int, Seq::empty()) == members_at(s, k.pos as int, model_pairs(acc@)),
        decreases s.len() - k.pos,
    {
        let ghost p = k.pos as int;
        let k1 = skip_ws_at(cs, nb, k);
        proof {
            lemma_ws_end(s, p);
        }
        if k1.pos >= cs.len() {
            return (Err(Fault::Crash), k1);
        }
        if cs[k1.pos] != '"' {
            return (Err(fault("expected '\"'")), k1);
        }
        let d = advance(cs, nb, k1);
        let (rk, k2) = string_body_at(cs, nb, d);
        let key = match rk {
            Ok(key) => key,
            Err(f) => return (Err(f), k2),
        };
        proof {
            lemma_string_body_advances(s, k1.pos + 1, Seq::empty());
            lemma_ws_end(s, k2.pos as int);
        }
        let k3 = skip_ws_at(cs, nb, k2);
        if k3.pos >= cs.len() || cs[k3.pos] != ':' {
            return (Err(fault("expected ':'")), k3);
        }
        let k4 = advance(cs, nb, k3);
        let (rv, k5) = value_exec(cs, nb, k4);
        let v = match rv {
            Ok(v) => v,
            Err(f) => return (Err(f), k5),
        };
        proof {
            lemma_advances(s, k4.pos as int);
            lemma_ws_end(s, k5.pos as int);
        }
        let k6 = skip_ws_at(cs, nb, k5);
        if k6.pos >= cs.len() {
            return (Err(fault("eof in object")), k6);
        }
        let sep = cs[k6.pos];
        if sep == ',' {
            let ghost before = acc@;
            acc.push((key, v));
            proof {
                assert(acc@.drop_last() =~= before);
            }
            k = advance(cs, nb, k6);
        } else if sep == '}' {
            let ghost before = acc@;
            acc.push((key, v));
            proof {
                assert(acc@.drop_last() =~= before);
            }
            let e = advance(cs, nb, k6);
            return (Ok(Value::Object(acc)), e);
        } else {
            return (Err(fault("bad object sep")), k6);
        }
    }
}

/// Recursive-descent parser over the characters of one input text.
pub struct Parser {
    chars: Vec<char>,
    pub pos: usize,
    bpos: usize,
    nbytes: usize,
}

impl Parser {
    /// The characters being parsed.
    pub closed spec fn text(&self) -> Seq<char> {
        self.chars@
    }

    /// The current position, in characters.
    pub closed spec fn at(&self) -> int {
        self.pos as int
    }

    /// The current position, in characters.
    pub fn position(&self) -> (r: usize)
        ensures
            r == self.at(),
    {
        self.pos
    }

    pub closed spec fn wf(&self) -> bool {
        cur_wf(self.chars@, self.nbytes, Cur { pos: self.pos, bpos: self.bpos })
    }

    /// A parser at the start of `input`.
    pub fn new(input: &str) -> (p: Self)
        ensures
            p.wf(),
            p.text() == input@,
            p.at() == 0,
    {
        let chars = chars_of(input);
        let n = input.as_bytes().len();
        proof {
            assert(input@.take(0) =~= Seq::<char>::empty());
            assert(vstd::utf8::encode_utf8(Seq::<char>::empty()) =~= Seq::<u8>::empty());
        }
        Parser { chars, pos: 0, bpos: 0, nbytes: n }
    }

    /// Byte offset of the current position in the input's UTF-8 encoding.
    pub fn byte_pos(&self) -> (b: usize)
        requires
            self.wf(),
        ensures
            b == bpos(self.text(), self.at()),
    {
        self.bpos
    }

    /// Number of characters in the input.
    pub fn text_len(&self) -> (n: usize)
        requires
            self.wf(),
        ensures
            n == self.text().len(),
            self.at() <= n,
    {
        self.chars.len()
    }

    /// Skips spaces, tabs, newlines and carriage returns.
    pub fn skip_ws(&mut self)
        requires
            old(self).wf(),
        ensures
            final(self).wf(),
            final(self).text() == old(self).text(),
            final(self).at() == ws_end(old(self).text(), old(self).at()),
    {
        let c = skip_ws_at(&self.chars, self.nbytes, Cur { pos: self.pos, bpos: self.bpos });
        self.pos = c.pos;
        self.bpos = c.bpos;
    }

    /// Parses one value at or after the current position; on success the
    /// position moves past it.
    pub fn parse_value(&mut self) -> (r: Result<Value, Error>)
        requires
            old(self).wf(),
            !(value_at(old(self).text(), old(self).at()) is Crash),
        ensures
            final(self).wf(),
            final(self).text() == old(self).text(),
            match r {
                Ok(v) => value_at(old(self).text(), old(self).at()) == Parsed::Done(v.model(), final(self).at()),
                Err(e) => e matches Error::Json(m) && value_at(old(self).text(), old(self).at()) == Parsed::<JVal>::Fail(m@),
            },
    {
        let (r, c) = value_exec(&self.chars, self.nbytes, Cur { pos: self.pos, bpos: self.bpos });
        self.pos = c.pos;
        self.bpos = c.bpos;
        match r {
            Ok(v) => Ok(v),
            Err(Fault::Json(m)) => Err(Error::Json(m)),
            Err(Fault::Crash) => {
                proof {
                    assert(false);
                }
                Err(Error::Json(String::new()))
            },
        }
    }

    /// Like `parse_value`, but reports an input the parser would read past
    /// the end of as `None`.
    pub fn try_parse_value(&mut self) -> (r: Option<Result<Value, Error>>)
        requires
            old(self).wf(),
        ensures
            final(self).wf(),
            final(self).text() == old(self).text(),
            match r {
                Some(Ok(v)) => value_at(old(self).text(), old(self).at()) == Parsed::Done(v.model(), final(self).at()),
                Some(Err(e)) => e matches Error::Json(m) && value_at(old(self).text(), old(self).at()) == Parsed::<JVal>::Fail(m@),
                None => value_at(old(self).text(), old(self).at()) is Crash,
            },
    {
        let (r, c) = value_exec(&self.chars, self.nbytes, Cur { pos: self.pos, bpos: self.bpos });
        self.pos = c.pos;
        self.bpos = c.bpos;
        match r {
            Ok(v) => Some(Ok(v)),
            Err(Fault::Json(m)) => Some(Err(Error::Json(m))),
            Err(Fault::Crash) => None,
        }
    }
}

} // verus!
