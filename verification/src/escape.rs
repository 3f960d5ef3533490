//! XML/HTML escaping and subject/path validation, shared by the SVG
//! renderer, the HTML pages and the command line.

use vstd::prelude::*;
use crate::text::{chars_of, push_char, push_str};

verus! {

/// The escaped form of one character: `&`, `<`, `>` and `"` become
/// entities, every other character stands for itself.
pub open spec fn esc_char(c: char) -> Seq<char> {
    if c == '&' {
        seq!['&', 'a', 'm', 'p', ';']
    } else if c == '<' {
        seq!['&', 'l', 't', ';']
    } else if c == '>' {
        seq!['&', 'g', 't', ';']
    } else if c == '"' {
        seq!['&', 'q', 'u', 'o', 't', ';']
    } else {
        seq![c]
    }
}

/// The escaped form of a character sequence: each character escaped in turn.
pub open spec fn esc(s: Seq<char>) -> Seq<char>
    decreases s.len(),
{
    if s.len() == 0 {
        Seq::empty()
    } else {
        esc(s.drop_last()) + esc_char(s.last())
    }
}

/// Escaping distributes over concatenation.
pub proof fn lemma_esc_concat(a: Seq<char>, b: Seq<char>)
    ensures
        esc(a + b) == esc(a) + esc(b),
    decreases b.len(),
{
    if b.len() == 0 {
        assert(a + b =~= a);
        assert(esc(a) + esc(b) =~= esc(a));
    } else {
        lemma_esc_concat(a, b.drop_last());
        assert((a + b).drop_last() =~= a + b.drop_last());
        assert((a + b).last() == b.last());
        assert(esc(a + b) =~= esc(a) + esc(b));
    }
}

/// Escaped text holds none of the characters `<`, `>` and `"`.
pub proof fn lemma_esc_no_markup(s: Seq<char>)
    ensures
        forall|i: int| 0 <= i < esc(s).len() ==> esc(s)[i] != '<' && esc(s)[i] != '>' && esc(s)[i] != '"',
    decreases s.len(),
{
    if s.len() > 0 {
        lemma_esc_no_markup(s.drop_last());
        let e = esc(s.drop_last());
        let t = esc_char(s.last());
        assert(esc(s) == e + t);
        assert forall|i: int| 0 <= i < esc(s).len() implies esc(s)[i] != '<' && esc(s)[i] != '>' && esc(s)[i] != '"' by {
            if i >= e.len() {
                assert(esc(s)[i] == t[i - e.len()]);
            } else {
                assert(esc(s)[i] == e[i]);
            }
        }
    }
}

/// Decodes `&amp;`, `&lt;`, `&gt;` and `&quot;` in one left-to-right
/// pass; every other character stands for itself.
pub open spec fn unescape(t: Seq<char>) -> Seq<char>
    decreases t.len(),
{
    if t.len() == 0 {
        Seq::empty()
    } else if t.len() >= 5 && t.take(5) == seq!['&', 'a', 'm', 'p', ';'] {
        seq!['&'] + unescape(t.skip(5))
    } else if t.len() >= 4 && t.take(4) == seq!['&', 'l', 't', ';'] {
        seq!['<'] + unescape(t.skip(4))
    } else if t.len() >= 4 && t.take(4) == seq!['&', 'g', 't', ';'] {
        seq!['>'] + unescape(t.skip(4))
    } else if t.len() >= 6 && t.take(6) == seq!['&', 'q', 'u', 'o', 't', ';'] {
        seq!['"'] + unescape(t.skip(6))
    } else {
        seq![t[0]] + unescape(t.skip(1))
    }
}

proof fn lemma_unescape_char(c: char, r: Seq<char>)
    ensures
        unescape(esc_char(c) + r) == seq![c] + unescape(r),
{
    let t = esc_char(c) + r;
    let e = esc_char(c);
    assert(t.skip(e.len() as int) =~= r);
    assert(t.take(e.len() as int) =~= e);
    if c == '&' {
    } else if c == '<' {
        if t.len() >= 5 {
            assert(t.take(5)[1] == 'l');
        }
    } else if c == '>' {
        if t.len() >= 5 {
            assert(t.take(5)[1] == 'g');
        }
        assert(t.take(4)[1] == 'g');
    } else if c == '"' {
        assert(t.take(5)[1] == 'q');
        assert(t.take(4)[1] == 'q');
    } else {
        assert(t[0] == c);
        if t.len() >= 4 {
            assert(t.take(4)[0] == c);
        }
        if t.len() >= 5 {
            assert(t.take(5)[0] == c);
        }
        if t.len() >= 6 {
            assert(t.take(6)[0] == c);
        }
    }
}

proof fn lemma_unescape_esc(s: Seq<char>)
    ensures
        unescape(esc(s)) == s,
    decreases s.len(),
{
    if s.len() > 0 {
        let rest = s.drop_first();
        lemma_unescape_esc(rest);
        assert(s =~= seq![s[0]] + rest);
        lemma_esc_concat(seq![s[0]], rest);
        let one = seq![s[0]];
        assert(one.drop_last() =~= Seq::<char>::empty());
        assert(one.last() == s[0]);
        assert(esc(Seq::<char>::empty()) =~= Seq::<char>::empty());
        assert(esc(one) == esc(one.drop_last()) + esc_char(one.last()));
        assert(esc(one) =~= esc_char(s[0]));
        lemma_unescape_char(s[0], esc(rest));
    }
}

proof fn lemma_esc_plain(s: Seq<char>)
    requires
        forall|i: int| 0 <= i < s.len() ==> #[trigger] s[i] != '&' && s[i] != '<' && s[i] != '>' && s[i] != '"',
    ensures
        esc(s) == s,
    decreases s.len(),
{
    if s.len() > 0 {
        assert forall|i: int| 0 <= i < s.drop_last().len() implies #[trigger] s.drop_last()[i] != '&' && s.drop_last()[i] != '<' && s.drop_last()[i] != '>' && s.drop_last()[i] != '"' by {
            assert(s.drop_last()[i] == s[i]);
        }
        lemma_esc_plain(s.drop_last());
        assert(s.last() == s[s.len() - 1]);
        assert(esc(s) =~= s);
    }
}

/// Escaping loses nothing: decoding the escaped text gives back the
/// text; it leaves no `<`, `>` or `"`; and text holding none of `&`, `<`,
/// `>` and `"` is left as it is (`'` is never escaped).
pub proof fn law_esc_round_trip(s: Seq<char>)
    ensures
        unescape(esc(s)) == s,
        forall|i: int| 0 <= i < esc(s).len() ==> esc(s)[i] != '<' && esc(s)[i] != '>' && esc(s)[i] != '"',
        (forall|i: int| 0 <= i < s.len() ==> #[trigger] s[i] != '&' && s[i] != '<' && s[i] != '>' && s[i] != '"')
            ==> esc(s) == s,
{
    lemma_unescape_esc(s);
    lemma_esc_no_markup(s);
    if forall|i: int| 0 <= i < s.len() ==> #[trigger] s[i] != '&' && s[i] != '<' && s[i] != '>' && s[i] != '"' {
        lemma_esc_plain(s);
    }
}

/// Escape for SVG/HTML text content. `'` is left alone because every
/// attribute value emitted is wrapped in double quotes.
pub fn esc_text(s: &str) -> (r: String)
    ensures
        r@ == esc(s@),
{
    let cs = chars_of(s);
    let mut out = String::new();
    let mut i: usize = 0;
    while i < cs.len()
        invariant
            cs@ == s@,
            i <= cs@.len(),
            out@ == esc(cs@.take(i as int)),
        decreases cs.len() - i,
    {
        let c = cs[i];
        if c == '&' {
            push_str(&mut out, "&amp;");
        } else if c == '<' {
            push_str(&mut out, "&lt;");
        } else if c == '>' {
            push_str(&mut out, "&gt;");
        } else if c == '"' {
            push_str(&mut out, "&quot;");
        } else {
            push_char(&mut out, c);
        }
        proof {
            reveal_strlit("&amp;");
            reveal_strlit("&lt;");
            reveal_strlit("&gt;");
            reveal_strlit("&quot;");
            assert(cs@.take(i + 1).drop_last() =~= cs@.take(i as int));
        }
        i += 1;
    }
    assert(cs@.take(cs@.len() as int) =~= cs@);
    out
}

/// Escape for an attribute value wrapped in double quotes.
pub fn esc_attr(s: &str) -> (r: String)
    ensures
        r@ == esc(s@),
{
    esc_text(s)
}

/// An ASCII letter or digit.
pub open spec fn is_alnum(c: char) -> bool {
    ('a' <= c && c <= 'z') || ('A' <= c && c <= 'Z') || ('0' <= c && c <= '9')
}

/// GitHub's rules for a login: 1 to 39 characters, ASCII letters, digits
/// and hyphens only, no hyphen first or last, no two hyphens in a row.
pub open spec fn valid_subject(s: Seq<char>) -> bool {
    &&& 1 <= s.len() <= 39
    &&& s[0] != '-'
    &&& s.last() != '-'
    &&& forall|i: int| 0 <= i < s.len() ==> is_alnum(#[trigger] s[i]) || s[i] == '-'
    &&& forall|i: int| 0 <= i < s.len() - 1 ==> !(#[trigger] s[i] == '-' && s[i + 1] == '-')
}

pub fn is_alnum_char(c: char) -> (b: bool)
    ensures
        b == is_alnum(c),
{
    ('a' <= c && c <= 'z') || ('A' <= c && c <= 'Z') || ('0' <= c && c <= '9')
}

/// Validate a GitHub login (subject) against GitHub's rules.
pub fn is_valid_subject(s: &str) -> (b: bool)
    ensures
        b == valid_subject(s@),
{
    let cs = chars_of(s);
    let n = cs.len();
    if n == 0 || n > 39 {
        return false;
    }
    if cs[0] == '-' || cs[n - 1] == '-' {
        return false;
    }
    let mut prev_dash = false;
    let mut i: usize = 0;
    while i < n
        invariant
            cs@ == s@,
            n == cs@.len(),
            1 <= n <= 39,
            cs@[0] != '-',
            cs@.last() != '-',
            i <= n,
            prev_dash == (i > 0 && cs@[i - 1] == '-'),
            forall|j: int| 0 <= j < i ==> is_alnum(#[trigger] cs@[j]) || cs@[j] == '-',
            forall|j: int| 0 <= j < i - 1 ==> !(#[trigger] cs@[j] == '-' && cs@[j + 1] == '-'),
        decreases n - i,
    {
        let c = cs[i];
        let ok = is_alnum_char(c) || c == '-';
        if !ok {
            assert(!(is_alnum(cs@[i as int]) || cs@[i as int] == '-'));
            return false;
        }
        if c == '-' && prev_dash {
            assert(cs@[i - 1] == '-' && cs@[i - 1 + 1] == '-');
            return false;
        }
        prev_dash = c == '-';
        i += 1;
    }
    true
}

/// A character a shell would read as more than a name: `;`, `|`, `&`,
/// `$`, a backquote, `<`, `>`, `(`, `)` or a newline.
pub open spec fn shell_meta(c: char) -> bool {
    c == ';' || c == '|' || c == '&' || c == '$' || c == '`' || c == '<' || c == '>' || c == '('
        || c == ')' || c == '\n'
}

/// An output path is refused when it is absolute, or holds a NUL or a
/// shell metacharacter.
pub open spec fn safe_out_path(p: Seq<char>) -> bool {
    &&& !(p.len() > 0 && p[0] == '/')
    &&& forall|i: int| 0 <= i < p.len() ==> #[trigger] p[i] != '\0' && !shell_meta(p[i])
}

/// Reject dangerous command-line output paths: absolute ones and ones
/// holding a NUL or a shell metacharacter.
pub fn is_safe_out_path(p: &str) -> (b: bool)
    ensures
        b == safe_out_path(p@),
{
    let cs = chars_of(p);
    if cs.len() > 0 && cs[0] == '/' {
        return false;
    }
    let mut i: usize = 0;
    while i < cs.len()
        invariant
            cs@ == p@,
            !(cs@.len() > 0 && cs@[0] == '/'),
            i <= cs@.len(),
            forall|j: int| 0 <= j < i ==> #[trigger] cs@[j] != '\0' && !shell_meta(cs@[j]),
        decreases cs.len() - i,
    {
        let c = cs[i];
        if c == '\0' || c == ';' || c == '|' || c == '&' || c == '$' || c == '`' || c == '<' || c == '>'
            || c == '(' || c == ')' || c == '\n' {
            return false;
        }
        i += 1;
    }
    true
}

} // verus!
