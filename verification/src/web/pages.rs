//! The HTML pages: landing, a subject's reading, not found, upstream error.

use vstd::prelude::*;
use vstd::string::*;
use super::css::CSS;
use crate::escape::{esc, esc_text};
use crate::metrics::{Corpse, Fate, Reading, fate_label, kind_prefix};
use crate::text::{dec, push_str, push_u64, string_of};

verus! {

/// A whole HTML page around `body`, titled with the escaped `title`.
pub open spec fn page_text(title: Seq<char>, body: Seq<char>) -> Seq<char> {
    PAGE1@ + esc(title) + PAGE2@ + esc(title) + PAGE3@ + CSS@ + PAGE4@ + body + PAGE5@
}

pub const PAGE1: &'static str = "<!DOCTYPE html>\n<html lang=\"en\"><head>\n<meta charset=\"utf-8\">\n<meta name=\"viewport\" content=\"width=device-width, initial-scale=1\">\n<title>";
pub const PAGE2: &'static str = "</title>\n<meta property=\"og:title\" content=\"";
pub const PAGE3: &'static str = "\">\n<style>";
pub const PAGE4: &'static str = "</style>\n</head><body><main>";
pub const PAGE5: &'static str = "</main></body></html>";

/// A page: the escaped title in `<title>` and in the Open Graph title,
/// the style sheet, and `body` as it is.
pub fn page(title: &str, body: &str) -> (r: String)
    ensures
        r@ == page_text(title@, body@),
{
    let t = esc_text(title);
    let mut out = string_of(PAGE1);
    push_str(&mut out, t.as_str());
    push_str(&mut out, PAGE2);
    push_str(&mut out, t.as_str());
    push_str(&mut out, PAGE3);
    push_str(&mut out, CSS);
    push_str(&mut out, PAGE4);
    push_str(&mut out, body);
    push_str(&mut out, PAGE5);
    out
}

pub const LANDING_TITLE: &'static str = "necrometer — how dead are your repos?";
pub const LANDING_BODY: &'static str = "\n<h1>THE NECROMETER</h1>\n<p class=\"tag\">Measures how dead your GitHub repos are. Embeds in your README, haunts your profile.</p>\n<form action=\"/go\" method=\"get\">\n<input name=\"subject\" placeholder=\"github username or org\" autofocus>\n<button type=\"submit\">check the pulse</button>\n</form>\n<p class=\"hint\">embed: <code>[![Necrometer](https://necrometer.dev/u/YOU.svg)](https://necrometer.dev/u/YOU)</code></p>\n<h2>specimens</h2>\n<img src=\"/u/torvalds.svg\" alt=\"torvalds necrometer\">\n<img src=\"/org/rust-lang.svg\" alt=\"rust-lang necrometer\">\n";

/// The front page: what the meter does, the form that asks for a
/// subject, the embed snippet, two specimens.
pub fn landing() -> (r: String)
    ensures
        r@ == page_text(LANDING_TITLE@, LANDING_BODY@),
{
    page(LANDING_TITLE, LANDING_BODY)
}

pub const NOT_FOUND_A: &'static str = "\n<h1>empty plot</h1>\n<p>";
pub const NOT_FOUND_B: &'static str = "</p>\n<form action=\"/go\" method=\"get\">\n<input name=\"subject\" placeholder=\"try someone else\">\n<button type=\"submit\">dig</button>\n</form>\n";

/// The page for a subject GitHub does not know, echoing `msg` escaped.
pub fn not_found(msg: &str) -> (r: String)
    ensures
        r@ == page_text("not found"@, NOT_FOUND_A@ + esc(msg@) + NOT_FOUND_B@),
{
    let mut body = string_of(NOT_FOUND_A);
    let m = esc_text(msg);
    push_str(&mut body, m.as_str());
    push_str(&mut body, NOT_FOUND_B);
    page("not found", body.as_str())
}

pub const UPSTREAM_BODY: &'static str = "\n<h1>github is not answering</h1>\n<p class=\"dim\">try again in a minute.</p>\n<p><a href=\"/\">back to the morgue</a></p>\n";

/// The page shown when GitHub does not answer.
pub fn upstream_error() -> (r: String)
    ensures
        r@ == page_text("upstream error"@, UPSTREAM_BODY@),
{
    page("upstream error", UPSTREAM_BODY)
}

/// One graveyard row: fate, linked name (marked when stillborn), days
/// idle, stars and fate again, all text escaped.
pub open spec fn row_text(c: Corpse) -> Seq<char> {
    "<tr class=\"fate-"@ + esc(fate_label(c.fate)) + "\"><td><a href=\""@ + esc(c.url@) + "\">"@ + esc(c.name@) + "</a>"@
        + (if c.stillborn { " <span class=\"stillborn\">stillborn</span>"@ } else { Seq::empty() })
        + "</td><td>"@ + dec(c.days_idle as nat) + "d</td><td>"@ + dec(c.stars as nat) + "</td><td>"@ + esc(fate_label(c.fate)) + "</td></tr>"@
}

/// The rows of every corpse that is not alive, in order.
pub open spec fn rows_text(es: Seq<Corpse>) -> Seq<char>
    decreases es.len(),
{
    if es.len() == 0 {
        Seq::empty()
    } else if es.last().fate == Fate::Alive {
        rows_text(es.drop_last())
    } else {
        rows_text(es.drop_last()) + row_text(es.last())
    }
}

/// The totals line, empty when no repo was examined.
pub open spec fn summary_text(r: Reading) -> Seq<char> {
    if r.total == 0 {
        Seq::empty()
    } else {
        "<p class=\"dim\">"@ + dec(r.total as nat) + " repos examined · "@ + dec(r.stars_stranded as nat) + " stars stranded"@
            + (if r.stillborn > 0 { " · "@ + dec(r.stillborn as nat) + " stillborn"@ } else { Seq::empty() })
            + "</p>"@
    }
}

/// The subject's page path: `/u/name` or `/org/name`.
pub open spec fn subject_path(r: Reading) -> Seq<char> {
    "/"@ + kind_prefix(r.kind) + "/"@ + r.subject@
}

/// The README snippet that embeds the card and links the page.
pub open spec fn snippet_text(r: Reading) -> Seq<char> {
    "[![Necrometer](https://necrometer.dev"@ + subject_path(r) + ".svg)](https://necrometer.dev"@ + subject_path(r) + ")"@
}

pub open spec fn graveyard_text(r: Reading) -> Seq<char> {
    if rows_text(r.entries@).len() == 0 {
        Seq::empty()
    } else {
        "<h2>the graveyard</h2><table><tr><th>repo</th><th>idle</th><th>stars</th><th>fate</th></tr>"@ + rows_text(r.entries@) + "</table>"@
    }
}

pub open spec fn subject_body(r: Reading) -> Seq<char> {
    "\n<p><a href=\"/\">← the morgue</a></p>\n<h1>@"@ + esc(r.subject@) + "</h1>\n<img src=\""@ + subject_path(r) + ".svg\" alt=\"necrometer card\">\n<h2>"@ + dec(r.index as nat) + "% necrotic — "@ + esc(r.title@) + "</h2>\n"@
        + summary_text(r) + "\n"@ + graveyard_text(r) + "\n<h2>haunt your README</h2>\n<pre>"@ + esc(snippet_text(r)) + "</pre>\n<form action=\"/go\" method=\"get\">\n<input name=\"subject\" placeholder=\"check another\">\n<button type=\"submit\">exhume</button>\n</form>\n"@
}

fn push_row(out: &mut String, c: &Corpse)
    ensures
        final(out)@ == old(out)@ + row_text(*c),
{
    let fate = esc_text(c.fate.label());
    push_str(out, "<tr class=\"fate-");
    push_str(out, fate.as_str());
    push_str(out, "\"><td><a href=\"");
    let u = esc_text(c.url.as_str());
    push_str(out, u.as_str());
    push_str(out, "\">");
    let n = esc_text(c.name.as_str());
    push_str(out, n.as_str());
    push_str(out, "</a>");
    if c.stillborn {
        push_str(out, " <span class=\"stillborn\">stillborn</span>");
    }
    push_str(out, "</td><td>");
    push_u64(out, c.days_idle as u64);
    push_str(out, "d</td><td>");
    push_u64(out, c.stars);
    push_str(out, "</td><td>");
    push_str(out, fate.as_str());
    push_str(out, "</td></tr>");
    proof {
        let e = Seq::<char>::empty();
        assert(e + e =~= e);
    }
}


fn push_summary(out: &mut String, r: &Reading)
    ensures
        final(out)@ == old(out)@ + summary_text(*r),
{
    if r.total == 0 {
        proof {
            assert(old(out)@ + Seq::<char>::empty() =~= old(out)@);
        }
        return;
    }
    push_str(out, "<p class=\"dim\">");
    push_u64(out, r.total as u64);
    push_str(out, " repos examined · ");
    push_u64(out, r.stars_stranded);
    push_str(out, " stars stranded");
    if r.stillborn > 0 {
        push_str(out, " · ");
        push_u64(out, r.stillborn as u64);
        push_str(out, " stillborn");
    }
    push_str(out, "</p>");
    proof {
        let e = Seq::<char>::empty();
        assert(e + e =~= e);
    }
}

fn rows(es: &Vec<Corpse>) -> (r: String)
    ensures
        r@ == rows_text(es@),
{
    let mut out = String::new();
    let mut i: usize = 0;
    while i < es.len()
        invariant
            i <= es@.len(),
            out@ == rows_text(es@.take(i as int)),
        decreases es.len() - i,
    {
        proof {
            let t = es@.take(i + 1);
            assert(t.drop_last() =~= es@.take(i as int));
            assert(t.last() == es@[i as int]);
        }
        if es[i].fate != Fate::Alive {
            push_row(&mut out, &es[i]);
        }
        i += 1;
    }
    assert(es@.take(es@.len() as int) =~= es@);
    out
}

/// The reading's own page: the card, the index and title, the totals,
/// the graveyard of every repo that is not alive, and the README
/// snippet.
pub fn subject_page(r: &Reading) -> (s: String)
    ensures
        s@ == page_text(r.subject@ + " — necrometer reading"@, subject_body(*r)),
{
    let mut path = string_of("/");
    push_str(&mut path, r.kind.prefix());
    push_str(&mut path, "/");
    push_str(&mut path, r.subject.as_str());
    let mut snippet = string_of("[![Necrometer](https://necrometer.dev");
    push_str(&mut snippet, path.as_str());
    push_str(&mut snippet, ".svg)](https://necrometer.dev");
    push_str(&mut snippet, path.as_str());
    push_str(&mut snippet, ")");
    let rows = rows(&r.entries);
    let mut body = string_of("\n<p><a href=\"/\">← the morgue</a></p>\n<h1>@");
    let subj = esc_text(r.subject.as_str());
    push_str(&mut body, subj.as_str());
    push_str(&mut body, "</h1>\n<img src=\"");
    push_str(&mut body, path.as_str());
    push_str(&mut body, ".svg\" alt=\"necrometer card\">\n<h2>");
    push_u64(&mut body, r.index as u64);
    push_str(&mut body, "% necrotic — ");
    let title = esc_text(r.title.as_str());
    push_str(&mut body, title.as_str());
    push_str(&mut body, "</h2>\n");
    push_summary(&mut body, r);
    push_str(&mut body, "\n");
    if rows.unicode_len() > 0 {
        push_str(&mut body, "<h2>the graveyard</h2><table><tr><th>repo</th><th>idle</th><th>stars</th><th>fate</th></tr>");
        push_str(&mut body, rows.as_str());
        push_str(&mut body, "</table>");
    }
    push_str(&mut body, "\n<h2>haunt your README</h2>\n<pre>");
    let sn = esc_text(snippet.as_str());
    push_str(&mut body, sn.as_str());
    push_str(&mut body, "</pre>\n<form action=\"/go\" method=\"get\">\n<input name=\"subject\" placeholder=\"check another\">\n<button type=\"submit\">exhume</button>\n</form>\n");
    proof {
        let e = Seq::<char>::empty();
        assert(e + e =~= e);
    }
    let mut title_text = string_of(r.subject.as_str());
    push_str(&mut title_text, " — necrometer reading");
    page(title_text.as_str(), body.as_str())
}

} // verus!
