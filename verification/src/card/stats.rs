//! The stats panel on the right: subject, index, title, flavor, fate
//! counts, stranded stars, the oldest corpse, the stillborn and the last
//! sign of life, then the heartbeat line.

use vstd::prelude::*;
use vstd::string::*;
use super::ekg::ekg_text;
use super::palette::{FONT_CREEPSTER, FONT_SERIF, Palette};
use crate::escape::{esc, esc_text};
use crate::metrics::{Fate, Reading, fate_index, fate_label};
use crate::text::{chars_of, dec, push_str, push_u64, string_from_chars, string_of};

verus! {

/// `parts` joined by `sep`.
pub open spec fn join(parts: Seq<Seq<char>>, sep: Seq<char>) -> Seq<char>
    decreases parts.len(),
{
    if parts.len() == 0 {
        Seq::empty()
    } else if parts.len() == 1 {
        parts[0]
    } else {
        join(parts.drop_last(), sep) + sep + parts.last()
    }
}

pub open spec fn fate_name(i: int) -> Seq<char> {
    if i == 0 { "alive"@ } else if i == 1 { "cooling"@ } else if i == 2 { "cold"@ } else if i == 3 { "dead"@ } else { "buried"@ }
}

/// `n fate` for each of the first `k` fates with a count above zero.
pub open spec fn fate_parts(counts: Seq<u32>, k: int) -> Seq<Seq<char>>
    decreases k,
{
    if k <= 0 {
        Seq::empty()
    } else if counts[k - 1] > 0 {
        fate_parts(counts, k - 1).push(dec(counts[k - 1] as nat) + " "@ + fate_name(k - 1))
    } else {
        fate_parts(counts, k - 1)
    }
}

/// The stillborn count and the last sign of life, as far as known.
pub open spec fn life_parts(r: Reading) -> Seq<Seq<char>> {
    let a = if r.stillborn > 0 { seq![dec(r.stillborn as nat) + " stillborn"@] } else { Seq::empty() };
    match r.days_since_any_push {
        Some(d) => a.push(if d == 0 { "signs of life today"@ } else { "last sign of life: "@ + dec(d as nat) + "d ago"@ }),
        None => a,
    }
}

/// The name of the oldest corpse, cut to 19 characters and an ellipsis
/// when longer than 20.
pub open spec fn short_name(n: Seq<char>) -> Seq<char> {
    if n.len() > 20 { n.take(19).push('…') } else { n }
}

/// The `y` of the `k`-th optional line: 133, 146.5, 160.
pub open spec fn line_y(k: int) -> Seq<char> {
    if k == 0 { "133"@ } else if k == 1 { "146.5"@ } else { "160"@ }
}

pub open spec fn index_glow(index: u8) -> Seq<char> {
    if index >= 80 { " filter=\"url(#glow-blood)\""@ } else if index >= 50 { " filter=\"url(#glow-candle)\""@ } else { " filter=\"url(#glow-phos)\""@ }
}

pub open spec fn necro_x(index: u8) -> Seq<char> {
    if index >= 100 { "282"@ } else if index >= 10 { "270"@ } else { "256"@ }
}

pub open spec fn header_text(r: Reading, p: Palette) -> Seq<char> {
    "<text x=\"200\" y=\"33\" font-size=\"22\" letter-spacing=\"1.5\" fill=\""@ + p.violet@ + "\" class=\"font-creepster\" filter=\"url(#glow-violet)\" font-family=\""@ + FONT_CREEPSTER@ + "\">@"@ + esc("@"@ + r.subject@) + "</text>"@
}

pub open spec fn index_lines(r: Reading, p: Palette) -> Seq<char> {
    "<text x=\"200\" y=\"68\" font-size=\"34\" font-weight=\"700\" fill=\""@ + p.accent@ + "\" class=\"font-mono\""@ + index_glow(r.index) + ">"@ + dec(r.index as nat) + "%</text>"@
        + "<text x=\""@ + necro_x(r.index) + "\" y=\"62\" font-size=\"12\" letter-spacing=\"1\" fill=\""@ + p.dim@ + "\" class=\"font-mono\">necrotic</text>"@
}

pub open spec fn title_lines(r: Reading, p: Palette) -> Seq<char> {
    "<text x=\"200\" y=\"88\" font-size=\"16\" letter-spacing=\"1\" fill=\""@ + p.candle@ + "\" class=\"font-creepster\" filter=\"url(#glow-candle)\" font-family=\""@ + FONT_CREEPSTER@ + "\">"@ + esc(r.title@) + "</text>"@
        + "<text x=\"200\" y=\"102\" font-size=\"11\" font-style=\"italic\" fill=\""@ + p.dim@ + "\" class=\"font-serif\" font-family=\""@ + FONT_SERIF@ + "\">"@ + esc(r.flavor@) + "</text>"@
}

pub open spec fn fates_line(r: Reading, p: Palette) -> Seq<char> {
    if fate_parts(r.counts@, 5).len() > 0 {
        "<text x=\"200\" y=\"119\" font-size=\"11\" fill=\""@ + p.text@ + "\">"@ + esc(join(fate_parts(r.counts@, 5), " · "@)) + "</text>"@
    } else {
        Seq::empty()
    }
}

/// The lines shown once there are repos: index, `necrotic`, title,
/// flavor and the fate counts.
pub open spec fn body_text(r: Reading, p: Palette) -> Seq<char> {
    index_lines(r, p) + title_lines(r, p) + fates_line(r, p)
}

pub open spec fn stars_line(r: Reading, p: Palette) -> Seq<char> {
    if r.stars_stranded > 0 {
        "<text x=\"200\" y=\""@ + line_y(0) + "\" font-size=\"10.5\" fill=\""@ + p.candle@ + "\">"@ + dec(r.stars_stranded as nat) + " stars stranded on dead repos</text>"@
    } else {
        Seq::empty()
    }
}

pub open spec fn stars_lines(r: Reading) -> int {
    if r.stars_stranded > 0 { 1 } else { 0 }
}

pub open spec fn oldest_line(r: Reading, p: Palette) -> Seq<char> {
    match r.oldest_corpse {
        Some((n, d)) => "<text x=\"200\" y=\""@ + line_y(stars_lines(r)) + "\" font-size=\"10.5\" fill=\""@ + p.dim@ + "\">"@ + "oldest corpse: "@ + esc(short_name(n@))
            + " ("@ + dec(d as nat) + "d)"@ + "</text>"@,
        None => Seq::empty(),
    }
}

pub open spec fn life_line(r: Reading, p: Palette) -> Seq<char> {
    let k = stars_lines(r) + if r.oldest_corpse is Some { 1int } else { 0int };
    if life_parts(r).len() > 0 {
        "<text x=\"200\" y=\""@ + line_y(k) + "\" font-size=\"10.5\" fill=\""@ + (if r.days_since_any_push == Some(0u32) { p.phos@ } else { p.dim@ }) + "\">"@
            + esc(join(life_parts(r), " · "@)) + "</text>"@
    } else {
        Seq::empty()
    }
}

/// The panel for `r` in the palette `p`, ending with the heartbeat line;
/// with no repos, the subject and a note that there is nothing to bury,
/// and no heartbeat.
pub open spec fn stats_text(r: Reading, p: Palette) -> Seq<char> {
    if r.total == 0 {
        header_text(r, p) + "<text x=\"200\" y=\"65\" font-size=\"14\" fill=\""@ + p.dim@ + "\" class=\"font-creepster\">no repos — nothing to bury</text>"@
    } else {
        header_text(r, p) + body_text(r, p) + stars_line(r, p) + oldest_line(r, p) + life_line(r, p)
            + ekg_text(r.index, p)
    }
}

fn push_join_part(out: &mut String, first: bool, part: &str)
    ensures
        final(out)@ == old(out)@ + (if first { part@ } else { " · "@ + part@ }),
{
    if !first {
        push_str(out, " · ");
    }
    push_str(out, part);
}

proof fn lemma_join_push(parts: Seq<Seq<char>>, sep: Seq<char>, x: Seq<char>)
    ensures
        join(parts.push(x), sep) == if parts.len() == 0 { x } else { join(parts, sep) + sep + x },
{
    assert(parts.push(x).drop_last() =~= parts);
    if parts.len() == 0 {
        assert(parts.push(x)[0] == x);
    }
}

fn fate_line(counts: &[u32; 5]) -> (s: String)
    ensures
        s@ == join(fate_parts(counts@, 5), " · "@),
{
    let mut s = String::new();
    let mut i: usize = 0;
    while i < 5
        invariant
            i <= 5,
            s@ == join(fate_parts(counts@, i as int), " · "@),
        decreases 5 - i,
    {
        if counts[i] > 0 {
            let mut part = String::new();
            push_u64(&mut part, counts[i] as u64);
            push_str(&mut part, " ");
            let name = if i == 0 { "alive" } else if i == 1 { "cooling" } else if i == 2 { "cold" } else if i == 3 { "dead" } else { "buried" };
            push_str(&mut part, name);
            let first = s.unicode_len() == 0;
            proof {
                lemma_join_push(fate_parts(counts@, i as int), " · "@, part@);
                if !first {
                    assert(fate_parts(counts@, i as int).len() > 0) by {
                        if fate_parts(counts@, i as int).len() == 0 {
                            assert(join(fate_parts(counts@, i as int), " · "@).len() == 0);
                        }
                    }
                } else {
                    lemma_parts_nonempty(counts@, i as int);
                }
            }
            push_join_part(&mut s, first, part.as_str());
        }
        i += 1;
    }
    s
}

/// A non-empty list of non-empty parts joins to a non-empty text.
proof fn lemma_parts_nonempty(counts: Seq<u32>, k: int)
    ensures
        fate_parts(counts, k).len() > 0 ==> join(fate_parts(counts, k), " · "@).len() > 0,
    decreases k,
{
    if k > 0 {
        lemma_parts_nonempty(counts, k - 1);
        if counts[k - 1] > 0 {
            let prev = fate_parts(counts, k - 1);
            let x = dec(counts[k - 1] as nat) + " "@ + fate_name(k - 1);
            lemma_join_push(prev, " · "@, x);
            crate::text::lemma_dec_len_pos(counts[k - 1] as nat);
        }
    }
}


fn push_line_y(s: &mut String, k: u64)
    ensures
        final(s)@ == old(s)@ + line_y(k as int),
{
    if k == 0 {
        push_str(s, "133");
    } else if k == 1 {
        push_str(s, "146.5");
    } else {
        push_str(s, "160");
    }
}

fn life_text(r: &Reading) -> (s: String)
    ensures
        s@ == join(life_parts(*r), " · "@),
{
    let mut s = String::new();
    let ghost mut parts: Seq<Seq<char>> = Seq::empty();
    if r.stillborn > 0 {
        push_u64(&mut s, r.stillborn as u64);
        push_str(&mut s, " stillborn");
        proof {
            lemma_join_push(parts, " · "@, s@);
            parts = parts.push(s@);
        }
    }
    assert(parts =~= if r.stillborn > 0 { seq![dec(r.stillborn as nat) + " stillborn"@] } else { Seq::<Seq<char>>::empty() });
    match r.days_since_any_push {
        Some(d) => {
            let mut part = String::new();
            if d == 0 {
                push_str(&mut part, "signs of life today");
            } else {
                push_str(&mut part, "last sign of life: ");
                push_u64(&mut part, d as u64);
                push_str(&mut part, "d ago");
            }
            let first = r.stillborn == 0;
            proof {
                lemma_join_push(parts, " · "@, part@);
            }
            push_join_part(&mut s, first, part.as_str());
        },
        None => {},
    }
    s
}

fn push_header(s: &mut String, r: &Reading, p: &Palette)
    ensures
        final(s)@ == old(s)@ + header_text(*r, *p),
{
    push_str(s, "<text x=\"200\" y=\"33\" font-size=\"22\" letter-spacing=\"1.5\" fill=\"");
    push_str(s, p.violet);
    push_str(s, "\" class=\"font-creepster\" filter=\"url(#glow-violet)\" font-family=\"");
    push_str(s, FONT_CREEPSTER);
    push_str(s, "\">@");
    let mut at = string_of("@");
    push_str(&mut at, r.subject.as_str());
    let subj = esc_text(at.as_str());
    push_str(s, subj.as_str());
    push_str(s, "</text>");
}

fn push_index_lines(s: &mut String, r: &Reading, p: &Palette)
    ensures
        final(s)@ == old(s)@ + index_lines(*r, *p),
{
    push_str(s, "<text x=\"200\" y=\"68\" font-size=\"34\" font-weight=\"700\" fill=\"");
    push_str(s, p.accent.as_str());
    push_str(s, "\" class=\"font-mono\"");
    push_str(s, if r.index >= 80 { " filter=\"url(#glow-blood)\"" } else if r.index >= 50 { " filter=\"url(#glow-candle)\"" } else { " filter=\"url(#glow-phos)\"" });
    push_str(s, ">");
    push_u64(s, r.index as u64);
    push_str(s, "%</text>");
    push_str(s, "<text x=\"");
    push_str(s, if r.index >= 100 { "282" } else if r.index >= 10 { "270" } else { "256" });
    push_str(s, "\" y=\"62\" font-size=\"12\" letter-spacing=\"1\" fill=\"");
    push_str(s, p.dim);
    push_str(s, "\" class=\"font-mono\">necrotic</text>");
}

fn push_title_lines(s: &mut String, r: &Reading, p: &Palette)
    ensures
        final(s)@ == old(s)@ + title_lines(*r, *p),
{
    push_str(s, "<text x=\"200\" y=\"88\" font-size=\"16\" letter-spacing=\"1\" fill=\"");
    push_str(s, p.candle);
    push_str(s, "\" class=\"font-creepster\" filter=\"url(#glow-candle)\" font-family=\"");
    push_str(s, FONT_CREEPSTER);
    push_str(s, "\">");
    let title = esc_text(r.title.as_str());
    push_str(s, title.as_str());
    push_str(s, "</text>");
    push_str(s, "<text x=\"200\" y=\"102\" font-size=\"11\" font-style=\"italic\" fill=\"");
    push_str(s, p.dim);
    push_str(s, "\" class=\"font-serif\" font-family=\"");
    push_str(s, FONT_SERIF);
    push_str(s, "\">");
    let flavor = esc_text(r.flavor.as_str());
    push_str(s, flavor.as_str());
    push_str(s, "</text>");
}

fn push_fates_line(s: &mut String, r: &Reading, p: &Palette)
    ensures
        final(s)@ == old(s)@ + fates_line(*r, *p),
{
    let fates = fate_line(&r.counts);
    proof {
        lemma_parts_nonempty(r.counts@, 5);
    }
    if fates.unicode_len() > 0 {
        push_str(s, "<text x=\"200\" y=\"119\" font-size=\"11\" fill=\"");
        push_str(s, p.text);
        push_str(s, "\">");
        let f = esc_text(fates.as_str());
        push_str(s, f.as_str());
        push_str(s, "</text>");
    }
    proof {
        let e = Seq::<char>::empty();
        assert(old(s)@ + e =~= old(s)@);
    }
}

fn push_body(s: &mut String, r: &Reading, p: &Palette)
    ensures
        final(s)@ == old(s)@ + body_text(*r, *p),
{
    push_index_lines(s, r, p);
    push_title_lines(s, r, p);
    push_fates_line(s, r, p);
    proof {
        assert(final(s)@ =~= old(s)@ + body_text(*r, *p));
    }
}

fn push_stars(s: &mut String, r: &Reading, p: &Palette) -> (k: u64)
    ensures
        final(s)@ == old(s)@ + stars_line(*r, *p),
        k == stars_lines(*r),
{
    let mut k: u64 = 0;
    if r.stars_stranded > 0 {
        push_str(s, "<text x=\"200\" y=\"");
        push_line_y(s, k);
        push_str(s, "\" font-size=\"10.5\" fill=\"");
        push_str(s, p.candle);
        push_str(s, "\">");
        push_u64(s, r.stars_stranded);
        push_str(s, " stars stranded on dead repos</text>");
        k += 1;
    }
    k
}

fn push_oldest(s: &mut String, r: &Reading, p: &Palette, k: u64) -> (k2: u64)
    requires
        k == stars_lines(*r),
    ensures
        final(s)@ == old(s)@ + oldest_line(*r, *p),
        k2 == k + if r.oldest_corpse is Some { 1int } else { 0int },
{
    let mut k = k;
    match &r.oldest_corpse {
        Some((name, days)) => {
            let cs = chars_of(name.as_str());
            let shown = if cs.len() > 20 {
                let mut t = string_from_chars(cs.as_slice(), 0, 19);
                crate::text::push_char(&mut t, '…');
                t
            } else {
                string_of(name.as_str())
            };
            proof {
                if cs.len() > 20 {
                    assert(cs@.subrange(0, 19) =~= name@.take(19));
                }
            }
            push_str(s, "<text x=\"200\" y=\"");
            push_line_y(s, k);
            push_str(s, "\" font-size=\"10.5\" fill=\"");
            push_str(s, p.dim);
            push_str(s, "\">");
            push_str(s, "oldest corpse: ");
            let e = esc_text(shown.as_str());
            push_str(s, e.as_str());
            push_str(s, " (");
            push_u64(s, *days as u64);
            push_str(s, "d)");
            push_str(s, "</text>");
            k += 1;
        },
        None => {},
    }
    k
}

fn push_life(s: &mut String, r: &Reading, p: &Palette, k: u64)
    requires
        k == stars_lines(*r) + if r.oldest_corpse is Some { 1int } else { 0int },
    ensures
        final(s)@ == old(s)@ + life_line(*r, *p),
{
    let life = life_text(r);
    proof {
        reveal_strlit(" stillborn");
        reveal_strlit("signs of life today");
        reveal_strlit("last sign of life: ");
        let ps = life_parts(*r);
        assert forall|i: int| 0 <= i < ps.len() implies #[trigger] ps[i].len() > 0 by {
            if r.stillborn > 0 && i == 0 {
                assert(ps[0] == dec(r.stillborn as nat) + " stillborn"@);
            } else {
                assert(r.days_since_any_push is Some);
                let d = r.days_since_any_push->0;
                if d == 0 {
                    assert(ps[i] == "signs of life today"@);
                } else {
                    assert(ps[i] == "last sign of life: "@ + dec(d as nat) + "d ago"@);
                }
            }
        }
        lemma_join_nonempty(ps);
    }
    if life.unicode_len() > 0 {
        push_str(s, "<text x=\"200\" y=\"");
        push_line_y(s, k);
        push_str(s, "\" font-size=\"10.5\" fill=\"");
        let col = match r.days_since_any_push {
            Some(d) => if d == 0 { p.phos } else { p.dim },
            None => p.dim,
        };
        push_str(s, col);
        push_str(s, "\">");
        let e = esc_text(life.as_str());
        push_str(s, e.as_str());
        push_str(s, "</text>");
    }
    proof {
        let e = Seq::<char>::empty();
        assert(old(s)@ + e =~= old(s)@);
    }
}

/// The stats panel for `reading` in the palette `p`.
pub fn render(reading: &Reading, p: &Palette) -> (s: String)
    ensures
        s@ == stats_text(*reading, *p),
{
    let r = reading;
    let mut s = String::new();
    push_header(&mut s, r, p);
    if r.total == 0 {
        push_str(&mut s, "<text x=\"200\" y=\"65\" font-size=\"14\" fill=\"");
        push_str(&mut s, p.dim);
        push_str(&mut s, "\" class=\"font-creepster\">no repos — nothing to bury</text>");
        return s;
    }
    push_body(&mut s, r, p);
    let k = push_stars(&mut s, r, p);
    let k = push_oldest(&mut s, r, p, k);
    push_life(&mut s, r, p, k);
    let ekg = super::ekg::render(r.index, p);
    push_str(&mut s, ekg.as_str());
    proof {
        assert(s@ =~= stats_text(*r, *p));
    }
    s
}

/// A list whose parts are not all empty joins to a non-empty text.
proof fn lemma_join_nonempty(parts: Seq<Seq<char>>)
    requires
        forall|i: int| 0 <= i < parts.len() ==> #[trigger] parts[i].len() > 0,
    ensures
        parts.len() > 0 ==> join(parts, " · "@).len() > 0,
    decreases parts.len(),
{
    if parts.len() > 1 {
        lemma_join_nonempty(parts.drop_last());
    }
}

proof fn lemma_fate_parts_hold(counts: Seq<u32>, k: int, i: int)
    requires
        0 <= i < k <= counts.len(),
        counts[i] > 0,
    ensures
        fate_parts(counts, k).contains(dec(counts[i] as nat) + " "@ + fate_name(i)),
    decreases k,
{
    let part = dec(counts[i] as nat) + " "@ + fate_name(i);
    if i == k - 1 {
        assert(fate_parts(counts, k) == fate_parts(counts, k - 1).push(part));
        assert(fate_parts(counts, k)[fate_parts(counts, k - 1).len() as int] == part);
    } else {
        lemma_fate_parts_hold(counts, k - 1, i);
        let prev = fate_parts(counts, k - 1);
        let j = choose|j: int| 0 <= j < prev.len() && prev[j] == part;
        if counts[k - 1] > 0 {
            assert(fate_parts(counts, k)[j] == part);
        }
    }
}

/// The stats panel's fate line names each count by its fate's label: the
/// name given to `counts[k]` is the label of the fate at position `k`
/// (alive, cooling, cold, dead, buried), and every fate with a count
/// above zero shows up in the line as `count label`.
pub proof fn law_fate_line_names(counts: Seq<u32>)
    requires
        counts.len() == 5,
    ensures
        forall|f: Fate| #[trigger] fate_name(fate_index(f)) == fate_label(f),
        forall|f: Fate| counts[fate_index(f)] > 0 ==> #[trigger] fate_parts(counts, 5).contains(
            dec(counts[fate_index(f)] as nat) + " "@ + fate_label(f)),
{
    assert forall|f: Fate| counts[fate_index(f)] > 0 implies #[trigger] fate_parts(counts, 5).contains(
        dec(counts[fate_index(f)] as nat) + " "@ + fate_label(f)) by {
        lemma_fate_parts_hold(counts, 5, fate_index(f));
    }
}

} // verus!
