//! The little graveyard under the gauge: a headstone for each of the
//! six highest-ranked corpses (stillborn first, then the longest idle;
//! half size for the stillborn), a count of the rest, or three flowers
//! when nothing is dead. Coordinates are kept in tenths.

use vstd::prelude::*;
use super::palette::Palette;
use crate::metrics::{Corpse, Fate, Reading};
use crate::text::{dec, digit, digit_char, push_char, push_str, push_u64, string_of};

verus! {

/// `v` tenths written with one decimal: `175.0`, `32.2`.
pub open spec fn tenths(v: nat) -> Seq<char> {
    dec(v / 10) + seq!['.', digit(v % 10)]
}

pub(crate) fn push_tenths(s: &mut String, v: u64)
    ensures
        final(s)@ == old(s)@ + tenths(v as nat),
{
    push_u64(s, v / 10);
    push_char(s, '.');
    push_char(s, digit_char(v % 10));
    proof {
        assert(final(s)@ =~= old(s)@ + tenths(v as nat));
    }
}

/// What orders the dead: stillborn first, then the longest idle.
pub open spec fn outranks(a: (bool, u32), b: (bool, u32)) -> bool {
    (a.0 && !b.0) || (a.0 == b.0 && a.1 >= b.1)
}

/// `x` placed into the ranked `s` after every entry that outranks it.
pub open spec fn insert_ranked(s: Seq<(bool, u32)>, x: (bool, u32)) -> Seq<(bool, u32)>
    decreases s.len(),
{
    if s.len() == 0 {
        seq![x]
    } else if outranks(s[0], x) {
        seq![s[0]] + insert_ranked(s.drop_first(), x)
    } else {
        seq![x] + s
    }
}

/// `s` ranked, highest first; entries that rank the same keep their order.
pub open spec fn rank_all(s: Seq<(bool, u32)>) -> Seq<(bool, u32)>
    decreases s.len(),
{
    if s.len() == 0 {
        Seq::empty()
    } else {
        insert_ranked(rank_all(s.drop_last()), s.last())
    }
}

/// Stillborn flag and days idle of every corpse that is not alive, in order.
pub open spec fn dead_keys(es: Seq<Corpse>) -> Seq<(bool, u32)>
    decreases es.len(),
{
    if es.len() == 0 {
        Seq::empty()
    } else if es.last().fate == Fate::Alive {
        dead_keys(es.drop_last())
    } else {
        dead_keys(es.drop_last()).push((es.last().stillborn, es.last().days_idle))
    }
}

/// An arched stone from `x` to `x + w` whose arch starts at `y2`.
pub open spec fn arch_text(x: nat, w: nat, y2: nat, wr: Seq<char>) -> Seq<char> {
    "<path d=\"M "@ + tenths(x) + ",180.0 L "@ + tenths(x) + ","@ + tenths(y2) + " A "@
        + wr + " 0 0 1 "@ + tenths(x + w) + ","@ + tenths(y2) + " L "@
        + tenths(x + w) + ",180.0 Z\" fill=\"#28213b\" stroke=\"#3d3356\" stroke-width=\"0.8\"/>"@
}

/// The cross on a stone from `x`, `w` wide, whose arch starts at `y2`.
pub open spec fn cross_text(x: nat, w: nat, y2: nat, inset: Seq<char>) -> Seq<char> {
    "<path d=\"M "@ + tenths((x + w / 2 - 18) as nat) + ","@ + tenths(y2 + 12) + " h 3.6 M "@
        + tenths(x + w / 2) + ","@ + tenths((y2 - 6) as nat) + " v 3.6\" stroke=\""@ + inset
        + "\" stroke-width=\"0.9\"/>"@
}

/// The headstone in slot `i` (x = 28 + 22·i): an arched stone, 12 wide
/// and 11 high, or 8 by 7 when stillborn, with a cross.
pub open spec fn stone_text(i: nat, stillborn: bool, inset: Seq<char>) -> Seq<char> {
    let x = 280 + 220 * i;
    let w: nat = if stillborn { 80 } else { 120 };
    let h: nat = if stillborn { 70 } else { 110 };
    let y2: nat = (1800 - h + w / 2) as nat;
    arch_text(x, w, y2, if stillborn { "4 4"@ } else { "6 6"@ }) + cross_text(x, w, y2, inset)
}

/// The headstones of the first `n` ranked corpses.
pub open spec fn stones_text(ks: Seq<(bool, u32)>, n: nat, inset: Seq<char>) -> Seq<char>
    decreases n,
{
    if n == 0 {
        Seq::empty()
    } else {
        stones_text(ks, (n - 1) as nat, inset) + stone_text((n - 1) as nat, ks[n - 1].0, inset)
    }
}

/// Flower 0: a stem and five petals around a pale centre.
pub open spec fn flower0_text(p: Palette) -> Seq<char> {
    "<line x1=\"42.0\" y1=\"180.0\" x2=\"42.0\" y2=\"173.0\" stroke=\""@ + p.phos@ + "\" stroke-width=\"1.2\"/>"@
        + "<circle cx=\"44.4\" cy=\"170.5\" r=\"1.7\" fill=\""@ + p.candle@ + "\"/>"@
        + "<circle cx=\"42.7\" cy=\"172.8\" r=\"1.7\" fill=\""@ + p.candle@ + "\"/>"@
        + "<circle cx=\"40.1\" cy=\"171.9\" r=\"1.7\" fill=\""@ + p.candle@ + "\"/>"@
        + "<circle cx=\"40.1\" cy=\"169.1\" r=\"1.7\" fill=\""@ + p.candle@ + "\"/>"@
        + "<circle cx=\"42.7\" cy=\"168.2\" r=\"1.7\" fill=\""@ + p.candle@ + "\"/>"@
        + "<circle cx=\"42.0\" cy=\"170.5\" r=\"1.4\" fill=\""@ + p.text@ + "\"/>"@
}

fn push_flower0(s: &mut String, p: &Palette)
    ensures
        final(s)@ == old(s)@ + flower0_text(*p),
{
    push_str(s, "<line x1=\"42.0\" y1=\"180.0\" x2=\"42.0\" y2=\"173.0\" stroke=\"");
    push_str(s, p.phos);
    push_str(s, "\" stroke-width=\"1.2\"/>");
    push_str(s, "<circle cx=\"44.4\" cy=\"170.5\" r=\"1.7\" fill=\"");
    push_str(s, p.candle);
    push_str(s, "\"/>");
    push_str(s, "<circle cx=\"42.7\" cy=\"172.8\" r=\"1.7\" fill=\"");
    push_str(s, p.candle);
    push_str(s, "\"/>");
    push_str(s, "<circle cx=\"40.1\" cy=\"171.9\" r=\"1.7\" fill=\"");
    push_str(s, p.candle);
    push_str(s, "\"/>");
    push_str(s, "<circle cx=\"40.1\" cy=\"169.1\" r=\"1.7\" fill=\"");
    push_str(s, p.candle);
    push_str(s, "\"/>");
    push_str(s, "<circle cx=\"42.7\" cy=\"168.2\" r=\"1.7\" fill=\"");
    push_str(s, p.candle);
    push_str(s, "\"/>");
    push_str(s, "<circle cx=\"42.0\" cy=\"170.5\" r=\"1.4\" fill=\"");
    push_str(s, p.text);
    push_str(s, "\"/>");
    proof {
        assert(final(s)@ =~= old(s)@ + flower0_text(*p));
    }
}

/// Flower 1: a stem and five petals around a pale centre.
pub open spec fn flower1_text(p: Palette) -> Seq<char> {
    "<line x1=\"72.0\" y1=\"180.0\" x2=\"72.0\" y2=\"173.0\" stroke=\""@ + p.phos@ + "\" stroke-width=\"1.2\"/>"@
        + "<circle cx=\"74.4\" cy=\"170.5\" r=\"1.7\" fill=\""@ + p.blood@ + "\"/>"@
        + "<circle cx=\"72.7\" cy=\"172.8\" r=\"1.7\" fill=\""@ + p.blood@ + "\"/>"@
        + "<circle cx=\"70.1\" cy=\"171.9\" r=\"1.7\" fill=\""@ + p.blood@ + "\"/>"@
        + "<circle cx=\"70.1\" cy=\"169.1\" r=\"1.7\" fill=\""@ + p.blood@ + "\"/>"@
        + "<circle cx=\"72.7\" cy=\"168.2\" r=\"1.7\" fill=\""@ + p.blood@ + "\"/>"@
        + "<circle cx=\"72.0\" cy=\"170.5\" r=\"1.4\" fill=\""@ + p.text@ + "\"/>"@
}

fn push_flower1(s: &mut String, p: &Palette)
    ensures
        final(s)@ == old(s)@ + flower1_text(*p),
{
    push_str(s, "<line x1=\"72.0\" y1=\"180.0\" x2=\"72.0\" y2=\"173.0\" stroke=\"");
    push_str(s, p.phos);
    push_str(s, "\" stroke-width=\"1.2\"/>");
    push_str(s, "<circle cx=\"74.4\" cy=\"170.5\" r=\"1.7\" fill=\"");
    push_str(s, p.blood);
    push_str(s, "\"/>");
    push_str(s, "<circle cx=\"72.7\" cy=\"172.8\" r=\"1.7\" fill=\"");
    push_str(s, p.blood);
    push_str(s, "\"/>");
    push_str(s, "<circle cx=\"70.1\" cy=\"171.9\" r=\"1.7\" fill=\"");
    push_str(s, p.blood);
    push_str(s, "\"/>");
    push_str(s, "<circle cx=\"70.1\" cy=\"169.1\" r=\"1.7\" fill=\"");
    push_str(s, p.blood);
    push_str(s, "\"/>");
    push_str(s, "<circle cx=\"72.7\" cy=\"168.2\" r=\"1.7\" fill=\"");
    push_str(s, p.blood);
    push_str(s, "\"/>");
    push_str(s, "<circle cx=\"72.0\" cy=\"170.5\" r=\"1.4\" fill=\"");
    push_str(s, p.text);
    push_str(s, "\"/>");
    proof {
        assert(final(s)@ =~= old(s)@ + flower1_text(*p));
    }
}

/// Flower 2: a stem and five petals around a pale centre.
pub open spec fn flower2_text(p: Palette) -> Seq<char> {
    "<line x1=\"102.0\" y1=\"180.0\" x2=\"102.0\" y2=\"173.0\" stroke=\""@ + p.phos@ + "\" stroke-width=\"1.2\"/>"@
        + "<circle cx=\"104.4\" cy=\"170.5\" r=\"1.7\" fill=\""@ + p.candle@ + "\"/>"@
        + "<circle cx=\"102.7\" cy=\"172.8\" r=\"1.7\" fill=\""@ + p.candle@ + "\"/>"@
        + "<circle cx=\"100.1\" cy=\"171.9\" r=\"1.7\" fill=\""@ + p.candle@ + "\"/>"@
        + "<circle cx=\"100.1\" cy=\"169.1\" r=\"1.7\" fill=\""@ + p.candle@ + "\"/>"@
        + "<circle cx=\"102.7\" cy=\"168.2\" r=\"1.7\" fill=\""@ + p.candle@ + "\"/>"@
        + "<circle cx=\"102.0\" cy=\"170.5\" r=\"1.4\" fill=\""@ + p.text@ + "\"/>"@
}

fn push_flower2(s: &mut String, p: &Palette)
    ensures
        final(s)@ == old(s)@ + flower2_text(*p),
{
    push_str(s, "<line x1=\"102.0\" y1=\"180.0\" x2=\"102.0\" y2=\"173.0\" stroke=\"");
    push_str(s, p.phos);
    push_str(s, "\" stroke-width=\"1.2\"/>");
    push_str(s, "<circle cx=\"104.4\" cy=\"170.5\" r=\"1.7\" fill=\"");
    push_str(s, p.candle);
    push_str(s, "\"/>");
    push_str(s, "<circle cx=\"102.7\" cy=\"172.8\" r=\"1.7\" fill=\"");
    push_str(s, p.candle);
    push_str(s, "\"/>");
    push_str(s, "<circle cx=\"100.1\" cy=\"171.9\" r=\"1.7\" fill=\"");
    push_str(s, p.candle);
    push_str(s, "\"/>");
    push_str(s, "<circle cx=\"100.1\" cy=\"169.1\" r=\"1.7\" fill=\"");
    push_str(s, p.candle);
    push_str(s, "\"/>");
    push_str(s, "<circle cx=\"102.7\" cy=\"168.2\" r=\"1.7\" fill=\"");
    push_str(s, p.candle);
    push_str(s, "\"/>");
    push_str(s, "<circle cx=\"102.0\" cy=\"170.5\" r=\"1.4\" fill=\"");
    push_str(s, p.text);
    push_str(s, "\"/>");
    proof {
        assert(final(s)@ =~= old(s)@ + flower2_text(*p));
    }
}

/// Three flowers: candle, blood and candle petals.
pub open spec fn flowers_text(p: Palette) -> Seq<char> {
    flower0_text(p) + flower1_text(p) + flower2_text(p)
}

fn push_flowers(s: &mut String, p: &Palette)
    ensures
        final(s)@ == old(s)@ + flowers_text(*p),
{
    push_flower0(s, p);
    push_flower1(s, p);
    push_flower2(s, p);
    proof {
        assert(final(s)@ =~= old(s)@ + flowers_text(*p));
    }
}

pub open spec fn min_nat(a: nat, b: nat) -> nat {
    if a <= b { a } else { b }
}

/// The graveyard of `r` in the palette `p`.
pub open spec fn graveyard_text(r: Reading, p: Palette) -> Seq<char> {
    let ks = rank_all(dead_keys(r.entries@));
    "<g>"@ + "<line x1=\"24\" y1=\"180.0\" x2=\"166\" y2=\"180.0\" stroke=\""@ + p.border@ + "\" stroke-width=\"1\"/>"@
        + (if ks.len() == 0 {
            flowers_text(p)
        } else {
            stones_text(ks, min_nat(ks.len(), 6), p.inset@)
                + (if ks.len() > 6 { "<text x=\"154.0\" y=\"178.0\" font-size=\"9\" fill=\""@ + p.dim@ + "\" class=\"font-mono\">+"@ + dec((ks.len() - 6) as nat) + "</text>"@ } else { Seq::empty() })
        })
        + "</g>"@
}


fn dead_of(es: &Vec<Corpse>) -> (v: Vec<(bool, u32)>)
    ensures
        v@ == dead_keys(es@),
{
    let mut v: Vec<(bool, u32)> = Vec::new();
    let mut i: usize = 0;
    while i < es.len()
        invariant
            i <= es@.len(),
            v@ == dead_keys(es@.take(i as int)),
        decreases es.len() - i,
    {
        proof {
            let t = es@.take(i + 1);
            assert(t.drop_last() =~= es@.take(i as int));
            assert(t.last() == es@[i as int]);
        }
        if es[i].fate != Fate::Alive {
            v.push((es[i].stillborn, es[i].days_idle));
        }
        i += 1;
    }
    assert(es@.take(es@.len() as int) =~= es@);
    v
}

proof fn lemma_insert_ranked(s: Seq<(bool, u32)>, x: (bool, u32), p: int)
    requires
        0 <= p <= s.len(),
        forall|j: int| 0 <= j < p ==> outranks(#[trigger] s[j], x),
        p < s.len() ==> !outranks(s[p], x),
    ensures
        insert_ranked(s, x) == s.insert(p, x),
    decreases p,
{
    if p == 0 {
        if s.len() == 0 {
            assert(s.insert(0, x) =~= seq![x]);
        } else {
            assert(s.insert(0, x) =~= seq![x] + s);
        }
    } else {
        let t = s.drop_first();
        assert forall|j: int| 0 <= j < p - 1 implies outranks(#[trigger] t[j], x) by {
            assert(t[j] == s[j + 1]);
        }
        if p - 1 < t.len() {
            assert(t[p - 1] == s[p]);
        }
        lemma_insert_ranked(t, x, p - 1);
        assert(s.insert(p, x) =~= seq![s[0]] + t.insert(p - 1, x));
    }
}

/// Ranks the keys, highest first, keeping the order of equal ones.
fn rank(keys: &Vec<(bool, u32)>) -> (r: Vec<(bool, u32)>)
    ensures
        r@ == rank_all(keys@),
{
    let mut r: Vec<(bool, u32)> = Vec::new();
    let mut i: usize = 0;
    while i < keys.len()
        invariant
            i <= keys@.len(),
            r@ == rank_all(keys@.take(i as int)),
        decreases keys.len() - i,
    {
        let x = keys[i];
        let mut p: usize = 0;
        while p < r.len() && ((r[p].0 && !x.0) || (r[p].0 == x.0 && r[p].1 >= x.1))
            invariant
                p <= r@.len(),
                forall|j: int| 0 <= j < p ==> outranks(#[trigger] r@[j], x),
            decreases r.len() - p,
        {
            p += 1;
        }
        proof {
            lemma_insert_ranked(r@, x, p as int);
            let t = keys@.take(i + 1);
            assert(t.drop_last() =~= keys@.take(i as int));
            assert(t.last() == x);
        }
        r.insert(p, x);
        i += 1;
    }
    assert(keys@.take(keys@.len() as int) =~= keys@);
    r
}

fn push_arch(s: &mut String, x: u64, w: u64, y2: u64, wr: &str)
    requires
        x <= 2000,
        w <= 200,
    ensures
        final(s)@ == old(s)@ + arch_text(x as nat, w as nat, y2 as nat, wr@),
{
    push_str(s, "<path d=\"M ");
    push_tenths(s, x);
    push_str(s, ",180.0 L ");
    push_tenths(s, x);
    push_str(s, ",");
    push_tenths(s, y2);
    push_str(s, " A ");
    push_str(s, wr);
    push_str(s, " 0 0 1 ");
    push_tenths(s, x + w);
    push_str(s, ",");
    push_tenths(s, y2);
    push_str(s, " L ");
    push_tenths(s, x + w);
    push_str(s, ",180.0 Z\" fill=\"#28213b\" stroke=\"#3d3356\" stroke-width=\"0.8\"/>");
    proof {
        assert(final(s)@ =~= old(s)@ + arch_text(x as nat, w as nat, y2 as nat, wr@));
    }
}

fn push_cross(s: &mut String, x: u64, w: u64, y2: u64, inset: &str)
    requires
        280 <= x <= 2000,
        w <= 200,
        6 <= y2 <= 2000,
    ensures
        final(s)@ == old(s)@ + cross_text(x as nat, w as nat, y2 as nat, inset@),
{
    push_str(s, "<path d=\"M ");
    push_tenths(s, x + w / 2 - 18);
    push_str(s, ",");
    push_tenths(s, y2 + 12);
    push_str(s, " h 3.6 M ");
    push_tenths(s, x + w / 2);
    push_str(s, ",");
    push_tenths(s, y2 - 6);
    push_str(s, " v 3.6\" stroke=\"");
    push_str(s, inset);
    push_str(s, "\" stroke-width=\"0.9\"/>");
    proof {
        assert(final(s)@ =~= old(s)@ + cross_text(x as nat, w as nat, y2 as nat, inset@));
    }
}

fn push_stone(s: &mut String, i: u64, stillborn: bool, inset: &str)
    requires
        i < 6,
    ensures
        final(s)@ == old(s)@ + stone_text(i as nat, stillborn, inset@),
{
    let x: u64 = 280 + 220 * i;
    let w: u64 = if stillborn { 80 } else { 120 };
    let h: u64 = if stillborn { 70 } else { 110 };
    let y2: u64 = 1800 - h + w / 2;
    push_arch(s, x, w, y2, if stillborn { "4 4" } else { "6 6" });
    push_cross(s, x, w, y2, inset);
}

/// The graveyard under the gauge for `reading` in the palette `p`.
pub fn render(reading: &Reading, p: &Palette) -> (s: String)
    ensures
        s@ == graveyard_text(*reading, *p),
{
    let keys = dead_of(&reading.entries);
    let ks = rank(&keys);
    let mut s = string_of("<g>");
    push_str(&mut s, "<line x1=\"24\" y1=\"180.0\" x2=\"166\" y2=\"180.0\" stroke=\"");
    push_str(&mut s, p.border);
    push_str(&mut s, "\" stroke-width=\"1\"/>");
    let ghost start = s@;
    if ks.len() == 0 {
        push_flowers(&mut s, p);
    } else {
        let n: usize = if ks.len() < 6 { ks.len() } else { 6 };
        let mut i: usize = 0;
        while i < n
            invariant
                i <= n <= 6,
                n <= ks@.len(),
                s@ == start + stones_text(ks@, i as nat, p.inset@),
            decreases n - i,
        {
            push_stone(&mut s, i as u64, ks[i].0, p.inset);
            proof {
                assert(stones_text(ks@, (i + 1) as nat, p.inset@)
                    == stones_text(ks@, i as nat, p.inset@) + stone_text(i as nat, ks@[i as int].0, p.inset@));
            }
            i += 1;
        }
        if ks.len() > 6 {
            push_str(&mut s, "<text x=\"154.0\" y=\"178.0\" font-size=\"9\" fill=\"");
            push_str(&mut s, p.dim);
            push_str(&mut s, "\" class=\"font-mono\">+");
            push_u64(&mut s, (ks.len() - 6) as u64);
            push_str(&mut s, "</text>");
        }
    }
    push_str(&mut s, "</g>");
    proof {
        let e = Seq::<char>::empty();
        assert(e + e =~= e);
        assert(s@ =~= graveyard_text(*reading, *p));
    }
    s
}

/// Every entry of `s` outranks every entry after it.
pub open spec fn in_rank_order(s: Seq<(bool, u32)>) -> bool {
    forall|i: int, j: int| 0 <= i < j < s.len() ==> outranks(#[trigger] s[i], #[trigger] s[j])
}

proof fn lemma_insert_ranked_at(s: Seq<(bool, u32)>, x: (bool, u32)) -> (p: int)
    ensures
        0 <= p <= s.len(),
        forall|j: int| 0 <= j < p ==> outranks(#[trigger] s[j], x),
        p < s.len() ==> !outranks(s[p], x),
        insert_ranked(s, x) == s.insert(p, x),
    decreases s.len(),
{
    if s.len() == 0 {
        assert(s.insert(0, x) =~= seq![x]);
        0
    } else if outranks(s[0], x) {
        let t = s.drop_first();
        let q = lemma_insert_ranked_at(t, x);
        assert(s.insert(q + 1, x) =~= seq![s[0]] + t.insert(q, x));
        assert forall|j: int| 0 <= j < q + 1 implies outranks(#[trigger] s[j], x) by {
            if j > 0 {
                assert(s[j] == t[j - 1]);
            }
        }
        if q < t.len() {
            assert(s[q + 1] == t[q]);
        }
        q + 1
    } else {
        assert(s.insert(0, x) =~= seq![x] + s);
        0
    }
}

proof fn lemma_rank_all(s: Seq<(bool, u32)>)
    ensures
        in_rank_order(rank_all(s)),
        rank_all(s).to_multiset() == s.to_multiset(),
    decreases s.len(),
{
    broadcast use vstd::seq_lib::group_to_multiset_ensures;
    if s.len() > 0 {
        let x = s.last();
        let r = rank_all(s.drop_last());
        lemma_rank_all(s.drop_last());
        let p = lemma_insert_ranked_at(r, x);
        let n = r.insert(p, x);
        assert(s =~= s.drop_last().push(x));
        assert forall|i: int, j: int| 0 <= i < j < n.len() implies outranks(#[trigger] n[i], #[trigger] n[j]) by {
            if j < p {
                assert(n[i] == r[i] && n[j] == r[j]);
            } else if j == p {
                assert(n[i] == r[i]);
            } else if i == p {
                assert(n[j] == r[j - 1]);
                assert(!outranks(r[p], x));
                if p < j - 1 {
                    assert(outranks(r[p], r[j - 1]));
                }
            } else if i < p {
                assert(n[i] == r[i] && n[j] == r[j - 1]);
            } else {
                assert(n[i] == r[i - 1] && n[j] == r[j - 1]);
            }
        }
    }
}

/// The graveyard's order ranks every corpse ahead of those after it
/// (stillborn first, then the longest idle), and keeps every corpse: the
/// ranked keys are the given keys in another order.
pub proof fn law_graveyard_ranked(keys: Seq<(bool, u32)>)
    ensures
        in_rank_order(rank_all(keys)),
        forall|i: int, j: int| 0 <= i < j < rank_all(keys).len() ==>
            ((#[trigger] rank_all(keys)[i]).0 || !(#[trigger] rank_all(keys)[j]).0)
            && (rank_all(keys)[i].0 == rank_all(keys)[j].0 ==> rank_all(keys)[i].1 >= rank_all(keys)[j].1),
        rank_all(keys).to_multiset() == keys.to_multiset(),
{
    lemma_rank_all(keys);
}

} // verus!
