//! The command line's decisions: which names a hall file lists, the hall
//! of fame's entries, their ranking and JSON, and the line printed after
//! a card is written. Reading and writing files is the caller's part.

use vstd::prelude::*;
use crate::escape::{esc, esc_text};
use crate::metrics::{Corpse, Fate, Reading, SubjectKind, fate_index};
use crate::metrics::analyze::{count_fate, entry_for, fate_spec, law_counts_sum_to_total, owned, reading_of};
use crate::github::Repo;
use crate::time::Utc;
use crate::text::{chars_of, dec, push_char, push_str, push_u64, string_from_chars, string_of};
use crate::time::{trim, trim_str};

verus! {

/// The lines of `t`: the pieces between `\n` characters.
pub open spec fn lines_of(t: Seq<char>) -> Seq<Seq<char>>
    decreases t.len(),
{
    match crate::http::parse::find_from(t, seq!['\n'], 0) {
        Some(i) => if 0 <= i < t.len() {
            seq![t.take(i)] + lines_of(t.skip(i + 1))
        } else {
            seq![t]
        },
        None => seq![t],
    }
}

/// The characters of each string.
pub open spec fn string_views(v: Seq<String>) -> Seq<Seq<char>> {
    v.map_values(|s: String| s@)
}

/// A line names someone: not blank once trimmed, and not a `#` comment.
pub open spec fn names_line(l: Seq<char>) -> bool {
    trim(l).len() > 0 && trim(l)[0] != '#'
}

/// The trimmed naming lines of `ls`, in order.
pub open spec fn names_in(ls: Seq<Seq<char>>) -> Seq<Seq<char>>
    decreases ls.len(),
{
    if ls.len() == 0 {
        Seq::empty()
    } else if names_line(ls[0]) {
        seq![trim(ls[0])] + names_in(ls.drop_first())
    } else {
        names_in(ls.drop_first())
    }
}

fn trimmed(cs: &[char]) -> (r: String)
    ensures
        r@ == trim(cs@),
{
    let s = string_from_chars(cs, 0, cs.len());
    assert(cs@.subrange(0, cs@.len() as int) =~= cs@);
    string_of(trim_str(s.as_str()))
}

/// The names a hall file lists: one per line, trimmed; blank lines and
/// lines starting with `#` are skipped.
pub fn hall_names(text: &str) -> (r: Vec<String>)
    ensures
        string_views(r@) == names_in(lines_of(text@)),
    decreases text@.len(),
{
    let cs = chars_of(text);
    let n = cs.len();
    let nl: Vec<char> = vec!['\n'];
    assert(nl@ =~= seq!['\n']);
    let (line, rest) = match crate::http::parse::find_chars(cs.as_slice(), nl.as_slice()) {
        Some(i) => {
            proof {
                crate::http::parse::lemma_find_from_bounds(cs@, nl@, 0);
            }
            let l = crate::http::parse::sub_chars(cs.as_slice(), 0, i);
            let r = crate::http::parse::sub_chars(cs.as_slice(), i + 1, n);
            (l, Some(r))
        },
        None => {
            let l = crate::http::parse::sub_chars(cs.as_slice(), 0, n);
            assert(l@ =~= cs@);
            (l, None)
        },
    };
    let t = trimmed(line.as_slice());
    let keep = t.unicode_len() > 0 && !crate::http::parse::starts_with_chars(chars_of(t.as_str()).as_slice(), "#");
    proof {
        reveal_strlit("#");
        assert("#"@ =~= seq!['#']);
        if t@.len() > 0 {
            assert(t@.take(1) =~= seq![t@[0]]);
            if seq![t@[0]] == seq!['#'] {
                assert(seq![t@[0]][0] == seq!['#'][0]);
            }
        }
    }
    let ghost tv = t@;
    assert(keep == names_line(line@));
    let mut out: Vec<String> = Vec::new();
    if keep {
        out.push(t);
    }
    assert(string_views(out@) =~= (if keep { seq![tv] } else { Seq::<Seq<char>>::empty() }));
    let ghost ls = lines_of(text@);
    match rest {
        Some(r) => {
            let rs = string_from_chars(r.as_slice(), 0, r.len());
            assert(r@.subrange(0, r@.len() as int) =~= r@);
            let more = hall_names(rs.as_str());
            let ghost o = out@;
            let mut more = more;
            out.append(&mut more);
            proof {
                assert(ls.drop_first() =~= lines_of(r@));
                assert(ls[0] == line@);
                assert(string_views(out@) =~= string_views(o) + names_in(lines_of(r@)));
            }
        },
        None => {
            proof {
                assert(ls =~= seq![line@]);
                assert(ls.drop_first() =~= Seq::<Seq<char>>::empty());
            }
        },
    }
    proof {
        assert(names_in(ls) =~= (if names_line(ls[0]) { seq![trim(ls[0])] } else { Seq::empty() }) + names_in(ls.drop_first()));
        assert(string_views(out@) =~= names_in(ls));
    }
    out
}

/// One line of the hall of fame.
#[derive(Debug)]
pub struct HallEntry {
    pub name: String,
    pub index: u8,
    pub title: String,
    pub corpses: u32,
    pub total: u32,
    pub stars_stranded: u64,
}

/// How many of `es` are not alive.
pub open spec fn corpse_count(es: Seq<Corpse>) -> nat
    decreases es.len(),
{
    if es.len() == 0 {
        0
    } else {
        corpse_count(es.drop_last()) + if es.last().fate != Fate::Alive { 1nat } else { 0nat }
    }
}

/// The hall entry of `name` for its reading `r`.
pub fn hall_entry(name: &str, r: &Reading) -> (h: HallEntry)
    requires
        r.entries@.len() <= u32::MAX,
    ensures
        h.name@ == name@,
        h.index == r.index,
        h.title@ == r.title@,
        h.corpses == corpse_count(r.entries@),
        h.total == r.total,
        h.stars_stranded == r.stars_stranded,
{
    let mut corpses: u32 = 0;
    let mut i: usize = 0;
    while i < r.entries.len()
        invariant
            i <= r.entries@.len() <= u32::MAX,
            corpses == corpse_count(r.entries@.take(i as int)),
            corpses <= i,
        decreases r.entries.len() - i,
    {
        proof {
            let t = r.entries@.take(i + 1);
            assert(t.drop_last() =~= r.entries@.take(i as int));
        }
        if r.entries[i].fate != Fate::Alive {
            corpses += 1;
        }
        i += 1;
    }
    assert(r.entries@.take(r.entries@.len() as int) =~= r.entries@);
    HallEntry {
        name: string_of(name),
        index: r.index,
        title: string_of(r.title.as_str()),
        corpses,
        total: r.total,
        stars_stranded: r.stars_stranded,
    }
}

/// `a` goes before `b` in the hall: a higher index, or the same index
/// and at least as many corpses.
pub open spec fn ahead(a: HallEntry, b: HallEntry) -> bool {
    a.index > b.index || (a.index == b.index && a.corpses >= b.corpses)
}

/// `x` placed into the ranked `s` after every entry ahead of it.
pub open spec fn insert_hall(s: Seq<HallEntry>, x: HallEntry) -> Seq<HallEntry>
    decreases s.len(),
{
    if s.len() == 0 {
        seq![x]
    } else if ahead(s[0], x) {
        seq![s[0]] + insert_hall(s.drop_first(), x)
    } else {
        seq![x] + s
    }
}

/// The hall ranked: highest index first, then most corpses; entries that
/// tie keep their order.
pub open spec fn rank_hall_spec(s: Seq<HallEntry>) -> Seq<HallEntry>
    decreases s.len(),
{
    if s.len() == 0 {
        Seq::empty()
    } else {
        insert_hall(rank_hall_spec(s.drop_last()), s.last())
    }
}

proof fn lemma_insert_hall(s: Seq<HallEntry>, x: HallEntry, p: int)
    requires
        0 <= p <= s.len(),
        forall|j: int| 0 <= j < p ==> ahead(#[trigger] s[j], x),
        p < s.len() ==> !ahead(s[p], x),
    ensures
        insert_hall(s, x) == s.insert(p, x),
    decreases p,
{
    if p == 0 {
        if s.len() == 0 {
            assert(s.insert(0, x) =~= seq![x]);
        } else {
            assert(s.insert(0, x) =~= seq![x] + s);
        }
    } else {
        let t = s.drop_first();
        assert forall|j: int| 0 <= j < p - 1 implies ahead(#[trigger] t[j], x) by {
            assert(t[j] == s[j + 1]);
        }
        if p - 1 < t.len() {
            assert(t[p - 1] == s[p]);
        }
        lemma_insert_hall(t, x, p - 1);
        assert(s.insert(p, x) =~= seq![s[0]] + t.insert(p - 1, x));
    }
}

/// Ranks the hall: highest index first, then most corpses, ties in the
/// order given.
pub fn rank_hall(entries: Vec<HallEntry>) -> (r: Vec<HallEntry>)
    ensures
        r@ == rank_hall_spec(entries@),
{
    let ghost all = entries@;
    let total = entries.len();
    let mut rest = entries;
    let mut done: Vec<HallEntry> = Vec::new();
    let mut taken: usize = 0;
    while rest.len() > 0
        invariant
            taken + rest@.len() == all.len(),
            all.len() == total,
            rest@ == all.subrange(taken as int, all.len() as int),
            done@ == rank_hall_spec(all.take(taken as int)),
        decreases rest.len(),
    {
        let x = rest.remove(0);
        assert(x == all[taken as int]);
        let mut p: usize = 0;
        while p < done.len() && (done[p].index > x.index || (done[p].index == x.index && done[p].corpses >= x.corpses))
            invariant
                p <= done@.len(),
                forall|j: int| 0 <= j < p ==> ahead(#[trigger] done@[j], x),
            decreases done.len() - p,
        {
            p += 1;
        }
        proof {
            lemma_insert_hall(done@, x, p as int);
            let t = all.take(taken + 1);
            assert(t.drop_last() =~= all.take(taken as int));
            assert(t.last() == x);
        }
        done.insert(p, x);
        taken += 1;
        assert(rest@ =~= all.subrange(taken as int, all.len() as int));
    }
    assert(all.take(all.len() as int) =~= all);
    done
}

/// One hall entry as JSON; the name and title are HTML-escaped.
pub open spec fn hall_item(h: HallEntry) -> Seq<char> {
    "{\"name\":\""@ + esc(h.name@) + "\",\"index\":"@ + dec(h.index as nat) + ",\"title\":\""@ + esc(h.title@)
        + "\",\"corpses\":"@ + dec(h.corpses as nat) + ",\"total\":"@ + dec(h.total as nat)
        + ",\"starsStranded\":"@ + dec(h.stars_stranded as nat) + "}"@
}

pub open spec fn hall_items(hs: Seq<HallEntry>) -> Seq<char>
    decreases hs.len(),
{
    if hs.len() == 0 {
        Seq::empty()
    } else if hs.len() == 1 {
        hall_item(hs[0])
    } else {
        hall_items(hs.drop_last()) + ","@ + hall_item(hs.last())
    }
}

fn push_hall_item(out: &mut String, h: &HallEntry)
    ensures
        final(out)@ == old(out)@ + hall_item(*h),
{
    push_str(out, "{\"name\":\"");
    let n = esc_text(h.name.as_str());
    push_str(out, n.as_str());
    push_str(out, "\",\"index\":");
    push_u64(out, h.index as u64);
    push_str(out, ",\"title\":\"");
    let t = esc_text(h.title.as_str());
    push_str(out, t.as_str());
    push_str(out, "\",\"corpses\":");
    push_u64(out, h.corpses as u64);
    push_str(out, ",\"total\":");
    push_u64(out, h.total as u64);
    push_str(out, ",\"starsStranded\":");
    push_u64(out, h.stars_stranded);
    push_str(out, "}");
    proof {
        assert(final(out)@ =~= old(out)@ + hall_item(*h));
    }
}

/// The hall as a JSON array, one object per entry, then a newline.
pub fn hall_json(hs: &Vec<HallEntry>) -> (s: String)
    ensures
        s@ == "["@ + hall_items(hs@) + "]\n"@,
{
    let mut s = string_of("[");
    let ghost start = s@;
    let mut i: usize = 0;
    while i < hs.len()
        invariant
            i <= hs@.len(),
            s@ == start + hall_items(hs@.take(i as int)),
        decreases hs.len() - i,
    {
        if i > 0 {
            push_char(&mut s, ',');
        }
        proof {
            reveal_strlit(",");
        }
        push_hall_item(&mut s, &hs[i]);
        proof {
            let t = hs@.take(i + 1);
            assert(t.drop_last() =~= hs@.take(i as int));
            assert(t.last() == hs@[i as int]);
            if i == 0 {
                assert(t =~= seq![hs@[0]]);
            }
        }
        i += 1;
    }
    assert(hs@.take(hs@.len() as int) =~= hs@);
    push_str(&mut s, "]\n");
    s
}

/// The line printed after a card is written: the escaped subject, the
/// index, the escaped title and where the card went.
pub fn card_summary(r: &Reading, out: &str) -> (s: String)
    ensures
        s@ == esc(r.subject@) + ": "@ + dec(r.index as nat) + "% necrotic ("@ + esc(r.title@) + ") — wrote "@ + out@,
{
    let subj = esc_text(r.subject.as_str());
    let mut s = string_of(subj.as_str());
    push_str(&mut s, ": ");
    push_u64(&mut s, r.index as u64);
    push_str(&mut s, "% necrotic (");
    let t = esc_text(r.title.as_str());
    push_str(&mut s, t.as_str());
    push_str(&mut s, ") — wrote ");
    push_str(&mut s, out);
    s
}

/// Every entry of `s` goes before every entry after it.
pub open spec fn in_hall_order(s: Seq<HallEntry>) -> bool {
    forall|i: int, j: int| 0 <= i < j < s.len() ==> ahead(#[trigger] s[i], #[trigger] s[j])
}

proof fn lemma_insert_hall_at(s: Seq<HallEntry>, x: HallEntry) -> (p: int)
    ensures
        0 <= p <= s.len(),
        forall|j: int| 0 <= j < p ==> ahead(#[trigger] s[j], x),
        p < s.len() ==> !ahead(s[p], x),
        insert_hall(s, x) == s.insert(p, x),
    decreases s.len(),
{
    if s.len() == 0 {
        assert(s.insert(0, x) =~= seq![x]);
        0
    } else if ahead(s[0], x) {
        let t = s.drop_first();
        let q = lemma_insert_hall_at(t, x);
        assert(s.insert(q + 1, x) =~= seq![s[0]] + t.insert(q, x));
        assert forall|j: int| 0 <= j < q + 1 implies ahead(#[trigger] s[j], x) by {
            if j > 0 {
                assert(s[j] == t[j - 1]);
            }
        }
        if q < t.len() {
            assert(s[q + 1] == t[q]);
        }
        q + 1
    } else {
        assert(s.insert(0, x) =~= seq![x] + s);
        0
    }
}

proof fn lemma_rank_hall(s: Seq<HallEntry>)
    ensures
        in_hall_order(rank_hall_spec(s)),
        rank_hall_spec(s).to_multiset() == s.to_multiset(),
    decreases s.len(),
{
    broadcast use vstd::seq_lib::group_to_multiset_ensures;
    if s.len() > 0 {
        let x = s.last();
        let r = rank_hall_spec(s.drop_last());
        lemma_rank_hall(s.drop_last());
        let p = lemma_insert_hall_at(r, x);
        let n = r.insert(p, x);
        assert(s =~= s.drop_last().push(x));
        assert forall|i: int, j: int| 0 <= i < j < n.len() implies ahead(#[trigger] n[i], #[trigger] n[j]) by {
            if j < p {
                assert(n[i] == r[i] && n[j] == r[j]);
            } else if j == p {
                assert(n[i] == r[i]);
            } else if i == p {
                assert(n[j] == r[j - 1]);
                assert(!ahead(r[p], x));
                if p < j - 1 {
                    assert(ahead(r[p], r[j - 1]));
                }
            } else if i < p {
                assert(n[i] == r[i] && n[j] == r[j - 1]);
            } else {
                assert(n[i] == r[i - 1] && n[j] == r[j - 1]);
            }
        }
    }
}

/// The hall of fame is ranked: every entry has a higher necrosis index
/// than those after it, or the same index and at least as many corpses;
/// and no entry is lost or added.
pub proof fn law_hall_ranked(entries: Seq<HallEntry>)
    ensures
        in_hall_order(rank_hall_spec(entries)),
        forall|i: int, j: int| 0 <= i < j < rank_hall_spec(entries).len() ==>
            (#[trigger] rank_hall_spec(entries)[i]).index >= (#[trigger] rank_hall_spec(entries)[j]).index
            && (rank_hall_spec(entries)[i].index == rank_hall_spec(entries)[j].index
                ==> rank_hall_spec(entries)[i].corpses >= rank_hall_spec(entries)[j].corpses),
        rank_hall_spec(entries).to_multiset() == entries.to_multiset(),
{
    lemma_rank_hall(entries);
}

/// The entries of `s` with necrosis index `index` and `corpses` corpses,
/// in order.
pub open spec fn tied(s: Seq<HallEntry>, index: u8, corpses: u32) -> Seq<HallEntry>
    decreases s.len(),
{
    if s.len() == 0 {
        Seq::empty()
    } else if s.last().index == index && s.last().corpses == corpses {
        tied(s.drop_last(), index, corpses).push(s.last())
    } else {
        tied(s.drop_last(), index, corpses)
    }
}

proof fn lemma_tied_concat(a: Seq<HallEntry>, b: Seq<HallEntry>, index: u8, corpses: u32)
    ensures
        tied(a + b, index, corpses) == tied(a, index, corpses) + tied(b, index, corpses),
    decreases b.len(),
{
    if b.len() == 0 {
        assert(a + b =~= a);
        assert(tied(a, index, corpses) + tied(b, index, corpses) =~= tied(a, index, corpses));
    } else {
        lemma_tied_concat(a, b.drop_last(), index, corpses);
        assert((a + b).drop_last() =~= a + b.drop_last());
        assert((a + b).last() == b.last());
        if b.last().index == index && b.last().corpses == corpses {
            assert(tied(a, index, corpses) + tied(b.drop_last(), index, corpses).push(b.last())
                =~= (tied(a, index, corpses) + tied(b.drop_last(), index, corpses)).push(b.last()));
        }
    }
}

proof fn lemma_tied_none(b: Seq<HallEntry>, index: u8, corpses: u32)
    requires
        forall|j: int| 0 <= j < b.len() ==> !((#[trigger] b[j]).index == index && b[j].corpses == corpses),
    ensures
        tied(b, index, corpses) == Seq::<HallEntry>::empty(),
    decreases b.len(),
{
    if b.len() > 0 {
        assert(b.last() == b[b.len() - 1]);
        assert forall|j: int| 0 <= j < b.drop_last().len() implies !((#[trigger] b.drop_last()[j]).index == index && b.drop_last()[j].corpses == corpses) by {
            assert(b.drop_last()[j] == b[j]);
        }
        lemma_tied_none(b.drop_last(), index, corpses);
    }
}

proof fn lemma_rank_hall_keeps_ties(s: Seq<HallEntry>, index: u8, corpses: u32)
    ensures
        tied(rank_hall_spec(s), index, corpses) == tied(s, index, corpses),
    decreases s.len(),
{
    if s.len() > 0 {
        let x = s.last();
        let r = rank_hall_spec(s.drop_last());
        lemma_rank_hall_keeps_ties(s.drop_last(), index, corpses);
        lemma_rank_hall(s.drop_last());
        let p = lemma_insert_hall_at(r, x);
        let front = r.take(p);
        let back = r.skip(p);
        assert(r =~= front + back);
        assert(r.insert(p, x) =~= front + seq![x] + back);
        lemma_tied_concat(front, back, index, corpses);
        lemma_tied_concat(front + seq![x], back, index, corpses);
        lemma_tied_concat(front, seq![x], index, corpses);
        assert(seq![x].drop_last() =~= Seq::<HallEntry>::empty());
        assert(seq![x].last() == x);
        assert(tied(Seq::<HallEntry>::empty(), index, corpses) =~= Seq::<HallEntry>::empty());
        if x.index == index && x.corpses == corpses {
            assert forall|j: int| 0 <= j < back.len() implies !((#[trigger] back[j]).index == index && back[j].corpses == corpses) by {
                assert(back[j] == r[p + j]);
                if back[j].index == index && back[j].corpses == corpses {
                    assert(ahead(r[p + j], x));
                    if j > 0 {
                        assert(ahead(r[p], r[p + j]));
                    }
                    assert(ahead(r[p], x));
                }
            }
            lemma_tied_none(back, index, corpses);
            assert(tied(seq![x], index, corpses) =~= seq![x]);
            assert(tied(r.insert(p, x), index, corpses) =~= tied(r, index, corpses).push(x));
        } else {
            assert(tied(seq![x], index, corpses) =~= Seq::<HallEntry>::empty());
            assert(tied(r.insert(p, x), index, corpses) =~= tied(r, index, corpses));
        }
    }
}

/// Ranking keeps ties in the order given: the entries that share a
/// necrosis index and a corpse count come out in the order they went in.
pub proof fn law_hall_ties_keep_order(entries: Seq<HallEntry>, index: u8, corpses: u32)
    ensures
        tied(rank_hall_spec(entries), index, corpses) == tied(entries, index, corpses),
{
    lemma_rank_hall_keeps_ties(entries, index, corpses);
}

proof fn lemma_corpses_not_alive(es: Seq<Corpse>, os: Seq<Repo>, now: Utc)
    requires
        es.len() == os.len(),
        forall|i: int| 0 <= i < os.len() ==> entry_for(#[trigger] es[i], os[i], now),
    ensures
        corpse_count(es) + count_fate(os, now, 0) == es.len(),
    decreases es.len(),
{
    if es.len() > 0 {
        let n = es.len() - 1;
        assert forall|i: int| 0 <= i < os.drop_last().len() implies entry_for(#[trigger] es.drop_last()[i], os.drop_last()[i], now) by {
            assert(es.drop_last()[i] == es[i] && os.drop_last()[i] == os[i]);
        }
        lemma_corpses_not_alive(es.drop_last(), os.drop_last(), now);
        assert(entry_for(es[n], os[n], now));
        assert(es.last() == es[n] && os.last() == os[n]);
        assert((fate_index(fate_spec(os.last(), now)) == 0) == (fate_spec(os.last(), now) == Fate::Alive));
    }
}

/// A hall entry's corpse count is the number of the reading's repos that
/// are not alive: the cooling, cold, dead and buried counts together, or
/// the total less the living.
pub proof fn law_hall_corpses(r: Reading, subject: Seq<char>, kind: SubjectKind, rs: Seq<Repo>, now: Utc)
    requires
        reading_of(r, subject, kind, rs, now),
    ensures
        corpse_count(r.entries@) == r.total - r.counts@[0],
        corpse_count(r.entries@) == r.counts@[1] + r.counts@[2] + r.counts@[3] + r.counts@[4],
{
    let os = owned(rs);
    assert forall|i: int| 0 <= i < os.len() implies entry_for(#[trigger] r.entries@[i], os[i], now) by {}
    lemma_corpses_not_alive(r.entries@, os, now);
    assert(r.counts@[0] == count_fate(os, now, 0));
    law_counts_sum_to_total(r, subject, kind, rs, now);
}

} // verus!
