//! `analyze`: walks the repos, assigns fates, computes the necrosis index
//! and finds the oldest corpse.

use vstd::prelude::*;
use crate::github::Repo;
use crate::metrics::{Corpse, Fate, Reading, SubjectKind, fate_index, weight_centis};
use crate::metrics::summary::{last_activity, stillborn, stillborn_spec};
use crate::metrics::titles::{flavor_for_kind, flavor_kind_spec, title_for_kind, title_kind_spec};
use crate::text::string_of;
use crate::time::Utc;

verus! {

/// Whole days in `x` seconds, rounded toward zero.
pub open spec fn trunc_days(x: int) -> int {
    if x >= 0 { x / 86400 } else { -((-x) / 86400) }
}

/// Days from a repo's last activity to `now`, rounded toward zero.
pub open spec fn age_days(r: Repo, now: Utc) -> int {
    trunc_days(now.0 - last_activity(r))
}

/// Archived repos are buried; repos created and never pushed are dead;
/// otherwise the fate follows the days since the last push: under 30
/// alive, under 180 cooling, under 730 cold, else dead.
pub open spec fn fate_spec(r: Repo, now: Utc) -> Fate {
    if r.archived {
        Fate::Buried
    } else if r.pushed_at is None {
        Fate::Dead
    } else {
        let d = age_days(r, now);
        if d < 30 {
            Fate::Alive
        } else if d < 180 {
            Fate::Cooling
        } else if d < 730 {
            Fate::Cold
        } else {
            Fate::Dead
        }
    }
}

/// Days idle as reported: negative ages count as 0; the count is kept
/// as a `u32`.
pub open spec fn clamp_days(d: int) -> u32 {
    (if d < 0 { 0 } else { d }) as u32
}

/// The repos that are not forks, in order.
pub open spec fn owned(rs: Seq<Repo>) -> Seq<Repo>
    decreases rs.len(),
{
    if rs.len() == 0 {
        Seq::empty()
    } else if rs.last().fork {
        owned(rs.drop_last())
    } else {
        owned(rs.drop_last()).push(rs.last())
    }
}

/// How many of `os` have the fate at position `k`.
pub open spec fn count_fate(os: Seq<Repo>, now: Utc, k: int) -> nat
    decreases os.len(),
{
    if os.len() == 0 {
        0
    } else {
        count_fate(os.drop_last(), now, k) + if fate_index(fate_spec(os.last(), now)) == k { 1nat } else { 0nat }
    }
}

/// Stars on the repos of `os` that are not alive.
pub open spec fn stranded(os: Seq<Repo>, now: Utc) -> nat
    decreases os.len(),
{
    if os.len() == 0 {
        0
    } else {
        stranded(os.drop_last(), now) + if fate_spec(os.last(), now) != Fate::Alive { os.last().stargazers_count as nat } else { 0nat }
    }
}

/// Repos of `os` that are not alive and were born dead.
pub open spec fn stillborn_dead(os: Seq<Repo>, now: Utc) -> nat
    decreases os.len(),
{
    if os.len() == 0 {
        0
    } else {
        stillborn_dead(os.drop_last(), now) + if fate_spec(os.last(), now) != Fate::Alive && stillborn_spec(os.last()) { 1nat } else { 0nat }
    }
}

/// Sum of the fate weights of `os`, in hundredths.
pub open spec fn weight_total(os: Seq<Repo>, now: Utc) -> nat
    decreases os.len(),
{
    if os.len() == 0 {
        0
    } else {
        weight_total(os.drop_last(), now) + weight_centis(fate_spec(os.last(), now))
    }
}

/// The latest last-activity time among `os`.
pub open spec fn latest(os: Seq<Repo>) -> Option<int>
    decreases os.len(),
{
    if os.len() == 0 {
        None
    } else {
        match latest(os.drop_last()) {
            Some(p) => Some(if last_activity(os.last()) > p { last_activity(os.last()) } else { p }),
            None => Some(last_activity(os.last())),
        }
    }
}

/// The necrosis index: the average weight of `os` in percent, rounded
/// half up; 0 without repos. The weights are exact hundredths (0, 33,
/// 66, 100) and the average is taken exactly.
pub open spec fn necro_index(os: Seq<Repo>, now: Utc) -> int {
    if os.len() == 0 {
        0
    } else {
        ((2 * weight_total(os, now) + os.len()) / (2 * os.len())) as int
    }
}

/// The exact average weight of `os` lies halfway between two whole
/// percentages.
pub open spec fn halfway(os: Seq<Repo>, now: Utc) -> bool {
    os.len() > 0 && (2 * weight_total(os, now)) % (2 * os.len()) == os.len()
}

/// `idx` is a necrosis index of `os`: the exact average rounded to the
/// nearest whole percentage, except that an average lying exactly halfway
/// may go to either neighbour (which one is settled by the floating-point
/// sum of the weights 0.33 and 0.66, done outside this library; see
/// `with_index`).
pub open spec fn index_rounds(idx: int, os: Seq<Repo>, now: Utc) -> bool {
    if halfway(os, now) {
        idx == necro_index(os, now) || idx + 1 == necro_index(os, now)
    } else {
        idx == necro_index(os, now)
    }
}

/// The entry for a repo: its name, url, creation, last activity, days
/// idle, stars, fate and stillborn flag.
pub open spec fn entry_for(c: Corpse, r: Repo, now: Utc) -> bool {
    &&& c.name@ == r.name@
    &&& c.url@ == r.html_url@
    &&& c.created_at == r.created_at
    &&& c.last_activity.0 == last_activity(r)
    &&& c.days_idle == clamp_days(age_days(r, now))
    &&& c.stars == r.stargazers_count
    &&& c.fate == fate_spec(r, now)
    &&& c.stillborn == stillborn_spec(r)
}

/// Position of the oldest corpse: among entries that are not alive, the
/// last one with the most days idle.
pub open spec fn oldest(es: Seq<Corpse>) -> Option<int>
    decreases es.len(),
{
    if es.len() == 0 {
        None
    } else {
        let prev = oldest(es.drop_last());
        if es.last().fate != Fate::Alive && (prev is None || es.last().days_idle >= es[prev->0].days_idle) {
            Some(es.len() - 1)
        } else {
            prev
        }
    }
}

/// Inputs on which `analyze` computes without overflow: at most `u32::MAX`
/// repos, time differences that fit in an `i64`, stranded stars that fit
/// in a `u64`.
pub open spec fn analyzable(rs: Seq<Repo>, now: Utc) -> bool {
    &&& rs.len() <= u32::MAX
    &&& forall|i: int| 0 <= i < rs.len() && !(#[trigger] rs[i]).fork ==> {
        &&& i64::MIN <= now.0 - last_activity(rs[i]) <= i64::MAX
        &&& i64::MIN <= last_activity(rs[i]) - rs[i].created_at.0 <= i64::MAX
    }
    &&& stranded(owned(rs), now) <= u64::MAX
}

proof fn lemma_owned_step(rs: Seq<Repo>, i: int)
    requires
        0 <= i < rs.len(),
    ensures
        owned(rs.take(i + 1)) == if rs[i].fork { owned(rs.take(i)) } else { owned(rs.take(i)).push(rs[i]) },
        owned(rs.take(i + 1)).len() <= i + 1,
        owned(rs.take(i)).len() <= i,
{
    assert(rs.take(i + 1).drop_last() =~= rs.take(i));
    assert(rs.take(i + 1).last() == rs[i]);
    lemma_owned_len(rs.take(i + 1));
    lemma_owned_len(rs.take(i));
}

proof fn lemma_owned_len(rs: Seq<Repo>)
    ensures
        owned(rs).len() <= rs.len(),
    decreases rs.len(),
{
    if rs.len() > 0 {
        lemma_owned_len(rs.drop_last());
    }
}

proof fn lemma_owned_members(rs: Seq<Repo>)
    ensures
        forall|j: int| 0 <= j < owned(rs).len() ==> exists|i: int| 0 <= i < rs.len() && !rs[i].fork && #[trigger] owned(rs)[j] == rs[i],
    decreases rs.len(),
{
    if rs.len() > 0 {
        lemma_owned_members(rs.drop_last());
        let o = owned(rs);
        assert forall|j: int| 0 <= j < o.len() implies exists|i: int| 0 <= i < rs.len() && !rs[i].fork && #[trigger] o[j] == rs[i] by {
            if !rs.last().fork && j == o.len() - 1 {
                assert(o[j] == rs[rs.len() - 1]);
            } else {
                let k = choose|i: int| 0 <= i < rs.drop_last().len() && !rs.drop_last()[i].fork && owned(rs.drop_last())[j] == rs.drop_last()[i];
                assert(o[j] == owned(rs.drop_last())[j]);
                assert(rs.drop_last()[k] == rs[k]);
            }
        }
    }
}

proof fn lemma_stranded_prefix(rs: Seq<Repo>, now: Utc, i: int)
    requires
        0 <= i <= rs.len(),
    ensures
        stranded(owned(rs.take(i)), now) <= stranded(owned(rs), now),
    decreases rs.len() - i,
{
    if i < rs.len() {
        lemma_stranded_prefix(rs, now, i + 1);
        lemma_owned_step(rs, i);
        if !rs[i].fork {
            let os = owned(rs.take(i));
            assert(os.push(rs[i]).drop_last() =~= os);
            assert(os.push(rs[i]).last() == rs[i]);
        }
    } else {
        assert(rs.take(i) =~= rs);
    }
}

proof fn lemma_counts_bounded(os: Seq<Repo>, now: Utc, k: int)
    ensures
        count_fate(os, now, k) <= os.len(),
        stillborn_dead(os, now) <= os.len(),
        weight_total(os, now) <= 100 * os.len(),
    decreases os.len(),
{
    if os.len() > 0 {
        lemma_counts_bounded(os.drop_last(), now, k);
    }
}

/// The fate of a repo at time `now`.
pub fn fate_of(repo: &Repo, now: Utc) -> (f: Fate)
    requires
        i64::MIN <= now.0 - last_activity(*repo) <= i64::MAX,
    ensures
        f == fate_spec(*repo, now),
{
    if repo.archived {
        return Fate::Buried;
    }
    let last = match repo.pushed_at {
        Some(p) => p,
        None => repo.created_at,
    };
    if repo.pushed_at.is_none() {
        return Fate::Dead;
    }
    let d = now.since(last).num_days();
    if d < 30 {
        Fate::Alive
    } else if d < 180 {
        Fate::Cooling
    } else if d < 730 {
        Fate::Cold
    } else {
        Fate::Dead
    }
}

/// Stars on all the repos of `os`.
pub open spec fn all_stars(os: Seq<Repo>) -> nat
    decreases os.len(),
{
    if os.len() == 0 {
        0
    } else {
        all_stars(os.drop_last()) + os.last().stargazers_count as nat
    }
}

proof fn lemma_stranded_le_all(os: Seq<Repo>, now: Utc)
    ensures
        stranded(os, now) <= all_stars(os),
    decreases os.len(),
{
    if os.len() > 0 {
        lemma_stranded_le_all(os.drop_last(), now);
    }
}

/// Repos `analyze` can read at any clock time from 1970 on: at most
/// `u32::MAX` of them, creation and push times from 1970 on for those that
/// are not forks, and their stars summing to at most `u64::MAX`.
pub open spec fn dated_since_epoch(rs: Seq<Repo>) -> bool {
    &&& rs.len() <= u32::MAX
    &&& forall|i: int| 0 <= i < rs.len() && !(#[trigger] rs[i]).fork ==> {
        &&& rs[i].created_at.0 >= 0
        &&& (rs[i].pushed_at matches Some(p) ==> p.0 >= 0)
    }
    &&& all_stars(owned(rs)) <= u64::MAX
}

/// A reading of `repos` for `subject` at the current time.
pub fn analyze(subject: &str, kind: SubjectKind, repos: &[Repo]) -> (r: Reading)
    requires
        dated_since_epoch(repos@),
    ensures
        exists|now: Utc| now.0 >= 0 && reading_of(r, subject@, kind, repos@, now),
{
    let now = Utc::now();
    proof {
        lemma_stranded_le_all(owned(repos@), now);
        assert forall|i: int| 0 <= i < repos@.len() && !(#[trigger] repos@[i]).fork implies {
            &&& i64::MIN <= now.0 - last_activity(repos@[i]) <= i64::MAX
            &&& i64::MIN <= last_activity(repos@[i]) - repos@[i].created_at.0 <= i64::MAX
        } by {}
    }
    analyze_at(subject, kind, repos, now)
}

/// `r` is the reading of `rs` for `subject` of kind `kind` at `now`.
pub open spec fn reading_of(r: Reading, subject: Seq<char>, kind: SubjectKind, rs: Seq<Repo>, now: Utc) -> bool {
            let os = owned(rs);
            &&& r.subject@ == subject
            &&& r.kind == kind
            &&& r.total == os.len()
            &&& r.entries@.len() == os.len()
            &&& forall|i: int| 0 <= i < os.len() ==> entry_for(#[trigger] r.entries@[i], os[i], now)
            &&& forall|k: int| 0 <= k < 5 ==> #[trigger] r.counts@[k] == count_fate(os, now, k)
            &&& r.stars_stranded == stranded(os, now)
            &&& r.stillborn == stillborn_dead(os, now)
            &&& index_rounds(r.index as int, os, now)
            &&& r.index <= 100
            &&& r.title@ == title_kind_spec(r.index, r.total, kind)
            &&& r.flavor@ == flavor_kind_spec(r.index, r.total, kind)
            &&& r.low_sample == (os.len() < 3)
            &&& match oldest(r.entries@) {
                Some(j) => r.oldest_corpse matches Some((n, d)) && n@ == r.entries@[j].name@ && d == r.entries@[j].days_idle,
                None => r.oldest_corpse is None,
            }
            &&& match latest(os) {
                Some(p) => r.days_since_any_push == Some(clamp_days(trunc_days(now.0 - p))),
                None => r.days_since_any_push is None,
            }
}

/// A reading of `repos` for `subject` as of `now`.
pub fn analyze_at(subject: &str, kind: SubjectKind, repos: &[Repo], now: Utc) -> (r: Reading)
    requires
        analyzable(repos@, now),
    ensures
        reading_of(r, subject@, kind, repos@, now),
{
    let ghost rs = repos@;
    let mut counts: [u32; 5] = [0u32; 5];
    let mut entries: Vec<Corpse> = Vec::new();
    let mut weight_sum: u64 = 0;
    let mut stars_stranded: u64 = 0;
    let mut stillborn_count: u32 = 0;
    let mut last_push: Option<Utc> = None;
    let mut total: u32 = 0;
    let mut i: usize = 0;
    proof {
        assert(rs.take(0) =~= Seq::<Repo>::empty());
        lemma_owned_len(rs);
    }
    while i < repos.len()
        invariant
            rs == repos@,
            analyzable(rs, now),
            i <= rs.len(),
            ({
                let os = owned(rs.take(i as int));
                &&& total == os.len()
                &&& entries@.len() == os.len()
                &&& forall|j: int| 0 <= j < os.len() ==> entry_for(#[trigger] entries@[j], os[j], now)
                &&& forall|k: int| 0 <= k < 5 ==> #[trigger] counts@[k] == count_fate(os, now, k)
                &&& weight_sum == weight_total(os, now)
                &&& stars_stranded == stranded(os, now)
                &&& stillborn_count == stillborn_dead(os, now)
                &&& match latest(os) {
                    Some(p) => last_push == Some(Utc(p as i64)),
                    None => last_push is None,
                }
                &&& forall|j: int| 0 <= j < os.len() ==> exists|m: int| 0 <= m < i && !rs[m].fork && #[trigger] os[j] == rs[m]
            }),
        decreases repos.len() - i,
    {
        let repo = &repos[i];
        proof {
            lemma_owned_step(rs, i as int);
            lemma_stranded_prefix(rs, now, i + 1);
            let os = owned(rs.take(i as int));
            lemma_counts_bounded(os, now, 0);
        }
        if !repo.fork {
            let ghost os = owned(rs.take(i as int));
            let ghost os2 = owned(rs.take(i + 1));
            let ghost entries0 = entries@;
            proof {
                assert(os2 == os.push(rs[i as int]));
                assert(os2.drop_last() =~= os);
                assert(os2.last() == rs[i as int]);
                assert(os2[os2.len() - 1] == rs[i as int]);
                assert(!rs[i as int].fork);
            }
            let fate = fate_of(repo, now);
            let fi = fate.index();
            proof {
                lemma_counts_bounded(os, now, fi as int);
            }
            counts[fi] = counts[fi] + 1;
            weight_sum = weight_sum + fate.weight_centis() as u64;
            let seen = match repo.pushed_at {
                Some(p) => p,
                None => repo.created_at,
            };
            proof {
                lemma_latest_is_member(os);
                if let Some(p) = latest(os) {
                    let w = choose|j: int| 0 <= j < os.len() && p == last_activity(#[trigger] os[j]);
                    assert(i64::MIN <= p <= i64::MAX);
                }
                assert(seen.0 == last_activity(rs[i as int]));
                assert(latest(os2) == match latest(os) {
                    Some(p) => Some(if last_activity(rs[i as int]) > p { last_activity(rs[i as int]) } else { p }),
                    None => Some(last_activity(rs[i as int])),
                });
            }
            let replace = match last_push {
                Some(p) => seen.0 > p.0,
                None => true,
            };
            if replace {
                last_push = Some(seen);
            }
            let d = now.since(seen).num_days();
            let days_idle: u32 = if d < 0 { 0 } else { d as u32 };
            let born_dead = stillborn(repo);
            if fate != Fate::Alive {
                stars_stranded = stars_stranded + repo.stargazers_count;
                if born_dead {
                    stillborn_count = stillborn_count + 1;
                }
            }
            entries.push(Corpse {
                name: string_of(repo.name.as_str()),
                url: string_of(repo.html_url.as_str()),
                created_at: repo.created_at,
                last_activity: seen,
                days_idle,
                stars: repo.stargazers_count,
                fate,
                stillborn: born_dead,
            });
            total = total + 1;
            proof {
                assert(last_push == Some(Utc(latest(os2)->0 as i64)));
                assert forall|j: int| 0 <= j < os2.len() implies exists|m: int| 0 <= m < i + 1 && !rs[m].fork && #[trigger] os2[j] == rs[m] by {
                    if j == os2.len() - 1 {
                        assert(os2[j] == rs[i as int]);
                    } else {
                        assert(os2[j] == os[j]);
                    }
                }
                assert forall|k: int| 0 <= k < 5 implies #[trigger] counts@[k] == count_fate(os2, now, k) by {}
                assert forall|j: int| 0 <= j < os2.len() implies entry_for(#[trigger] entries@[j], os2[j], now) by {
                    if j < os.len() {
                        assert(entries@[j] == entries0[j]);
                        assert(os2[j] == os[j]);
                    }
                }
            }
        }
        i += 1;
    }
    let ghost os = owned(rs);
    proof {
        assert(rs.take(rs.len() as int) =~= rs);
        lemma_counts_bounded(os, now, 0);
    }
    let index: u8 = if total == 0 {
        0
    } else {
        let t = total as u64;
        proof {
            assert((2 * weight_sum + t) / (2 * t) <= 100) by (nonlinear_arith)
                requires weight_sum <= 100 * t, t >= 1;
        }
        ((2 * weight_sum + t) / (2 * t)) as u8
    };
    let mut oldest_i: Option<usize> = None;
    let mut j: usize = 0;
    while j < entries.len()
        invariant
            j <= entries@.len(),
            match oldest(entries@.take(j as int)) {
                Some(x) => oldest_i == Some(x as usize),
                None => oldest_i is None,
            },
        decreases entries.len() - j,
    {
        proof {
            let es = entries@.take(j + 1);
            assert(es.drop_last() =~= entries@.take(j as int));
            assert(es.last() == entries@[j as int]);
            if let Some(x) = oldest(entries@.take(j as int)) {
                lemma_oldest_range(entries@.take(j as int));
                assert(es[x] == entries@[x]);
            }
        }
        let e = &entries[j];
        if e.fate != Fate::Alive {
            let better = match oldest_i {
                Some(x) => e.days_idle >= entries[x].days_idle,
                None => true,
            };
            if better {
                oldest_i = Some(j);
            }
        }
        j += 1;
    }
    proof {
        assert(entries@.take(entries@.len() as int) =~= entries@);
    }
    let oldest_corpse = match oldest_i {
        Some(x) => {
            proof {
                lemma_oldest_range(entries@);
            }
            Some((string_of(entries[x].name.as_str()), entries[x].days_idle))
        },
        None => None,
    };
    let days_since_any_push = match last_push {
        Some(p) => {
            proof {
                lemma_latest_is_member(os);
                lemma_owned_members(rs);
            }
            let d = now.since(p).num_days();
            Some(if d < 0 { 0 } else { d as u32 })
        },
        None => None,
    };
    Reading {
        subject: string_of(subject),
        kind,
        index,
        title: title_for_kind(index, total, kind),
        flavor: flavor_for_kind(index, total, kind),
        counts,
        total,
        stars_stranded,
        oldest_corpse,
        stillborn: stillborn_count,
        days_since_any_push,
        low_sample: total < 3,
        entries,
    }
}

proof fn lemma_oldest_range(es: Seq<Corpse>)
    ensures
        oldest(es) matches Some(x) ==> 0 <= x < es.len(),
    decreases es.len(),
{
    if es.len() > 0 {
        lemma_oldest_range(es.drop_last());
    }
}

proof fn lemma_latest_is_member(os: Seq<Repo>)
    ensures
        latest(os) matches Some(p) ==> exists|j: int| 0 <= j < os.len() && p == last_activity(#[trigger] os[j]),
    decreases os.len(),
{
    if os.len() > 0 {
        lemma_latest_is_member(os.drop_last());
        if let Some(p) = latest(os.drop_last()) {
            let j = choose|j: int| 0 <= j < os.drop_last().len() && p == last_activity(#[trigger] os.drop_last()[j]);
            assert(os.drop_last()[j] == os[j]);
        }
        assert(os[os.len() - 1] == os.last());
    }
}


/// The reading `r` with its necrosis index set to `index`, and the title
/// and flavour text that go with that index; every other field is kept.
/// This is how a caller settles an index that lies exactly halfway (see
/// `index_rounds`) by the floating-point sum of the weights.
pub fn with_index(r: Reading, index: u8) -> (out: Reading)
    ensures
        out.index == index,
        out.title@ == title_kind_spec(index, r.total, r.kind),
        out.flavor@ == flavor_kind_spec(index, r.total, r.kind),
        out.subject == r.subject,
        out.kind == r.kind,
        out.counts == r.counts,
        out.total == r.total,
        out.stars_stranded == r.stars_stranded,
        out.oldest_corpse == r.oldest_corpse,
        out.stillborn == r.stillborn,
        out.days_since_any_push == r.days_since_any_push,
        out.low_sample == r.low_sample,
        out.entries == r.entries,
{
    let mut out = r;
    out.title = title_for_kind(index, out.total, out.kind);
    out.flavor = flavor_for_kind(index, out.total, out.kind);
    out.index = index;
    out
}

/// Whether `analyze_at` can read `repos` at `now` without overflow.
pub fn analyzable_at(repos: &[Repo], now: Utc) -> (b: bool)
    ensures
        b == analyzable(repos@, now),
{
    let ghost rs = repos@;
    if repos.len() > 4294967295 {
        return false;
    }
    let mut i: usize = 0;
    let mut sum: u128 = 0;
    while i < repos.len()
        invariant
            rs == repos@,
            rs.len() <= u32::MAX,
            i <= rs.len(),
            forall|j: int| 0 <= j < i && !(#[trigger] rs[j]).fork ==> {
                &&& i64::MIN <= now.0 - last_activity(rs[j]) <= i64::MAX
                &&& i64::MIN <= last_activity(rs[j]) - rs[j].created_at.0 <= i64::MAX
            },
            sum == stranded(owned(rs.take(i as int)), now),
            owned(rs.take(i as int)).len() <= i,
            sum <= i * 18446744073709551615,
        decreases repos.len() - i,
    {
        proof {
            lemma_owned_step(rs, i as int);
        }
        let r = &repos[i];
        if !r.fork {
            let last: i64 = match r.pushed_at {
                Some(p) => p.0,
                None => r.created_at.0,
            };
            let age: i128 = now.0 as i128 - last as i128;
            let life: i128 = last as i128 - r.created_at.0 as i128;
            if age < -9223372036854775808i128 || age > 9223372036854775807i128
                || life < -9223372036854775808i128 || life > 9223372036854775807i128 {
                return false;
            }
            let f = fate_of(r, now);
            if f != Fate::Alive {
                sum = sum + r.stargazers_count as u128;
            }
        }
        proof {
            let t = rs.take(i + 1);
            assert(owned(t) == if rs[i as int].fork { owned(rs.take(i as int)) } else { owned(rs.take(i as int)).push(rs[i as int]) });
            if !rs[i as int].fork {
                assert(owned(t).drop_last() =~= owned(rs.take(i as int)));
                assert(owned(t).last() == rs[i as int]);
            }
        }
        i += 1;
    }
    proof {
        assert(rs.take(rs.len() as int) =~= rs);
    }
    sum <= 18446744073709551615u128
}

/// A reading of `repos` for `subject` at the current time, or `None` when
/// the time differences or the stranded stars would overflow at that time.
pub fn try_analyze(subject: &str, kind: SubjectKind, repos: &[Repo]) -> (r: Option<Reading>)
    ensures
        exists|now: Utc| now.0 >= 0 && (analyzable(repos@, now) ==> (r matches Some(rd) && reading_of(rd, subject@, kind, repos@, now)))
            && (!analyzable(repos@, now) ==> r is None),
{
    let now = Utc::now();
    if analyzable_at(repos, now) {
        Some(analyze_at(subject, kind, repos, now))
    } else {
        None
    }
}

proof fn lemma_counts_cover(os: Seq<Repo>, now: Utc)
    ensures
        count_fate(os, now, 0) + count_fate(os, now, 1) + count_fate(os, now, 2)
            + count_fate(os, now, 3) + count_fate(os, now, 4) == os.len(),
    decreases os.len(),
{
    if os.len() > 0 {
        lemma_counts_cover(os.drop_last(), now);
    }
}

/// Every repo that is not a fork gets exactly one fate: the five fate
/// counts of a reading add up to its total.
pub proof fn law_counts_sum_to_total(r: Reading, subject: Seq<char>, kind: SubjectKind, rs: Seq<Repo>, now: Utc)
    requires
        reading_of(r, subject, kind, rs, now),
    ensures
        r.counts@[0] + r.counts@[1] + r.counts@[2] + r.counts@[3] + r.counts@[4] == r.total,
{
    lemma_counts_cover(owned(rs), now);
    assert(r.counts@[0] == count_fate(owned(rs), now, 0));
    assert(r.counts@[1] == count_fate(owned(rs), now, 1));
    assert(r.counts@[2] == count_fate(owned(rs), now, 2));
    assert(r.counts@[3] == count_fate(owned(rs), now, 3));
    assert(r.counts@[4] == count_fate(owned(rs), now, 4));
}

proof fn lemma_oldest_props(es: Seq<Corpse>)
    ensures
        oldest(es) matches Some(j) ==> {
            &&& 0 <= j < es.len()
            &&& es[j].fate != Fate::Alive
            &&& forall|i: int| 0 <= i < es.len() && (#[trigger] es[i]).fate != Fate::Alive ==> es[i].days_idle <= es[j].days_idle
            &&& forall|i: int| j < i < es.len() && (#[trigger] es[i]).fate != Fate::Alive ==> es[i].days_idle < es[j].days_idle
        },
        oldest(es) is None <==> forall|i: int| 0 <= i < es.len() ==> (#[trigger] es[i]).fate == Fate::Alive,
    decreases es.len(),
{
    if es.len() > 0 {
        let d = es.drop_last();
        let n = es.len() - 1;
        lemma_oldest_props(d);
        assert forall|i: int| 0 <= i < d.len() implies #[trigger] d[i] == es[i] by {}
        let x = es.last();
        assert(x == es[n]);
        let prev = oldest(d);
        if x.fate != Fate::Alive && (prev is None || x.days_idle >= es[prev->0].days_idle) {
            assert(oldest(es) == Some(n));
            assert forall|i: int| 0 <= i < es.len() && (#[trigger] es[i]).fate != Fate::Alive implies es[i].days_idle <= es[n].days_idle by {
                if i < n {
                    assert(d[i].fate != Fate::Alive);
                    assert(prev is Some);
                    assert(d[i].days_idle <= d[prev->0].days_idle);
                }
            }
        } else {
            assert(oldest(es) == prev);
            match prev {
                Some(j) => {
                    assert forall|i: int| 0 <= i < es.len() && (#[trigger] es[i]).fate != Fate::Alive implies es[i].days_idle <= es[j].days_idle by {
                        if i < n {
                            assert(d[i].fate != Fate::Alive);
                        }
                    }
                    assert forall|i: int| j < i < es.len() && (#[trigger] es[i]).fate != Fate::Alive implies es[i].days_idle < es[j].days_idle by {
                        if i < n {
                            assert(d[i].fate != Fate::Alive);
                        }
                    }
                    assert(d[j].fate != Fate::Alive);
                },
                None => {
                    assert forall|i: int| 0 <= i < es.len() implies (#[trigger] es[i]).fate == Fate::Alive by {
                        if i < n {
                            assert(d[i].fate == Fate::Alive);
                        }
                    }
                },
            }
        }
    }
}

/// The oldest corpse is a corpse: when a reading names one, some entry
/// with that name and that many idle days is not alive, no entry that is
/// not alive has been idle longer, and none after it as long; a reading
/// names none exactly when every entry is alive.
pub proof fn law_oldest_corpse(r: Reading, subject: Seq<char>, kind: SubjectKind, rs: Seq<Repo>, now: Utc)
    requires
        reading_of(r, subject, kind, rs, now),
    ensures
        r.oldest_corpse matches Some((n, d)) ==> exists|i: int| 0 <= i < r.entries@.len() && {
            &&& (#[trigger] r.entries@[i]).name@ == n@
            &&& r.entries@[i].days_idle == d
            &&& r.entries@[i].fate != Fate::Alive
            &&& forall|k: int| i < k < r.entries@.len() && (#[trigger] r.entries@[k]).fate != Fate::Alive
                ==> r.entries@[k].days_idle < d
        },
        r.oldest_corpse matches Some((n, d)) ==> forall|i: int| 0 <= i < r.entries@.len()
            && (#[trigger] r.entries@[i]).fate != Fate::Alive ==> r.entries@[i].days_idle <= d,
        r.oldest_corpse is None <==> forall|i: int| 0 <= i < r.entries@.len() ==> (#[trigger] r.entries@[i]).fate == Fate::Alive,
{
    lemma_oldest_props(r.entries@);
    if let Some(j) = oldest(r.entries@) {
        assert(r.entries@[j].fate != Fate::Alive);
    }
}

} // verus!
