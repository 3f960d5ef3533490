//! Page walk for GitHub list endpoints: up to 30 pages of 100 repos,
//! 3000 in all, matching the site. The page fetcher is handed in, so the
//! walk itself needs no network.

use vstd::prelude::*;
use super::Repo;
use super::client::FetchError;

verus! {

/// How many pages of 100 the walk reads at most.
pub const MAX_PAGES: u32 = 30;

/// The repos of an answer seen as a sequence.
pub open spec fn answer_view(a: Result<Vec<Repo>, FetchError>) -> Result<Seq<Repo>, FetchError> {
    match a {
        Ok(v) => Ok(v@),
        Err(e) => Err(e),
    }
}

/// The answers seen as sequences of repos.
pub open spec fn views(answers: Seq<Result<Vec<Repo>, FetchError>>) -> Seq<Result<Seq<Repo>, FetchError>> {
    answers.map_values(|a: Result<Vec<Repo>, FetchError>| answer_view(a))
}

/// The last page of the batch that starts at `page`: four pages at most,
/// never past `max`.
pub open spec fn batch_end(page: int, max: int) -> int {
    if page + 3 <= max { page + 3 } else { max }
}

/// Reads the answers `answers[i..end)` of one batch in page order: the
/// repos of each page are added to `acc`; a page of fewer than 100 repos,
/// or one that is not found, marks the batch as the last; any other
/// failure ends the walk. Gives the failure, if any, the repos and
/// whether the batch was the last.
pub open spec fn scan_batch(
    answers: Seq<Result<Seq<Repo>, FetchError>>,
    i: int,
    end: int,
    acc: Seq<Repo>,
    short: bool,
) -> (Option<FetchError>, Seq<Repo>, bool)
    decreases end - i,
{
    if i >= end || i < 0 || i >= answers.len() {
        (None, acc, short)
    } else {
        match answers[i] {
            Ok(v) => scan_batch(answers, i + 1, end, acc + v, short || v.len() < 100),
            Err(FetchError::NotFound(_)) => scan_batch(answers, i + 1, end, acc, true),
            Err(e) => (Some(e), acc, short),
        }
    }
}

/// The walk from `page` on, with `acc` read so far, where `answers[p - 1]`
/// is the answer for page `p`. Gives the outcome and the number of pages
/// requested in all: every page of a batch is requested before any of
/// its answers is read.
pub open spec fn walk_from(
    answers: Seq<Result<Seq<Repo>, FetchError>>,
    page: int,
    max: int,
    acc: Seq<Repo>,
) -> (Result<Seq<Repo>, FetchError>, int)
    decreases max - page + 1,
{
    if page > max || page < 2 {
        (Ok(acc), page - 1)
    } else {
        let end = batch_end(page, max);
        let (failure, acc2, short) = scan_batch(answers, page - 1, end, acc, false);
        match failure {
            Some(e) => (Err(e), end),
            None => if short {
                (Ok(acc2), end)
            } else {
                walk_from(answers, end + 1, max, acc2)
            },
        }
    }
}

/// The whole walk over the answers `answers` (page 1 first): a failure
/// of page 1 is the outcome, a short page 1 is all there is, else the
/// batches follow.
pub open spec fn walk(answers: Seq<Result<Seq<Repo>, FetchError>>, max: int) -> (Result<Seq<Repo>, FetchError>, int) {
    if answers.len() == 0 {
        (Ok(Seq::empty()), 0)
    } else {
        match answers[0] {
            Err(e) => (Err(e), 1),
            Ok(v) => if v.len() < 100 {
                (Ok(v), 1)
            } else {
                walk_from(answers, 2, max, v)
            },
        }
    }
}

/// `answers` are answers that `get_page` may give for pages 1, 2, ...,
/// exactly as many as the walk requests (page 1 always), and `r` is the
/// walk's outcome.
pub open spec fn walked<F: Fn(u32) -> Result<Vec<Repo>, FetchError>>(
    get_page: F,
    answers: Seq<Result<Vec<Repo>, FetchError>>,
    max: int,
    r: Result<Vec<Repo>, FetchError>,
) -> bool {
    let view = views(answers);
    &&& answers.len() >= 1
    &&& answers.len() == walk(view, max).1
    &&& forall|i: int| 0 <= i < answers.len() ==> call_ensures(get_page, ((i + 1) as u32,), #[trigger] answers[i])
    &&& answer_view(r) == walk(view, max).0
}

proof fn lemma_scan_prefix(
    answers: Seq<Result<Seq<Repo>, FetchError>>,
    more: Seq<Result<Seq<Repo>, FetchError>>,
    i: int,
    end: int,
    acc: Seq<Repo>,
    short: bool,
)
    requires
        0 <= i,
        end <= answers.len(),
    ensures
        scan_batch(answers + more, i, end, acc, short) == scan_batch(answers, i, end, acc, short),
    decreases end - i,
{
    if i < end {
        assert((answers + more)[i] == answers[i]);
        match answers[i] {
            Ok(v) => lemma_scan_prefix(answers, more, i + 1, end, acc + v, short || v.len() < 100),
            Err(FetchError::NotFound(_)) => lemma_scan_prefix(answers, more, i + 1, end, acc, true),
            Err(e) => {},
        }
    }
}

/// Reads one batch's answers, in page order, into `acc`.
fn read_batch(
    results: &mut Vec<Result<Vec<Repo>, FetchError>>,
    acc: &mut Vec<Repo>,
) -> (r: (Option<FetchError>, bool))
    ensures
        ({
            let view = views(old(results)@);
            let s = scan_batch(view, 0, view.len() as int, old(acc)@, false);
            r.0 == s.0 && (s.0 is None ==> final(acc)@ == s.1 && r.1 == s.2)
        }),
{
    let ghost all = results@;
    let ghost view = views(all);
    let ghost start = acc@;
    let total = results.len();
    let ghost n = all.len() as int;
    let mut short = false;
    let mut k: usize = 0;
    while results.len() > 0
        invariant
            view == views(all),
            n == all.len(),
            n == total,
            all == old(results)@,
            start == old(acc)@,
            k as int + results@.len() == n,
            results@ == all.subrange(k as int, n),
            scan_batch(view, 0, n, start, false) == scan_batch(view, k as int, n, acc@, short),
        decreases results.len(),
    {
        let a = results.remove(0);
        assert(a == all[k as int]);
        assert(view[k as int] == answer_view(a));
        match a {
            Ok(mut v) => {
                let few = v.len() < 100;
                let ghost before = acc@;
                let ghost vs = v@;
                acc.append(&mut v);
                assert(acc@ == before + vs);
                short = short || few;
            },
            Err(FetchError::NotFound(u)) => {
                short = true;
            },
            Err(e) => {
                return (Some(e), short);
            },
        }
        k += 1;
        assert(results@ =~= all.subrange(k as int, n));
    }
    (None, short)
}

/// Walks the pages of a list endpoint through `get_page`, reading at most
/// `max_pages` pages: page 1 first; when it holds 100 repos, the rest in
/// batches of up to four pages, each batch requested whole and then read
/// in page order. A page of fewer than 100 repos or a missing page ends
/// the walk after its batch; any other failure is the outcome.
pub fn collect_pages_upto<F>(get_page: F, max_pages: u32) -> (r: Result<Vec<Repo>, FetchError>)
    where
        F: Fn(u32) -> Result<Vec<Repo>, FetchError>,
    requires
        forall|p: u32| 1 <= p && (p == 1 || p <= max_pages) ==> call_requires(get_page, (p,)),
    ensures
        exists|answers: Seq<Result<Vec<Repo>, FetchError>>| #[trigger] walked(get_page, answers, max_pages as int, r),
{
    let first = get_page(1);
    let ghost answers: Seq<Result<Vec<Repo>, FetchError>> = seq![first];
    let ghost max = max_pages as int;
    let ghost view1 = views(answers);
    proof {
        assert(view1[0] == answer_view(answers[0]));
    }
    let acc = match first {
        Err(e) => {
            proof {
                assert(walked(get_page, answers, max, Err(e)));
            }
            return Err(e);
        },
        Ok(v) => v,
    };
    if acc.len() < 100 {
        proof {
            assert(walked(get_page, answers, max, Ok(acc)));
        }
        return Ok(acc);
    }
    proof {
        assert forall|more: Seq<Result<Seq<Repo>, FetchError>>|
            walk(#[trigger] (view1 + more), max) == walk_from(view1 + more, 2, max, acc@) by {
            assert((view1 + more)[0] == view1[0]);
        }
    }
    walk_batches(get_page, max_pages, acc, Ghost(answers))
}

/// The batches of the walk from page 2 on, `acc` holding the repos of
/// page 1 and `answers` the answer for page 1.
fn walk_batches<F>(
    get_page: F,
    max_pages: u32,
    acc: Vec<Repo>,
    Ghost(answers): Ghost<Seq<Result<Vec<Repo>, FetchError>>>,
) -> (r: Result<Vec<Repo>, FetchError>)
    where
        F: Fn(u32) -> Result<Vec<Repo>, FetchError>,
    requires
        forall|p: u32| 1 <= p && (p == 1 || p <= max_pages) ==> call_requires(get_page, (p,)),
        answers.len() == 1,
        call_ensures(get_page, (1u32,), answers[0]),
        forall|more: Seq<Result<Seq<Repo>, FetchError>>|
            walk(#[trigger] (views(answers) + more), max_pages as int)
                == walk_from(views(answers) + more, 2, max_pages as int, acc@),
    ensures
        exists|all: Seq<Result<Vec<Repo>, FetchError>>| #[trigger] walked(get_page, all, max_pages as int, r),
{
    let ghost max = max_pages as int;
    let ghost mut answers = answers;
    let mut acc = acc;
    let mut page: u64 = 2;
    loop
        invariant
            forall|p: u32| 1 <= p && (p == 1 || p <= max_pages) ==> call_requires(get_page, (p,)),
            max == max_pages as int,
            2 <= page,
            page <= max + 1 || page == 2,
            answers.len() == page - 1,
            forall|i: int| 0 <= i < answers.len() ==> call_ensures(get_page, ((i + 1) as u32,), #[trigger] answers[i]),
            forall|more: Seq<Result<Seq<Repo>, FetchError>>|
                walk(#[trigger] (views(answers) + more), max)
                    == walk_from(views(answers) + more, page as int, max, acc@),
        decreases max + 2 - page,
    {
        let ghost view0 = views(answers);
        if page > max_pages as u64 {
            proof {
                let e = Seq::<Result<Seq<Repo>, FetchError>>::empty();
                assert(view0 + e =~= view0);
                assert(walk(view0 + e, max) == walk_from(view0 + e, page as int, max, acc@));
                assert(walked(get_page, answers, max, Ok(acc)));
            }
            return Ok(acc);
        }
        let end: u64 = if page + 3 <= max_pages as u64 { page + 3 } else { max_pages as u64 };
        let mut results: Vec<Result<Vec<Repo>, FetchError>> = Vec::new();
        let mut p: u64 = page;
        while p <= end
            invariant
                forall|q: u32| 1 <= q && (q == 1 || q <= max_pages) ==> call_requires(get_page, (q,)),
                2 <= page <= p <= end + 1,
                end <= max_pages,
                results@.len() == p - page,
                forall|i: int| 0 <= i < results@.len() ==> call_ensures(get_page, ((page + i) as u32,), #[trigger] results@[i]),
            decreases end + 1 - p,
        {
            let a = get_page(p as u32);
            results.push(a);
            p += 1;
        }
        let ghost batch = results@;
        let ghost answers2 = answers + batch;
        let ghost view2 = views(answers2);
        let ghost batch_view = views(batch);
        let ghost acc0 = acc@;
        proof {
            assert(view2 =~= view0 + batch_view);
            assert forall|i: int| 0 <= i < answers2.len() implies call_ensures(get_page, ((i + 1) as u32,), #[trigger] answers2[i]) by {
                if i >= answers.len() {
                    assert(answers2[i] == batch[i - answers.len()]);
                } else {
                    assert(answers2[i] == answers[i]);
                }
            }
        }
        let (failure, short) = read_batch(&mut results, &mut acc);
        proof {
            assert(end as int == batch_end(page as int, max));
            lemma_scan_shift(view0, batch_view, 0, batch_view.len() as int, acc0, false);
            assert(scan_batch(view2, page - 1, end as int, acc0, false)
                == scan_batch(batch_view, 0, batch_view.len() as int, acc0, false));
            let e = Seq::<Result<Seq<Repo>, FetchError>>::empty();
            assert(view0 + batch_view =~= view0 + batch_view + e);
            assert(walk(view0 + batch_view, max) == walk_from(view0 + batch_view, page as int, max, acc0));
        }
        match failure {
            Some(e) => {
                proof {
                    answers = answers2;
                    assert(walked(get_page, answers, max, Err(e)));
                }
                return Err(e);
            },
            None => {},
        }
        if short {
            proof {
                answers = answers2;
                assert(walked(get_page, answers, max, Ok(acc)));
            }
            return Ok(acc);
        }
        proof {
            assert forall|more2: Seq<Result<Seq<Repo>, FetchError>>|
                walk(#[trigger] (view2 + more2), max) == walk_from(view2 + more2, end as int + 1, max, acc@) by {
                assert(view2 + more2 =~= view0 + (batch_view + more2));
                assert(walk(view0 + (batch_view + more2), max)
                    == walk_from(view0 + (batch_view + more2), page as int, max, acc0));
                lemma_scan_prefix(view2, more2, page - 1, end as int, acc0, false);
            }
            answers = answers2;
        }
        page = end + 1;
    }
}

/// Scanning a batch placed after `pre` is scanning the batch alone.
proof fn lemma_scan_shift(
    pre: Seq<Result<Seq<Repo>, FetchError>>,
    batch: Seq<Result<Seq<Repo>, FetchError>>,
    i: int,
    end: int,
    acc: Seq<Repo>,
    short: bool,
)
    requires
        0 <= i,
        end == batch.len(),
    ensures
        scan_batch(pre + batch, pre.len() + i, pre.len() + end, acc, short) == scan_batch(batch, i, end, acc, short),
    decreases end - i,
{
    if i < end {
        assert((pre + batch)[pre.len() + i] == batch[i]);
        match batch[i] {
            Ok(v) => lemma_scan_shift(pre, batch, i + 1, end, acc + v, short || v.len() < 100),
            Err(FetchError::NotFound(_)) => lemma_scan_shift(pre, batch, i + 1, end, acc, true),
            Err(e) => {},
        }
    }
}

/// `collect_pages_upto` with the site's limit of 30 pages.
pub fn collect_pages<F>(get_page: F) -> (r: Result<Vec<Repo>, FetchError>)
    where
        F: Fn(u32) -> Result<Vec<Repo>, FetchError>,
    requires
        forall|p: u32| 1 <= p <= MAX_PAGES ==> call_requires(get_page, (p,)),
    ensures
        exists|answers: Seq<Result<Vec<Repo>, FetchError>>| #[trigger] walked(get_page, answers, MAX_PAGES as int, r),
{
    collect_pages_upto(get_page, MAX_PAGES)
}

proof fn lemma_walk_from_bounded(
    answers: Seq<Result<Seq<Repo>, FetchError>>,
    page: int,
    max: int,
    acc: Seq<Repo>,
)
    requires
        2 <= page <= max + 1,
    ensures
        page - 1 <= walk_from(answers, page, max, acc).1 <= max,
    decreases max - page + 1,
{
    if page <= max {
        let end = batch_end(page, max);
        let (failure, acc2, short) = scan_batch(answers, page - 1, end, acc, false);
        if failure is None && !short {
            lemma_walk_from_bounded(answers, end + 1, max, acc2);
        }
    }
}

/// The walk never requests more than `max` pages (page 1 is always
/// requested), and it requests at least page 1 when there is an answer
/// for it.
pub proof fn law_walk_page_limit(answers: Seq<Result<Seq<Repo>, FetchError>>, max: int)
    ensures
        walk(answers, max).1 <= if max >= 1 { max } else { 1 },
        answers.len() > 0 ==> walk(answers, max).1 >= 1,
{
    if answers.len() > 0 {
        if let Ok(v) = answers[0] {
            if v.len() >= 100 && max >= 1 {
                lemma_walk_from_bounded(answers, 2, max, v);
            }
        }
    }
}

} // verus!
