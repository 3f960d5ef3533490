use necrometer::github::Repo;
use necrometer::metrics::analyze::{analyze, analyze_at, fate_of, with_index};
use necrometer::metrics::titles::{flavor_for_kind, title_for_kind};
use necrometer::metrics::summary::stillborn;
use necrometer::metrics::{Fate, Reading, SubjectKind};
use necrometer::time::Utc;

fn repo(pushed_days_ago: i64, archived: bool, fork: bool, stars: u64) -> Repo {
    let now = Utc::now();
    Repo {
        name: "x".into(),
        pushed_at: Some(Utc(now.0 - pushed_days_ago * 86400)),
        created_at: Utc(now.0 - (pushed_days_ago + 400) * 86400),
        archived,
        fork,
        stargazers_count: stars,
        html_url: String::new(),
    }
}

fn repo_with(pushed: Option<Utc>, created: Utc) -> Repo {
    Repo {
        name: "x".into(),
        pushed_at: pushed,
        created_at: created,
        archived: false,
        fork: false,
        stargazers_count: 0,
        html_url: String::new(),
    }
}

#[test]
fn analyze_all_alive_is_zero() {
    let r = analyze(
        "t",
        SubjectKind::User,
        &[repo(1, false, false, 0), repo(5, false, false, 0), repo(9, false, false, 0)],
    );
    assert_eq!(r.index, 0);
    assert_eq!(r.title, "The Maintainer");
    let org = analyze(
        "o",
        SubjectKind::Org,
        &[repo(1, false, false, 0), repo(5, false, false, 0), repo(9, false, false, 0)],
    );
    assert_eq!(org.title, "Healthy Churn");
}

#[test]
fn analyze_forks_excluded() {
    let r = analyze("t", SubjectKind::User, &[repo(1, false, false, 0), repo(2000, false, true, 0)]);
    assert_eq!(r.total, 1);
    assert_eq!(r.index, 0);
}

#[test]
fn analyze_archived_is_buried() {
    let r = analyze("t", SubjectKind::User, &[repo(900, true, false, 0)]);
    assert_eq!(r.counts[Fate::Buried as usize], 1);
    assert_eq!(r.index, 100);
}

#[test]
fn boundary_ages() {
    let now = Utc::now();
    let mut r = repo(29, false, false, 0);
    assert_eq!(fate_of(&r, now), Fate::Alive);
    r.pushed_at = Some(Utc(now.0 - 30 * 86400));
    assert_eq!(fate_of(&r, now), Fate::Cooling);
    r.pushed_at = Some(Utc(now.0 - 180 * 86400));
    assert_eq!(fate_of(&r, now), Fate::Cold);
    r.pushed_at = Some(Utc(now.0 - 730 * 86400));
    assert_eq!(fate_of(&r, now), Fate::Dead);
}

#[test]
fn metrics_all_alive_is_zero() {
    let r = analyze("t", SubjectKind::User, &[repo(1, false, false, 0), repo(5, false, false, 0), repo(9, false, false, 0)]);
    assert_eq!(r.index, 0);
    assert_eq!(r.title, "The Maintainer");
}

#[test]
fn metrics_forks_excluded() {
    let r = analyze("t", SubjectKind::User, &[repo(1, false, false, 0), repo(2000, false, true, 0)]);
    assert_eq!(r.total, 1);
    assert_eq!(r.index, 0);
}

#[test]
fn metrics_archived_is_buried() {
    let r = analyze("t", SubjectKind::User, &[repo(900, true, false, 0)]);
    assert_eq!(r.counts[Fate::Buried as usize], 1);
    assert_eq!(r.index, 100);
}

#[test]
fn no_push_is_stillborn() {
    let now = Utc::now();
    let r = repo_with(None, Utc(now.0 - 86400));
    assert!(stillborn(&r));
}

#[test]
fn pushed_within_24h_is_stillborn() {
    let now = Utc::now();
    let r = repo_with(Some(Utc(now.0 - 3600)), Utc(now.0 - 86400));
    assert!(stillborn(&r));
}

#[test]
fn pushed_after_24h_is_alive() {
    let now = Utc::now();
    let r = repo_with(Some(Utc(now.0 - 86400 * 30)), Utc(now.0 - 86400 * 400));
    assert!(!stillborn(&r));
}

#[test]
fn a_mixed_graveyard_at_a_fixed_time() {
    let now = Utc(1_000 * 86400);
    let mk = |name: &str, pushed_days_ago: Option<i64>, created_days_ago: i64, archived: bool, stars: u64| Repo {
        name: name.into(),
        pushed_at: pushed_days_ago.map(|d| Utc(now.0 - d * 86400)),
        created_at: Utc(now.0 - created_days_ago * 86400),
        archived,
        fork: false,
        stargazers_count: stars,
        html_url: format!("https://github.com/t/{name}"),
    };
    let repos = vec![
        mk("alive", Some(3), 500, false, 1),
        mk("fresh", Some(7), 20, false, 0),
        mk("cooling", Some(60), 500, false, 2),
        mk("cold", Some(300), 500, false, 4),
        mk("dead", Some(800), 900, false, 8),
        mk("buried", Some(10), 500, true, 16),
        mk("never", None, 900, false, 32),
    ];
    let r = analyze_at("t", SubjectKind::User, &repos, now);
    assert_eq!(r.total, 7);
    assert_eq!(r.counts, [2, 1, 1, 2, 1]);
    // (0 + 0 + 33 + 66 + 100 + 100 + 100) / 7 = 57
    assert_eq!(r.index, 57);
    assert_eq!(r.stars_stranded, 2 + 4 + 8 + 16 + 32);
    assert_eq!(r.stillborn, 1);
    assert_eq!(r.oldest_corpse, Some(("never".to_string(), 900)));
    assert_eq!(r.days_since_any_push, Some(3));
    assert_eq!(r.title, "Serial Starter");
    assert!(!r.low_sample);
    assert_eq!(r.entries.len(), 7);
    assert_eq!(r.entries[4].days_idle, 800);
    assert_eq!(r.entries[4].fate, Fate::Dead);
}

#[test]
fn nothing_owned_is_a_ghost() {
    let r = analyze_at("g", SubjectKind::Org, &[], Utc(0));
    assert_eq!(r.total, 0);
    assert_eq!(r.index, 0);
    assert_eq!(r.title, "Ghost — nothing to bury");
    assert!(r.low_sample);
    assert_eq!(r.days_since_any_push, None);
    assert_eq!(r.oldest_corpse, None);
}

#[test]
fn fate_counts_add_up_to_the_total() {
    let now = Utc(2_000 * 86400);
    let mk = |d: i64, archived: bool, fork: bool| Repo {
        name: "r".into(),
        pushed_at: Some(Utc(now.0 - d * 86400)),
        created_at: Utc(now.0 - (d + 10) * 86400),
        archived,
        fork,
        stargazers_count: 0,
        html_url: String::new(),
    };
    let repos = vec![mk(1, false, false), mk(100, false, false), mk(400, false, true), mk(1000, false, false), mk(5, true, false)];
    let r = analyze_at("t", SubjectKind::User, &repos, now);
    assert_eq!(r.total, 4);
    assert_eq!(r.counts.iter().sum::<u32>(), r.total);
    assert_eq!(r.counts, [1, 1, 0, 1, 1]);
}

#[test]
fn never_pushed_repos_are_dead() {
    let now = Utc(3_000 * 86400);
    let never = repo_with(None, Utc(now.0 - 86400));
    assert_eq!(fate_of(&never, now), Fate::Dead);
    let one_push = repo_with(Some(Utc(now.0 - 2 * 86400 + 3600)), Utc(now.0 - 2 * 86400));
    assert!(stillborn(&one_push));
    assert_eq!(fate_of(&one_push, now), Fate::Alive);
    let living = repo_with(Some(Utc(now.0 - 5 * 86400)), Utc(now.0 - 10 * 86400));
    assert_eq!(fate_of(&living, now), Fate::Alive);
    let mut archived = repo_with(None, Utc(now.0 - 86400));
    archived.archived = true;
    assert_eq!(fate_of(&archived, now), Fate::Buried);
    let r = analyze_at("t", SubjectKind::User, &[never, one_push, living], now);
    assert_eq!(r.counts, [2, 0, 0, 1, 0]);
    assert_eq!(r.stillborn, 1);
    assert_eq!(r.index, 33);
}

/// The index as the program reports it: the weights summed in floating
/// point, averaged and rounded.
fn float_index(r: &Reading) -> u8 {
    if r.total == 0 {
        return 0;
    }
    let mut sum = 0.0;
    for c in &r.entries {
        sum += match c.fate {
            Fate::Alive => 0.0,
            Fate::Cooling => 0.33,
            Fate::Cold => 0.66,
            Fate::Dead | Fate::Buried => 1.0,
        };
    }
    ((sum / r.total as f64) * 100.0).round() as u8
}

#[test]
fn halfway_index_is_settled_by_the_float_sum() {
    let now = Utc(5_000 * 86400);
    let mk = |d: i64| Repo {
        name: "r".into(),
        pushed_at: Some(Utc(now.0 - d * 86400)),
        created_at: Utc(now.0 - (d + 400) * 86400),
        archived: false,
        fork: false,
        stargazers_count: 0,
        html_url: String::new(),
    };
    let repos = vec![mk(1), mk(2), mk(3), mk(60), mk(300), mk(400)];
    let r = analyze_at("t", SubjectKind::User, &repos, now);
    assert_eq!(r.counts, [3, 1, 2, 0, 0]);
    assert!(r.index == 27 || r.index == 28);
    let idx = float_index(&r);
    assert_eq!(idx, 27);
    let settled = with_index(r, idx);
    assert_eq!(settled.index, 27);
    assert_eq!(settled.title, title_for_kind(27, 6, SubjectKind::User));
    assert_eq!(settled.flavor, flavor_for_kind(27, 6, SubjectKind::User));
    assert_eq!(settled.total, 6);
    assert_eq!(settled.entries.len(), 6);
}

#[test]
fn float_index_matches_away_from_halves() {
    let now = Utc(5_000 * 86400);
    let mk = |d: i64| Repo {
        name: "r".into(),
        pushed_at: Some(Utc(now.0 - d * 86400)),
        created_at: Utc(now.0 - (d + 400) * 86400),
        archived: false,
        fork: false,
        stargazers_count: 0,
        html_url: String::new(),
    };
    let ages = [1i64, 60, 300, 800, 2, 90, 500, 1000, 3, 45];
    for n in 1..=ages.len() {
        let repos: Vec<Repo> = ages[..n].iter().map(|&d| mk(d)).collect();
        let r = analyze_at("t", SubjectKind::User, &repos, now);
        let w: u32 = r.entries.iter().map(|c| match c.fate {
            Fate::Alive => 0,
            Fate::Cooling => 33,
            Fate::Cold => 66,
            Fate::Dead | Fate::Buried => 100,
        }).sum();
        if (2 * w) % (2 * r.total) != r.total {
            assert_eq!(r.index, float_index(&r), "{n} repos");
        }
    }
}
