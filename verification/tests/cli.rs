use necrometer::cli::{card_summary, hall_entry, hall_json, hall_names, rank_hall, HallEntry};
use necrometer::metrics::{Corpse, Fate, Reading, SubjectKind};
use necrometer::time::Utc;

fn corpse(name: &str, fate: Fate) -> Corpse {
    Corpse {
        name: name.into(),
        url: format!("https://github.com/t/{name}"),
        created_at: Utc(0),
        last_activity: Utc(0),
        days_idle: 100,
        stars: 1,
        fate,
        stillborn: false,
    }
}

fn reading(subject: &str, index: u8, title: &str, entries: Vec<Corpse>) -> Reading {
    Reading {
        subject: subject.into(),
        kind: SubjectKind::User,
        index,
        title: title.into(),
        flavor: "f".into(),
        counts: [0; 5],
        total: entries.len() as u32,
        stars_stranded: 12,
        oldest_corpse: None,
        stillborn: 0,
        days_since_any_push: None,
        low_sample: false,
        entries,
    }
}

fn entry(name: &str, index: u8, corpses: u32) -> HallEntry {
    HallEntry {
        name: name.into(),
        index,
        title: "t".into(),
        corpses,
        total: 10,
        stars_stranded: 0,
    }
}

#[test]
fn hall_names_skip_blanks_and_comments() {
    let names = hall_names("alice\n  bob \n\n# comment\n  #x\ncarol\r\n");
    assert_eq!(names, vec!["alice".to_string(), "bob".to_string(), "carol".to_string()]);
    assert!(hall_names("").is_empty());
    assert!(hall_names("\n\n   \n#only\n").is_empty());
    assert_eq!(hall_names("solo"), vec!["solo".to_string()]);
}

#[test]
fn hall_entry_counts_the_dead() {
    let r = reading(
        "ann",
        60,
        "Serial Starter",
        vec![
            corpse("a", Fate::Alive),
            corpse("b", Fate::Cooling),
            corpse("c", Fate::Dead),
            corpse("d", Fate::Buried),
            corpse("e", Fate::Alive),
        ],
    );
    let h = hall_entry("ann", &r);
    assert_eq!(h.name, "ann");
    assert_eq!(h.index, 60);
    assert_eq!(h.title, "Serial Starter");
    assert_eq!(h.corpses, 3);
    assert_eq!(h.total, 5);
    assert_eq!(h.stars_stranded, 12);
}

#[test]
fn hall_ranks_by_index_then_corpses_keeping_ties() {
    let ranked = rank_hall(vec![
        entry("a", 10, 1),
        entry("b", 50, 2),
        entry("c", 50, 5),
        entry("d", 30, 0),
        entry("e", 50, 2),
    ]);
    let order: Vec<&str> = ranked.iter().map(|h| h.name.as_str()).collect();
    assert_eq!(order, vec!["c", "b", "e", "d", "a"]);
    assert!(rank_hall(Vec::new()).is_empty());
}

#[test]
fn hall_ranking_keeps_every_entry() {
    let ranked = rank_hall(vec![entry("x", 1, 1), entry("y", 1, 1), entry("z", 2, 0)]);
    assert_eq!(ranked.len(), 3);
    for w in ranked.windows(2) {
        assert!(w[0].index > w[1].index || (w[0].index == w[1].index && w[0].corpses >= w[1].corpses));
    }
    let mut names: Vec<&str> = ranked.iter().map(|h| h.name.as_str()).collect();
    names.sort();
    assert_eq!(names, vec!["x", "y", "z"]);
}

#[test]
fn hall_json_is_exact_and_escaped() {
    let hs = vec![
        HallEntry {
            name: "<x>".into(),
            index: 50,
            title: "T&\"".into(),
            corpses: 5,
            total: 9,
            stars_stranded: 7,
        },
        entry("y", 0, 0),
    ];
    assert_eq!(
        hall_json(&hs),
        "[{\"name\":\"&lt;x&gt;\",\"index\":50,\"title\":\"T&amp;&quot;\",\"corpses\":5,\"total\":9,\"starsStranded\":7},\
{\"name\":\"y\",\"index\":0,\"title\":\"t\",\"corpses\":0,\"total\":10,\"starsStranded\":0}]\n"
    );
    assert_eq!(hall_json(&Vec::new()), "[]\n");
}

#[test]
fn card_summary_line() {
    let r = reading("a<b", 42, "Cold & Tired", Vec::new());
    assert_eq!(
        card_summary(&r, "out/necrometer.svg"),
        "a&lt;b: 42% necrotic (Cold &amp; Tired) — wrote out/necrometer.svg"
    );
}
