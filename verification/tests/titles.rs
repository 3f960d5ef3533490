use necrometer::metrics::titles::{flavor_for, flavor_for_kind, title_for, title_for_kind};
use necrometer::metrics::SubjectKind;

#[test]
fn ghost_when_empty() {
    assert_eq!(title_for(0, 0), "Ghost — nothing to bury");
    assert!(flavor_for(0, 0).contains("nothing"));
}

#[test]
fn low_sample() {
    assert_eq!(title_for(50, 2), "Insufficient Corpses");
}

#[test]
fn bands() {
    assert_eq!(title_for(0, 10), "The Maintainer");
    assert_eq!(title_for(34, 10), "Healthy Churn");
    assert_eq!(title_for(59, 10), "Serial Starter");
    assert_eq!(title_for(79, 10), "Graveyard Keeper");
    assert_eq!(title_for(100, 10), "Repo Necromancer");
}

#[test]
fn band_edges_and_flavors() {
    assert_eq!(title_for(14, 3), "The Maintainer");
    assert_eq!(title_for(15, 3), "Healthy Churn");
    assert_eq!(title_for(35, 3), "Serial Starter");
    assert_eq!(title_for(60, 3), "Graveyard Keeper");
    assert_eq!(title_for(80, 3), "Repo Necromancer");
    assert_eq!(flavor_for(0, 2), "not enough bodies to judge");
    assert_eq!(flavor_for(90, 9), "not a profile — a cemetery");
}

#[test]
fn orgs_never_read_as_the_maintainer() {
    assert_eq!(title_for_kind(0, 10, SubjectKind::Org), "Healthy Churn");
    assert_eq!(title_for_kind(0, 10, SubjectKind::User), "The Maintainer");
    assert_eq!(flavor_for_kind(0, 10, SubjectKind::Org), "a few corpses, like everyone");
}
