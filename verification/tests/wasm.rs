use necrometer::json::parse;
use necrometer::json::value::Value;
use necrometer::metrics::{Corpse, Fate, Reading, SubjectKind};
use necrometer::time::Utc;
use necrometer::wasm::{
    deserialize_reading, deserialize_reading_at, reading_to_value, serialize_reading, value_to_reading, value_to_reading_at,
};

fn sample() -> Reading {
    Reading {
        subject: "ann".into(),
        kind: SubjectKind::Org,
        index: 42,
        title: "T".into(),
        flavor: "F".into(),
        counts: [1, 0, 0, 1, 0],
        total: 2,
        stars_stranded: 5,
        oldest_corpse: Some(("old".into(), 900)),
        stillborn: 0,
        days_since_any_push: Some(3),
        low_sample: true,
        entries: vec![Corpse {
            name: "old".into(),
            url: "u".into(),
            created_at: Utc(0),
            last_activity: Utc(0),
            days_idle: 900,
            stars: 5,
            fate: Fate::Dead,
            stillborn: false,
        }],
    }
}

const SAMPLE_JSON: &str = "{\"subject\":\"ann\",\"kind\":\"org\",\"index\":42,\"title\":\"T\",\"flavor\":\"F\",\
\"counts\":[1,0,0,1,0],\"total\":2,\"starsStranded\":5,\"oldestCorpse\":{\"name\":\"old\",\"daysIdle\":900},\
\"stillborn\":0,\"daysSinceAnyPush\":3,\"lowSample\":true,\
\"entries\":[{\"name\":\"old\",\"url\":\"u\",\"daysIdle\":900,\"stars\":5,\"fate\":\"dead\",\"stillborn\":false}]}";

#[test]
fn reading_serializes_to_the_bridge_shape() {
    assert_eq!(serialize_reading(&sample()), SAMPLE_JSON);
}

#[test]
fn absent_values_are_null() {
    let mut r = sample();
    r.oldest_corpse = None;
    r.days_since_any_push = None;
    r.kind = SubjectKind::User;
    let s = serialize_reading(&r);
    assert!(s.contains("\"kind\":\"u\""));
    assert!(s.contains("\"oldestCorpse\":null"));
    assert!(s.contains("\"daysSinceAnyPush\":null"));
}

#[test]
fn reading_round_trips_through_json() {
    let r = sample();
    let back = deserialize_reading(&serialize_reading(&r)).unwrap();
    assert_eq!(back.subject, r.subject);
    assert_eq!(back.kind, r.kind);
    assert_eq!(back.index, r.index);
    assert_eq!(back.title, r.title);
    assert_eq!(back.flavor, r.flavor);
    assert_eq!(back.counts, r.counts);
    assert_eq!(back.total, r.total);
    assert_eq!(back.stars_stranded, r.stars_stranded);
    assert_eq!(back.oldest_corpse, r.oldest_corpse);
    assert_eq!(back.stillborn, r.stillborn);
    assert_eq!(back.days_since_any_push, r.days_since_any_push);
    assert_eq!(back.low_sample, r.low_sample);
    assert_eq!(back.entries.len(), 1);
    assert_eq!(back.entries[0].name, "old");
    assert_eq!(back.entries[0].url, "u");
    assert_eq!(back.entries[0].days_idle, 900);
    assert_eq!(back.entries[0].stars, 5);
    assert_eq!(back.entries[0].fate, Fate::Dead);
    assert!(!back.entries[0].stillborn);
}

#[test]
fn value_round_trip_and_non_objects() {
    let v = reading_to_value(&sample());
    let back = value_to_reading(&v).unwrap();
    assert_eq!(back.index, 42);
    assert!(value_to_reading(&Value::Null).is_none());
    assert!(value_to_reading(&Value::Array(Vec::new())).is_none());
    assert!(deserialize_reading("[1,2]").is_none());
}

#[test]
fn missing_fields_take_defaults() {
    let back = deserialize_reading("{\"subject\":\"s\",\"entries\":[{\"name\":\"n\",\"fate\":\"buried\"},3]}").unwrap();
    assert_eq!(back.subject, "s");
    assert_eq!(back.kind, SubjectKind::User);
    assert_eq!(back.index, 0);
    assert_eq!(back.title, "");
    assert_eq!(back.counts, [0; 5]);
    assert_eq!(back.oldest_corpse, None);
    assert_eq!(back.days_since_any_push, None);
    assert!(!back.low_sample);
    assert_eq!(back.entries.len(), 1);
    assert_eq!(back.entries[0].name, "n");
    assert_eq!(back.entries[0].fate, Fate::Buried);
}

#[test]
fn serialized_reading_parses() {
    assert!(matches!(parse(SAMPLE_JSON), Ok(Value::Object(_))));
}

#[test]
fn entries_are_dated_at_the_given_time() {
    let back = deserialize_reading_at(SAMPLE_JSON, Utc(1234)).unwrap();
    assert_eq!(back.entries[0].created_at, Utc(1234));
    assert_eq!(back.entries[0].last_activity, Utc(1234));
    assert_eq!(back.index, 42);
    let v = reading_to_value(&sample());
    let at = value_to_reading_at(&v, Utc(-5)).unwrap();
    assert_eq!(at.entries[0].created_at, Utc(-5));
    assert!(value_to_reading_at(&Value::Bool(true), Utc(0)).is_none());
    assert!(deserialize_reading_at("\"text\"", Utc(0)).is_none());
}

#[test]
fn truncated_reading_gives_none() {
    assert!(deserialize_reading("{\"subject\":").is_none());
    assert!(deserialize_reading_at("[", Utc(0)).is_none());
}
