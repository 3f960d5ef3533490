use necrometer::time::{Duration, Utc};

#[test]
fn parse_z() {
    let t = Utc::parse_rfc3339("2024-01-15T12:34:56Z").unwrap();
    assert!(t.0 > 1_700_000_000 && t.0 < 1_800_000_000);
}

#[test]
fn parse_offset() {
    let a = Utc::parse_rfc3339("2024-01-15T12:34:56Z").unwrap();
    let b = Utc::parse_rfc3339("2024-01-15T13:34:56+01:00").unwrap();
    assert_eq!(a, b);
}

#[test]
fn time_roundtrip() {
    let a = Utc::now();
    let s = a.to_rfc3339();
    let b = Utc::parse_rfc3339(&s).unwrap();
    assert_eq!(a.0 / 60, b.0 / 60);
}

#[test]
fn rejects_garbage() {
    assert!(Utc::parse_rfc3339("nope").is_none());
    assert!(Utc::parse_rfc3339("2024-13-40T99:99:99Z").is_none());
}

#[test]
fn exact_instants() {
    assert_eq!(Utc::parse_rfc3339("1970-01-01T00:00:00Z"), Some(Utc(0)));
    assert_eq!(Utc::parse_rfc3339("2024-01-15T12:34:56Z"), Some(Utc(1705322096)));
    assert_eq!(Utc::parse_rfc3339(" 2024-01-15T12:34:56.789-00:30 "), Some(Utc(1705322096 + 1800)));
    assert_eq!(Utc(1705322096).to_rfc3339(), "2024-01-15T12:34:56Z");
    assert_eq!(Utc(-1).to_rfc3339(), "1969-12-31T23:59:59Z");
}

#[test]
fn day_counts_truncate_toward_zero() {
    let later = Utc(10 * 86400 + 5);
    assert_eq!(later.since(Utc(0)).num_days(), 10);
    assert_eq!(Duration(-86399).num_days(), 0);
    assert_eq!(Duration(-86400).num_days(), -1);
}

#[test]
fn impossible_dates_are_refused() {
    assert_eq!(Utc::parse_rfc3339("2023-02-31T00:00:00Z"), None);
    assert_eq!(Utc::parse_rfc3339("2023-04-31T00:00:00Z"), None);
    assert_eq!(Utc::parse_rfc3339("2023-02-29T00:00:00Z"), None);
    assert_eq!(Utc::parse_rfc3339("1900-02-29T00:00:00Z"), None);
    assert!(Utc::parse_rfc3339("2024-02-29T00:00:00Z").is_some());
    assert!(Utc::parse_rfc3339("2000-02-29T00:00:00Z").is_some());
    assert!(Utc::parse_rfc3339("2023-04-30T00:00:00Z").is_some());
    assert!(Utc::parse_rfc3339("2023-12-31T23:59:59Z").is_some());
}

#[test]
fn range_ends_round_trip() {
    for t in [0i64, 86399, 951782400, 253402300799] {
        assert_eq!(Utc::parse_rfc3339(&Utc(t).to_rfc3339()), Some(Utc(t)));
    }
    assert_eq!(Utc(253402300799).to_rfc3339(), "9999-12-31T23:59:59Z");
}
