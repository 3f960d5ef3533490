use necrometer::github::client::FetchError;
use necrometer::http_server::Request;
use necrometer::metrics::{Corpse, Fate, Reading, SubjectKind};
use necrometer::time::Utc;
use necrometer::web::headers::{html_response, svg_response};
use necrometer::web::pages::{landing, not_found, page, subject_page, upstream_error};
use necrometer::web::{
    cache_fresh, cache_key, failure_response, handle_go, is_limited, kind_str, route_of, subject_target, Route,
};

#[test]
fn key_disambiguates() {
    let a = format!("{}:foo", SubjectKind::User.prefix());
    let b = format!("{}:foo", SubjectKind::Org.prefix());
    assert_ne!(a, b);
}

#[test]
fn landing_mentions_input() {
    assert!(landing().contains("subject"));
}

#[test]
fn not_found_echoes_msg() {
    let p = not_found("hello");
    assert!(p.contains("hello"));
}

fn req(path: &str, query: &str) -> Request {
    Request {
        method: "GET".into(),
        path: path.into(),
        query: query.into(),
        headers: vec![],
        peer: "1.2.3.4".into(),
    }
}

#[test]
fn pages_escape_what_they_echo() {
    let p = page("a<b", "<i>body</i>");
    assert!(p.contains("<title>a&lt;b</title>"));
    assert!(p.contains("<main><i>body</i></main>"));
    assert!(not_found("<script>").contains("&lt;script&gt;"));
    assert!(upstream_error().contains("github is not answering"));
}

#[test]
fn routes() {
    assert!(matches!(route_of("/"), Route::Landing));
    assert!(matches!(route_of(""), Route::Landing));
    assert!(matches!(route_of("/healthz"), Route::Health));
    assert!(matches!(route_of("/go"), Route::Go));
    assert!(matches!(route_of("/go?subject=x"), Route::Go));
    match route_of("/org/rust-lang.svg") {
        Route::Subject(rest, kind) => assert_eq!((rest.as_str(), kind), ("rust-lang.svg", SubjectKind::Org)),
        _ => panic!(),
    }
    assert!(matches!(route_of("/gopher"), Route::NotFound));
    assert!(is_limited("/u/x") && is_limited("/org/x") && is_limited("/gopher"));
    assert!(!is_limited("/healthz"));
}

#[test]
fn go_redirects_valid_subjects() {
    let r = handle_go(&req("/go", "x=1&subject= torvalds &subject=other"));
    assert_eq!(r.status, 302);
    assert_eq!(r.headers[0].1, "/u/torvalds");
    assert_eq!(handle_go(&req("/go", "subject=bad--name")).status, 400);
    assert_eq!(handle_go(&req("/go", "")).status, 400);
}

#[test]
fn subject_paths_and_failures() {
    assert_eq!(subject_target("torvalds.svg"), Some(("torvalds".to_string(), true)));
    assert_eq!(subject_target("torvalds"), Some(("torvalds".to_string(), false)));
    assert_eq!(subject_target("bad..svg"), None);
    assert_eq!(kind_str(SubjectKind::Org), "org");
    assert_eq!(cache_key(SubjectKind::Org, "foo"), "org:foo");
    assert!(cache_fresh(299) && !cache_fresh(300) && !cache_fresh(14399));
    let nf = failure_response(&FetchError::NotFound("x".into()), SubjectKind::User);
    assert_eq!(nf.status, 200);
    assert!(String::from_utf8(nf.body).unwrap().contains("no such user: x"));
    assert_eq!(failure_response(&FetchError::Upstream("e".into()), SubjectKind::Org).status, 502);
}

#[test]
fn security_headers() {
    let r = html_response("<p/>".to_string());
    let names: Vec<&str> = r.headers.iter().map(|(k, _)| k.as_str()).collect();
    assert_eq!(
        names,
        vec!["Content-Type", "Cache-Control", "X-Content-Type-Options", "Referrer-Policy", "X-Frame-Options", "Content-Security-Policy"]
    );
    let s = svg_response("<svg/>".to_string());
    assert_eq!(s.headers[1].1, "public, max-age=14400");
}

#[test]
fn subject_page_lists_the_dead() {
    let now = Utc(0);
    let corpse = |name: &str, fate: Fate, stillborn: bool| Corpse {
        name: name.into(),
        url: format!("https://github.com/x/{name}"),
        created_at: now,
        last_activity: now,
        days_idle: 400,
        stars: 3,
        fate,
        stillborn,
    };
    let r = Reading {
        subject: "x".into(),
        kind: SubjectKind::User,
        index: 50,
        title: "Serial Starter".into(),
        flavor: "f".into(),
        counts: [1, 0, 1, 0, 0],
        total: 2,
        stars_stranded: 3,
        oldest_corpse: None,
        stillborn: 1,
        days_since_any_push: Some(1),
        low_sample: true,
        entries: vec![corpse("live<1>", Fate::Alive, false), corpse("gone", Fate::Cold, true)],
    };
    let p = subject_page(&r);
    assert!(p.contains("<h1>@x</h1>"));
    assert!(p.contains("50% necrotic — Serial Starter"));
    assert!(p.contains("2 repos examined · 3 stars stranded · 1 stillborn"));
    assert!(p.contains("<tr class=\"fate-cold\"><td><a href=\"https://github.com/x/gone\">gone</a> <span class=\"stillborn\">stillborn</span></td><td>400d</td>"));
    assert!(!p.contains("live"));
    assert!(p.contains("[![Necrometer](https://necrometer.dev/u/x.svg)](https://necrometer.dev/u/x)"));
}

#[test]
fn cache_keys_keep_kinds_apart() {
    assert_ne!(cache_key(SubjectKind::User, "foo"), cache_key(SubjectKind::Org, "foo"));
    assert_eq!(cache_key(SubjectKind::User, "foo"), "u:foo");
}
