use necrometer::github::client::{
    FetchError, head, own_login_is, page_result, page_url, pick_token, probe_says_org, repos_endpoint,
    retry_as_user, user_repos_endpoint,
};
use necrometer::github::pages::{collect_pages, collect_pages_upto};
use necrometer::github::routes::{is_valid_subject, SubjectKind};
use necrometer::github::status::{classify_status, fetch_error, kind_from_user_doc, ProbeKind, StatusClass};
use necrometer::github::{parse_repos, Repo};
use necrometer::time::Utc;

#[test]
fn parses_github_repo() {
    let raw = r#"[{
        "name":"hello",
        "pushed_at":"2024-06-01T00:00:00Z",
        "created_at":"2023-01-01T00:00:00Z",
        "archived":false,"fork":false,"stargazers_count":7,
        "html_url":"https://github.com/x/hello"
    }]"#;
    let rs = parse_repos(raw).unwrap();
    assert_eq!(rs.len(), 1);
    assert_eq!(rs[0].name, "hello");
    assert_eq!(rs[0].stargazers_count, 7);
    assert!(rs[0].pushed_at.is_some());
}

#[test]
fn born_dead_when_no_pushed_at() {
    let raw = r#"[{"name":"x","pushed_at":null,"created_at":"2023-01-01T00:00:00Z","archived":false,"fork":false,"stargazers_count":0,"html_url":""}]"#;
    let rs = parse_repos(raw).unwrap();
    assert!(rs[0].pushed_at.is_none());
}

#[test]
fn repo_errors_name_the_missing_field() {
    assert_eq!(parse_repos("{}").unwrap_err().message(), "json: expected array");
    assert_eq!(parse_repos("[{\"created_at\":\"2023-01-01T00:00:00Z\"}]").unwrap_err().message(), "json: missing name");
    assert_eq!(parse_repos("[{\"name\":\"a\"}]").unwrap_err().message(), "json: missing created_at");
    assert_eq!(parse_repos("[{\"name\":\"a\",\"created_at\":\"yesterday\"}]").unwrap_err().message(), "json: bad created_at");
    let rs = parse_repos("[{\"name\":\"a\",\"created_at\":\"2023-01-01T00:00:00Z\",\"stargazers_count\":-3}]").unwrap();
    assert_eq!(rs[0].stargazers_count, 0);
    assert!(!rs[0].archived && !rs[0].fork);
    assert_eq!(rs[0].html_url, "");
}

#[test]
fn kind_prefix() {
    assert_eq!(SubjectKind::User.prefix(), "u");
    assert_eq!(SubjectKind::Org.prefix(), "org");
}

#[test]
fn valid() {
    assert!(is_valid_subject("torvalds"));
    assert!(is_valid_subject("rust-lang"));
    assert!(!is_valid_subject(""));
    assert!(!is_valid_subject("-leading"));
    assert!(!is_valid_subject("trailing-"));
    assert!(!is_valid_subject("dou--ble"));
    assert!(!is_valid_subject("with/slash"));
    assert!(!is_valid_subject(&"a".repeat(40)));
}

#[test]
fn rate_limit_is_not_missing_user() {
    for s in [403_u16, 429] {
        let e = fetch_error(s, "https://api.github.com/users/x/repos", "");
        let msg = e.message();
        assert!(!msg.contains("no such user"), "{msg}");
        assert!(msg.to_lowercase().contains("rate limit"), "{msg}");
    }
}

#[test]
fn four_oh_four_is_missing() {
    let e = fetch_error(404, "https://api.github.com/users/nope", "");
    assert!(e.message().contains("no such user"));
}

#[test]
fn org_from_type_field() {
    let k = kind_from_user_doc(r#"{"login":"rust-lang","type":"Organization"}"#, "rust-lang", None);
    assert_eq!(k, ProbeKind::Org);
    assert_eq!(k.subject_kind(), SubjectKind::Org);
}

#[test]
fn user_from_type_field() {
    let k = kind_from_user_doc(r#"{"login":"torvalds","type":"User"}"#, "torvalds", None);
    assert_eq!(k, ProbeKind::User);
    assert_eq!(k.subject_kind(), SubjectKind::User);
}

#[test]
fn self_user_when_login_matches_token() {
    let k = kind_from_user_doc(r#"{"login":"me","type":"User"}"#, "me", Some("me"));
    assert_eq!(k, ProbeKind::SelfUser);
    assert_eq!(k.subject_kind(), SubjectKind::User);
}

#[test]
fn status_classes_and_messages() {
    assert_eq!(classify_status(204), StatusClass::Success);
    assert_eq!(classify_status(404), StatusClass::NotFound);
    assert_eq!(classify_status(500), StatusClass::Other(500));
    assert_eq!(fetch_error(200, "u", "").message(), "github: unexpected ok on u");
    let long = "x".repeat(250);
    let e = fetch_error(502, "https://h/p", &long);
    assert_eq!(e.message(), format!("github: GET https://h/p -> 502: {}", "x".repeat(200)));
    assert_eq!(head("short"), "short");
    assert_eq!(head(&"é".repeat(201)).chars().count(), 200);
}

#[test]
fn self_login_ignores_ascii_case_and_bad_documents() {
    assert_eq!(kind_from_user_doc(r#"{"type":"User"}"#, "Me", Some("mE")), ProbeKind::SelfUser);
    assert_eq!(kind_from_user_doc("not json", "me", Some("me")), ProbeKind::User);
}

#[test]
fn endpoints_and_page_urls() {
    assert_eq!(repos_endpoint(ProbeKind::Org, "rust-lang"), "https://api.github.com/orgs/rust-lang/repos?type=all");
    assert_eq!(repos_endpoint(ProbeKind::User, "x"), "https://api.github.com/users/x/repos");
    assert_eq!(
        repos_endpoint(ProbeKind::SelfUser, "x"),
        "https://api.github.com/user/repos?visibility=all&affiliation=owner"
    );
    assert_eq!(user_repos_endpoint("y"), "https://api.github.com/users/y/repos");
    assert_eq!(page_url("https://a/b", 3), "https://a/b?per_page=100&page=3");
    assert_eq!(page_url("https://a/b?type=all", 12), "https://a/b?type=all&per_page=100&page=12");
    assert!(retry_as_user(ProbeKind::Org, &FetchError::NotFound("u".into())));
    assert!(!retry_as_user(ProbeKind::User, &FetchError::NotFound("u".into())));
    assert!(!retry_as_user(ProbeKind::Org, &FetchError::Upstream("u".into())));
}

#[test]
fn token_and_probe_decisions() {
    let cands = vec![None, Some("  ".to_string()), Some(" tok ".to_string()), Some("later".to_string())];
    assert_eq!(pick_token(&cands), Some("tok".to_string()));
    assert_eq!(pick_token(&vec![None, Some("".to_string())]), None);
    assert!(probe_says_org(200, r#"{"type":"Organization"}"#));
    assert!(!probe_says_org(404, r#"{"type":"Organization"}"#));
    assert!(!probe_says_org(200, r#"{"type":"User"}"#));
    assert!(own_login_is(200, r#"{"login":"Torvalds"}"#, "torvalds"));
    assert!(!own_login_is(200, r#"{"login":"someone"}"#, "torvalds"));
}

#[test]
fn page_results() {
    match page_result("u", 404, "") {
        Err(FetchError::NotFound(u)) => assert_eq!(u, "u"),
        _ => panic!(),
    }
    match page_result("u", 500, "boom") {
        Err(FetchError::Upstream(m)) => assert_eq!(m, "GET u -> 500: boom"),
        _ => panic!(),
    }
    match page_result("u", 200, "{}") {
        Err(FetchError::Upstream(m)) => assert_eq!(m, "json: expected array"),
        _ => panic!(),
    }
    let ok = page_result("u", 200, r#"[{"name":"a","created_at":"2023-01-01T00:00:00Z"}]"#).unwrap();
    assert_eq!(ok.len(), 1);
}

fn n_repos(n: usize, prefix: &str) -> Vec<Repo> {
    let t = Utc::parse_rfc3339("2024-01-01T00:00:00Z").unwrap();
    (0..n)
        .map(|i| Repo {
            name: format!("{prefix}{i}"),
            pushed_at: Some(t),
            created_at: t,
            archived: false,
            fork: false,
            stargazers_count: 0,
            html_url: String::new(),
        })
        .collect()
}

#[test]
fn walks_past_one_thousand() {
    let get = |p: u32| -> Result<Vec<Repo>, FetchError> {
        if p <= 12 {
            Ok(n_repos(100, &format!("p{p}-")))
        } else if p == 13 {
            Ok(n_repos(50, "tail-"))
        } else {
            panic!("fetched page {p} after a short page");
        }
    };
    let repos = collect_pages(get).unwrap();
    assert_eq!(repos.len(), 1250);
    assert!(repos.len() > 1000);
}

#[test]
fn stops_on_short_first_page() {
    let get = |p: u32| {
        assert_eq!(p, 1);
        Ok(n_repos(3, "x"))
    };
    assert_eq!(collect_pages(get).unwrap().len(), 3);
}

#[test]
fn rate_limit_fails_the_walk() {
    let get = |p: u32| {
        if p == 1 {
            Ok(n_repos(100, "a"))
        } else {
            Err(FetchError::Upstream("GitHub rate limit hit".into()))
        }
    };
    let e = collect_pages(get).unwrap_err();
    assert!(!e.message().contains("no such user"));
}

#[test]
fn walk_order_caps_and_missing_pages() {
    let full = |p: u32| -> Result<Vec<Repo>, FetchError> { Ok(n_repos(100, &format!("p{p}-"))) };
    let all = collect_pages(full).unwrap();
    assert_eq!(all.len(), 3000);
    assert_eq!(all[0].name, "p1-0");
    assert_eq!(all[2999].name, "p30-99");
    let ten = collect_pages_upto(full, 10).unwrap();
    assert_eq!(ten.len(), 1000);
    let gap = |p: u32| -> Result<Vec<Repo>, FetchError> {
        if p == 3 { Err(FetchError::NotFound("gone".into())) } else { Ok(n_repos(100, &format!("p{p}-"))) }
    };
    // the batch 2..=5 is read whole; the missing page ends the walk after it
    assert_eq!(collect_pages(gap).unwrap().len(), 400);
}

#[test]
fn truncated_repo_list_is_an_error() {
    assert!(parse_repos("[{\"name\":").is_err());
    match page_result("u", 200, "{") {
        Err(FetchError::Upstream(m)) => assert_eq!(m, "json: unexpected end of input"),
        _ => panic!("expected an upstream failure"),
    }
    assert!(!probe_says_org(200, "{\"type\":"));
    assert!(!own_login_is(200, "{", "x"));
    assert_eq!(kind_from_user_doc("{\"type\": \"Organization\"", "x", None), ProbeKind::User);
}
