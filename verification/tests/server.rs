use necrometer::http_server::{
    parse_header_line, parse_request_line, reason_phrase, response_head, HeaderLine, RateLimiter, Response,
    WINDOW_NANOS,
};

#[test]
fn rate_limiter() {
    let mut rl = RateLimiter::new(3);
    assert!(rl.allow("a"));
    assert!(rl.allow("a"));
    assert!(rl.allow("a"));
    assert!(!rl.allow("a"));
    assert!(rl.allow("b"));
}

#[test]
fn window_reopens_after_a_minute() {
    let mut rl = RateLimiter::new(2);
    assert!(rl.allow_at("ip", 0));
    assert!(rl.allow_at("ip", 10));
    assert!(!rl.allow_at("ip", WINDOW_NANOS - 1));
    assert!(rl.allow_at("ip", WINDOW_NANOS));
    assert!(rl.allow_at("other", WINDOW_NANOS));
    let mut none = RateLimiter::new(0);
    assert!(!none.allow_at("ip", 5));
}

#[test]
fn builders() {
    let r = Response::html("<p>x</p>");
    assert_eq!(r.status, 200);
    assert_eq!(r.headers, vec![("Content-Type".to_string(), "text/html; charset=utf-8".to_string())]);
    assert_eq!(r.body, b"<p>x</p>".to_vec());
    let r = Response::redirect("/u/x");
    assert_eq!((r.status, r.headers[0].1.as_str(), r.body.len()), (302, "/u/x", 0));
    assert_eq!(Response::not_found().body, b"not found".to_vec());
    assert_eq!(Response::bad_request().status, 400);
    assert_eq!(Response::too_many().body, b"slow down".to_vec());
    assert_eq!(Response::svg("s").headers[0].1, "image/svg+xml; charset=utf-8");
    assert_eq!(Response::plain("p").headers[0].1, "text/plain; charset=utf-8");
}

#[test]
fn request_lines_and_heads() {
    let (m, p, q) = parse_request_line("GET /go?subject=x&y=1 HTTP/1.1\r\n");
    assert_eq!((m.as_str(), p.as_str(), q.as_str()), ("GET", "/go", "subject=x&y=1"));
    let (m, p, q) = parse_request_line("GET\r\n");
    assert_eq!((m.as_str(), p.as_str(), q.as_str()), ("GET", "", ""));
    match parse_header_line("Host:  example.com \r\n") {
        HeaderLine::Field(k, v) => assert_eq!((k.as_str(), v.as_str()), ("Host", "example.com")),
        _ => panic!(),
    }
    assert!(matches!(parse_header_line("\r\n"), HeaderLine::End));
    assert!(matches!(parse_header_line("junk\r\n"), HeaderLine::Other));
    assert_eq!(reason_phrase(429), "Too Many Requests");
    assert_eq!(reason_phrase(502), "OK");
    let head = response_head(&Response::plain("hello"));
    assert_eq!(
        head,
        "HTTP/1.1 200 OK\r\nContent-Length: 5\r\nContent-Type: text/plain; charset=utf-8\r\nConnection: close\r\n\r\n"
    );
}

#[test]
fn each_window_admits_at_most_the_limit() {
    let mut rl = RateLimiter::new(2);
    let s = 1_000_000_000u64;
    let times = [0, 10 * s, 20 * s, 59 * s, 60 * s, 61 * s, 62 * s, 130 * s];
    let got: Vec<bool> = times.iter().map(|&t| rl.allow_at("ip", t)).collect();
    assert_eq!(got, vec![true, true, false, false, true, true, false, true]);
    assert!(rl.allow_at("other", 62 * s));
    let mut live = RateLimiter::new(1);
    assert!(live.allow("a"));
    assert!(!live.allow("a"));
    assert!(live.allow("b"));
}
