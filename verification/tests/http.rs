use necrometer::http::parse::{
    find_subslice, parse_response, parse_url, response_complete, try_dechunk, try_parse_response,
};
use necrometer::http::{finish_read, hangup_from, head_received, is_tls_hangup, read_step, ReadEvent, ReadStep};
use std::io::Read;

#[test]
fn http_url_split() {
    let (h, p, pa) = parse_url("https://api.github.com/users/foo/repos?per_page=100").unwrap();
    assert_eq!(h, "api.github.com");
    assert_eq!(p, 443);
    assert_eq!(pa, "/users/foo/repos?per_page=100");
}

#[test]
fn parse_url_split() {
    let (h, p, pa) = parse_url("https://api.github.com/users/foo/repos?per_page=100").unwrap();
    assert_eq!(h, "api.github.com");
    assert_eq!(p, 443);
    assert_eq!(pa, "/users/foo/repos?per_page=100");
}

#[test]
fn complete_on_content_length() {
    let raw = b"HTTP/1.1 200 OK\r\nContent-Length: 2\r\n\r\n{}";
    assert!(response_complete(raw));
    let short = b"HTTP/1.1 200 OK\r\nContent-Length: 5\r\n\r\n{}";
    assert!(!response_complete(short));
    let r = parse_response(raw).unwrap();
    assert_eq!(r.status, 200);
    assert_eq!(r.body, "{}");
}

#[test]
fn hangup_is_eof() {
    let e = std::io::Error::new(std::io::ErrorKind::UnexpectedEof, "close_notify");
    assert!(is_tls_hangup(&e));
    let e = std::io::Error::new(std::io::ErrorKind::WouldBlock, "nope");
    assert!(!is_tls_hangup(&e));
}

#[test]
fn url_ports_and_errors() {
    let (h, p, pa) = parse_url("https://example.com:8443").unwrap();
    assert_eq!((h.as_str(), p, pa.as_str()), ("example.com", 8443, "/"));
    assert_eq!(parse_url("http://example.com/").unwrap_err().message(), "http: only https supported");
    assert_eq!(parse_url("https://example.com:99999/").unwrap_err().message(), "http: bad port");
    assert_eq!(parse_url("https://example.com:+80/x").unwrap().1, 80);
}

#[test]
fn chunked_bodies_and_links() {
    let raw = b"HTTP/1.1 200 OK\r\nTransfer-Encoding: Chunked\r\nLink: <https://api.github.com/x?page=2>; rel=\"next\", <https://api.github.com/x?page=9>; rel=\"last\"\r\n\r\n4\r\nWiki\r\n5\r\npedia\r\n0\r\n\r\n";
    assert!(response_complete(raw));
    let r = parse_response(raw).unwrap();
    assert_eq!(r.body, "Wikipedia");
    assert_eq!(r.next.as_deref(), Some("https://api.github.com/x?page=2"));
    assert_eq!(try_dechunk(b"a\r\n0123456789\r\n0\r\n\r\n").unwrap().unwrap(), b"0123456789".to_vec());
    assert_eq!(try_dechunk(b"zz\r\n").unwrap().unwrap_err().message(), "http: bad chunk size");
    assert_eq!(try_dechunk(b"9\r\nabc").unwrap().unwrap_err().message(), "http: chunk overruns body");
    assert_eq!(try_dechunk(b"abc").unwrap().unwrap_err().message(), "http: bad chunk");
    assert!(try_dechunk(b"ffffffffffffffff\r\nabc").is_none());
}

#[test]
fn response_errors() {
    assert_eq!(parse_response(b"HTTP/1.1 200 OK\r\n").unwrap_err().message(), "http: no header terminator");
    assert_eq!(parse_response(b"HTTP/1.1\r\n\r\n").unwrap_err().message(), "http: no status");
    assert_eq!(parse_response(b"HTTP/1.1 abc OK\r\n\r\n").unwrap_err().message(), "http: bad status");
    assert_eq!(parse_response(b"\xff\xfe\r\n\r\n").unwrap_err().message(), "http: bad utf-8 in head");
    let r = try_parse_response(b"HTTP/1.1 404 Not Found\r\nContent-Length: 3\r\n\r\nabcdef").unwrap().unwrap();
    assert_eq!((r.status, r.body.as_str()), (404, "abc"));
    let lossy = parse_response(b"HTTP/1.1 200 OK\r\n\r\nok\xff").unwrap();
    assert_eq!(lossy.body, "ok\u{fffd}");
}

#[test]
fn read_loop_decisions() {
    assert_eq!(find_subslice(b"abcabc", b"ca"), Some(2));
    assert_eq!(find_subslice(b"abc", b""), None);
    assert!(head_received(b"x\r\n\r\n"));
    assert!(!head_received(b"x\r\n"));
    assert_eq!(finish_read(b"x\r\n".to_vec()).unwrap_err().message(), "http: truncated response");
    assert!(finish_read(b"x\r\n\r\ny".to_vec()).is_ok());
    assert!(hangup_from(false, "peer closed connection without sending TLS close_notify"));
    assert!(hangup_from(true, ""));
    assert!(!hangup_from(false, "connection reset"));
}

/// Drives the library's read loop over `r` as the client does.
fn drive(r: &mut impl Read, chunk: usize) -> Result<Vec<u8>, String> {
    let mut raw = Vec::new();
    let mut buf = vec![0u8; chunk];
    loop {
        let step = match r.read(&mut buf) {
            Ok(n) => read_step(&mut raw, ReadEvent::Read(buf[..n].to_vec())),
            Err(e) => {
                let ev = if is_tls_hangup(&e) { ReadEvent::Hangup } else { ReadEvent::Failed };
                match read_step(&mut raw, ev) {
                    ReadStep::Fail => return Err(e.to_string()),
                    s => s,
                }
            }
        };
        match step {
            ReadStep::More => {}
            ReadStep::Stop => break,
            ReadStep::Fail => return Err("failed".into()),
        }
    }
    finish_read(raw).map_err(|e| e.message())
}

#[test]
fn read_http_stops_at_content_length() {
    let payload = b"HTTP/1.1 200 OK\r\nContent-Length: 2\r\n\r\n{}TRAILING";
    let mut cur = std::io::Cursor::new(&payload[..]);
    let raw = drive(&mut cur, 4096).unwrap();
    let r = parse_response(&raw).unwrap();
    assert_eq!(r.body, "{}");
}

#[test]
fn read_steps() {
    let mut raw = Vec::new();
    assert_eq!(read_step(&mut raw, ReadEvent::Read(b"HTTP/1.1 200 OK\r\nContent-Length: 5\r\n\r\nab".to_vec())), ReadStep::More);
    assert_eq!(read_step(&mut raw, ReadEvent::Read(b"cde".to_vec())), ReadStep::Stop);
    assert!(raw.ends_with(b"\r\n\r\nabcde"));
    assert_eq!(read_step(&mut raw, ReadEvent::Read(Vec::new())), ReadStep::Stop);
    assert_eq!(read_step(&mut raw, ReadEvent::Hangup), ReadStep::Stop);
    assert_eq!(read_step(&mut raw, ReadEvent::Failed), ReadStep::Fail);
    let mut partial = b"HTTP/1.1 200".to_vec();
    assert_eq!(read_step(&mut partial, ReadEvent::Hangup), ReadStep::Fail);
    assert_eq!(partial, b"HTTP/1.1 200".to_vec());
}

#[test]
fn read_loop_in_small_chunks() {
    let payload = b"HTTP/1.1 404 Not Found\r\nContent-Length: 3\r\n\r\nnopeEXTRA";
    let mut cur = std::io::Cursor::new(&payload[..]);
    let raw = drive(&mut cur, 7).unwrap();
    let r = parse_response(&raw).unwrap();
    assert_eq!(r.status, 404);
    assert_eq!(r.body, "nop");
    let mut cut = std::io::Cursor::new(&b"HTTP/1.1 200 OK\r\nX: y"[..]);
    assert_eq!(drive(&mut cut, 4).unwrap_err(), "http: truncated response");
}

#[test]
fn link_takes_the_entry_marked_next() {
    let raw = b"HTTP/1.1 200 OK\r\nLink: <https://a/?page=1>; rel=prev, <https://a/?page=3>; rel=next\r\nContent-Length: 0\r\n\r\n";
    assert_eq!(parse_response(raw).unwrap().next, Some("https://a/?page=3".to_string()));
    let gh = b"HTTP/1.1 200 OK\r\nLink: <https://api.github.com/x?page=2>; rel=\"next\", <https://api.github.com/x?page=9>; rel=\"last\"\r\nContent-Length: 0\r\n\r\n";
    assert_eq!(parse_response(gh).unwrap().next, Some("https://api.github.com/x?page=2".to_string()));
    let none = b"HTTP/1.1 200 OK\r\nLink: <https://a/?page=1>; rel=prev, <https://a/?page=9>; rel=last\r\nContent-Length: 0\r\n\r\n";
    assert_eq!(parse_response(none).unwrap().next, None);
}
