use necrometer::escape::{esc_attr, esc_text, is_safe_out_path, is_valid_subject};

#[test]
fn text_escapes_basic() {
    assert_eq!(esc_text("a&b<c>d\"e"), "a&amp;b&lt;c&gt;d&quot;e");
}

#[test]
fn valid_subjects() {
    assert!(is_valid_subject("torvalds"));
    assert!(is_valid_subject("rust-lang"));
    assert!(is_valid_subject("a"));
    assert!(is_valid_subject("A-b-C-1"));
}

#[test]
fn invalid_subjects() {
    assert!(!is_valid_subject(""));
    assert!(!is_valid_subject("-leading"));
    assert!(!is_valid_subject("trailing-"));
    assert!(!is_valid_subject("dou--ble"));
    assert!(!is_valid_subject("with/slash"));
    assert!(!is_valid_subject("dot.dot"));
    assert!(!is_valid_subject(&"a".repeat(40)));
}

#[test]
fn safe_paths() {
    assert!(is_safe_out_path("out.svg"));
    assert!(is_safe_out_path("sub/dir/out.svg"));
    assert!(is_safe_out_path(".."));
    assert!(!is_safe_out_path("/etc/passwd"));
    assert!(!is_safe_out_path("ok\0bad"));
}

#[test]
fn shell_metacharacters_refused() {
    for p in ["a;b.svg", "x$(id).svg", "a|b", "a&b", "a`b`", "a<b", "a>b", "a(b", "a)b", "a\nb"] {
        assert!(!is_safe_out_path(p), "{p:?}");
    }
    assert!(is_safe_out_path("out-1_2.svg"));
}

#[test]
fn attr_escaping_matches_text_escaping() {
    assert_eq!(esc_attr("x=\"1\" & y<2>"), "x=&quot;1&quot; &amp; y&lt;2&gt;");
    assert_eq!(esc_text("it's"), "it's");
}

#[test]
fn subject_length_limits() {
    assert!(is_valid_subject(&"a".repeat(39)));
    assert!(!is_valid_subject(&"a".repeat(40)));
}

/// Decodes `&amp;`, `&lt;`, `&gt;` and `&quot;` left to right.
fn unescape(t: &str) -> String {
    let mut out = String::new();
    let mut rest = t;
    while let Some(c) = rest.chars().next() {
        let (ch, n) = if rest.starts_with("&amp;") {
            ('&', 5)
        } else if rest.starts_with("&lt;") {
            ('<', 4)
        } else if rest.starts_with("&gt;") {
            ('>', 4)
        } else if rest.starts_with("&quot;") {
            ('"', 6)
        } else {
            (c, c.len_utf8())
        };
        out.push(ch);
        rest = &rest[n..];
    }
    out
}

#[test]
fn escaping_round_trips() {
    for s in ["", "plain", "a & b", "<tag attr=\"v\">", "&amp; already", "it's ☠ &lt;", "&&<<>>\"\""] {
        let e = esc_text(s);
        assert_eq!(unescape(&e), s);
        assert!(!e.contains('<') && !e.contains('>') && !e.contains('"'));
    }
    assert_eq!(esc_text("it's fine"), "it's fine");
}
