//! Response builders that add caching and security headers.

use vstd::prelude::*;
use vstd::string::*;
use vstd::utf8::encode_utf8;
use crate::http_server::{Response, html_type, svg_type};
use crate::text::string_of;

verus! {

/// The headers of a response as pairs of character sequences.
pub open spec fn header_views(hs: Seq<(String, String)>) -> Seq<(Seq<char>, Seq<char>)> {
    hs.map_values(|h: (String, String)| (h.0@, h.1@))
}

pub open spec fn csp_text() -> Seq<char> {
    "default-src 'self'; script-src 'self' 'unsafe-inline'; style-src 'self' 'unsafe-inline'; connect-src https://api.github.com; img-src 'self' data:; font-src 'self'"@
}

/// A card: cacheable for four hours, never sniffed.
pub fn svg_response(svg: String) -> (r: Response)
    ensures
        r.status == 200,
        r.body@ == encode_utf8(svg@),
        header_views(r.headers@) == seq![
            ("Content-Type"@, svg_type()),
            ("Cache-Control"@, "public, max-age=14400"@),
            ("X-Content-Type-Options"@, "nosniff"@),
        ],
{
    let mut r = Response::svg(svg.as_str());
    r.headers.push((string_of("Cache-Control"), string_of("public, max-age=14400")));
    r.headers.push((string_of("X-Content-Type-Options"), string_of("nosniff")));
    assert(header_views(r.headers@) =~= seq![
        ("Content-Type"@, svg_type()),
        ("Cache-Control"@, "public, max-age=14400"@),
        ("X-Content-Type-Options"@, "nosniff"@),
    ]);
    r
}

/// A page: cacheable for five minutes, never sniffed, framed or sent
/// with a referrer, and held to a content security policy.
pub fn html_response(html: String) -> (r: Response)
    ensures
        r.status == 200,
        r.body@ == encode_utf8(html@),
        header_views(r.headers@) == seq![
            ("Content-Type"@, html_type()),
            ("Cache-Control"@, "public, max-age=300"@),
            ("X-Content-Type-Options"@, "nosniff"@),
            ("Referrer-Policy"@, "no-referrer"@),
            ("X-Frame-Options"@, "DENY"@),
            ("Content-Security-Policy"@, csp_text()),
        ],
{
    let mut r = Response::html(html.as_str());
    r.headers.push((string_of("Cache-Control"), string_of("public, max-age=300")));
    r.headers.push((string_of("X-Content-Type-Options"), string_of("nosniff")));
    r.headers.push((string_of("Referrer-Policy"), string_of("no-referrer")));
    r.headers.push((string_of("X-Frame-Options"), string_of("DENY")));
    r.headers.push((
        string_of("Content-Security-Policy"),
        string_of("default-src 'self'; script-src 'self' 'unsafe-inline'; style-src 'self' 'unsafe-inline'; connect-src https://api.github.com; img-src 'self' data:; font-src 'self'"),
    ));
    assert(header_views(r.headers@) =~= seq![
        ("Content-Type"@, html_type()),
        ("Cache-Control"@, "public, max-age=300"@),
        ("X-Content-Type-Options"@, "nosniff"@),
        ("Referrer-Policy"@, "no-referrer"@),
        ("X-Frame-Options"@, "DENY"@),
        ("Content-Security-Policy"@, csp_text()),
    ]);
    r
}

} // verus!
