//! The SVG chassis: the opening `<svg>` tag, the `<defs>` (embedded
//! font, scanlines, gradients, glow filters), the bezel and CRT screen,
//! and the watermark.

use vstd::prelude::*;
use super::palette::{FONT, Palette};
use crate::text::{push_str, string_of};
use crate::time::{trim, trim_str};

verus! {

pub const SVG_OPEN_A: &'static str = "<svg xmlns=\"http://www.w3.org/2000/svg\" width=\"495\" height=\"195\" viewBox=\"0 0 495 195\" font-family=\"";
pub const FONT_FACE_A: &'static str = "@font-face { font-family: 'Creepster'; font-style: normal; font-weight: 400; src: url(data:font/woff2;charset=utf-8;base64,";
pub const FONT_FACE_B: &'static str = ") format('woff2'); }\n";
/// Everything in `<defs>` after the font: scanline pattern, vignette and
/// screen-glow gradients, and the violet, phosphor, blood and candle glows.
pub const DEFS_TAIL: &'static str = "</style><pattern id=\"scanlines\" width=\"100%\" height=\"3\" patternUnits=\"userSpaceOnUse\"><line x1=\"0\" y1=\"0\" x2=\"100%\" y2=\"0\" stroke=\"#000000\" stroke-width=\"1\" opacity=\"0.22\"/></pattern><radialGradient id=\"crt-vignette\" cx=\"50%\" cy=\"45%\" r=\"65%\"><stop offset=\"65%\" stop-color=\"#000000\" stop-opacity=\"0\"/><stop offset=\"100%\" stop-color=\"#000000\" stop-opacity=\"0.55\"/></radialGradient><radialGradient id=\"screen-glow\" cx=\"50%\" cy=\"35%\" r=\"70%\"><stop offset=\"0%\" stop-color=\"#19122a\" stop-opacity=\"0.6\"/><stop offset=\"100%\" stop-color=\"#0c0a16\" stop-opacity=\"1\"/></radialGradient><filter id=\"glow-violet\" x=\"-20%\" y=\"-20%\" width=\"140%\" height=\"140%\"><feDropShadow dx=\"0\" dy=\"0\" stdDeviation=\"2.5\" flood-color=\"#b78cff\" flood-opacity=\"0.55\"/></filter><filter id=\"glow-phos\" x=\"-20%\" y=\"-20%\" width=\"140%\" height=\"140%\"><feDropShadow dx=\"0\" dy=\"0\" stdDeviation=\"2.5\" flood-color=\"#7dffa8\" flood-opacity=\"0.55\"/></filter><filter id=\"glow-blood\" x=\"-20%\" y=\"-20%\" width=\"140%\" height=\"140%\"><feDropShadow dx=\"0\" dy=\"0\" stdDeviation=\"2.5\" flood-color=\"#ff5470\" flood-opacity=\"0.55\"/></filter><filter id=\"glow-candle\" x=\"-20%\" y=\"-20%\" width=\"140%\" height=\"140%\"><feDropShadow dx=\"0\" dy=\"0\" stdDeviation=\"2.5\" flood-color=\"#e8b34b\" flood-opacity=\"0.55\"/></filter></defs>";
pub const SCREEN: &'static str = "<rect x=\"8\" y=\"8\" width=\"479\" height=\"179\" rx=\"5\" fill=\"url(#screen-glow)\"/><rect x=\"8\" y=\"8\" width=\"479\" height=\"179\" rx=\"5\" class=\"crt-scanlines\" pointer-events=\"none\"/><rect x=\"8\" y=\"8\" width=\"479\" height=\"179\" rx=\"5\" class=\"crt-vignette\" pointer-events=\"none\"/>";

/// The opening tag: 495 by 195, in the card's sans-serif stack.
pub open spec fn svg_open_text() -> Seq<char> {
    SVG_OPEN_A@ + FONT@ + "\">"@
}

/// The `<defs>` with the font whose base64 text is `font_b64`, trimmed.
pub open spec fn defs_text(font_b64: Seq<char>) -> Seq<char> {
    "<defs><style>"@ + FONT_FACE_A@ + trim(font_b64) + FONT_FACE_B@ + DEFS_TAIL@
}

/// The bezel in the palette's background and border, the inner panel
/// and the screen.
pub open spec fn chassis_text(p: Palette) -> Seq<char> {
    "<rect width=\"495\" height=\"195\" rx=\"10\" fill=\""@ + p.bg@ + "\" stroke=\""@ + p.border@ + "\" stroke-width=\"1.5\"/>"@ + "<rect x=\"5\" y=\"5\" width=\"485\" height=\"185\" rx=\"7\" fill=\""@ + p.panel@ + "\" stroke=\"#231c34\" stroke-width=\"1\"/>"@ + SCREEN@
}

/// `necrometer.dev` in the palette's dim colour.
pub open spec fn watermark_text(p: Palette) -> Seq<char> {
    "<text x=\"483\" y=\"185\" text-anchor=\"end\" font-size=\"10\" fill=\""@ + p.dim@ + "\">necrometer.dev</text>"@
}

/// The opening tag: 495 by 195, in the card's sans-serif stack.
pub fn svg_open() -> (s: String)
    ensures
        s@ == svg_open_text(),
{
    let mut s = string_of(SVG_OPEN_A);
    push_str(&mut s, FONT);
    push_str(&mut s, "\">");
    s
}

/// The `<defs>`, embedding the Creepster font from its base64 text
/// `font_b64` (trimmed).
pub fn defs(font_b64: &str) -> (s: String)
    ensures
        s@ == defs_text(font_b64@),
{
    let mut s = string_of("<defs><style>");
    push_str(&mut s, FONT_FACE_A);
    push_str(&mut s, trim_str(font_b64));
    push_str(&mut s, FONT_FACE_B);
    push_str(&mut s, DEFS_TAIL);
    s
}

/// The bezel, the inner panel and the screen with its scanlines and
/// vignette.
pub fn chassis(p: &Palette) -> (s: String)
    ensures
        s@ == chassis_text(*p),
{
    let mut s = string_of("<rect width=\"495\" height=\"195\" rx=\"10\" fill=\"");
    push_str(&mut s, p.bg);
    push_str(&mut s, "\" stroke=\"");
    push_str(&mut s, p.border);
    push_str(&mut s, "\" stroke-width=\"1.5\"/>");
    push_str(&mut s, "<rect x=\"5\" y=\"5\" width=\"485\" height=\"185\" rx=\"7\" fill=\"");
    push_str(&mut s, p.panel);
    push_str(&mut s, "\" stroke=\"#231c34\" stroke-width=\"1\"/>");
    push_str(&mut s, SCREEN);
    s
}

/// `necrometer.dev` in the bottom-right corner.
pub fn watermark(p: &Palette) -> (s: String)
    ensures
        s@ == watermark_text(*p),
{
    let mut s = string_of("<text x=\"483\" y=\"185\" text-anchor=\"end\" font-size=\"10\" fill=\"");
    push_str(&mut s, p.dim);
    push_str(&mut s, "\">necrometer.dev</text>");
    s
}

} // verus!
