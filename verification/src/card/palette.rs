//! The card's colours and canvas: the fixed palette, and the gauge's
//! zone colours, accent and needle, which fade toward grey as the index
//! rises. Colours are HSL converted to `#rrggbb` in exact arithmetic.

use vstd::prelude::*;
use crate::json::value::{hex_digit, hex_digit_char};
use crate::text::{push_char, string_of};

verus! {

pub const FONT: &'static str = "-apple-system, BlinkMacSystemFont, 'Segoe UI', Roboto, Ubuntu, Cantarell, 'Noto Sans', Helvetica, Arial, sans-serif";
pub const FONT_CREEPSTER: &'static str = "'Creepster', cursive, -apple-system, BlinkMacSystemFont, sans-serif";
pub const FONT_MONO: &'static str = "'VT323', ui-monospace, SFMono-Regular, Menlo, Monaco, Consolas, monospace";
pub const FONT_SERIF: &'static str = "'IM Fell English', Georgia, 'Times New Roman', serif";
pub const CANVAS_W: i32 = 495;
pub const CANVAS_H: i32 = 195;

pub struct Palette {
    pub bg: &'static str,
    pub panel: &'static str,
    pub inset: &'static str,
    pub border: &'static str,
    pub text: &'static str,
    pub dim: &'static str,
    pub violet: &'static str,
    pub phos: &'static str,
    pub blood: &'static str,
    pub candle: &'static str,
    pub accent: String,
    pub needle: String,
    pub zones: [String; 5],
}

pub open spec fn abs_diff(a: int, b: int) -> int {
    if a >= b { a - b } else { b - a }
}

/// One channel, 0 to 255, of HSL(`h` degrees, `s_cp` hundredths of a
/// percent saturation, `l_dp` tenths of a percent lightness), rounded
/// half up. `which` picks red, green or blue (0, 1, 2). With chroma
/// c = (1 - |2l - 1|)·s, the secondary x = c·(1 - |(h/60 mod 2) - 1|) and
/// m = l - c/2, the sector h/60 assigns (c, x, 0) to the channels in the
/// usual rotation; everything is kept over the denominator 6·10⁸.
pub open spec fn hsl_channel(h: int, s_cp: int, l_dp: int, which: int) -> int {
    let a = 1000 - abs_diff(2 * l_dp, 1000);
    let b = 60 - abs_diff(h % 120, 60);
    let c = 60 * a * s_cp;
    let x = a * s_cp * b;
    let m = 600000 * l_dp - 30 * a * s_cp;
    let sector = h / 60;
    let v = if sector == 0 {
        if which == 0 { c } else if which == 1 { x } else { 0 }
    } else if sector == 1 {
        if which == 0 { x } else if which == 1 { c } else { 0 }
    } else if sector == 2 {
        if which == 0 { 0 } else if which == 1 { c } else { x }
    } else if sector == 3 {
        if which == 0 { 0 } else if which == 1 { x } else { c }
    } else if sector == 4 {
        if which == 0 { x } else if which == 1 { 0 } else { c }
    } else {
        if which == 0 { c } else if which == 1 { 0 } else { x }
    };
    (510 * (v + m) + 600000000) / 1200000000
}

/// `#rrggbb` in lowercase hex.
pub open spec fn hex_color(r: int, g: int, b: int) -> Seq<char> {
    seq!['#', hex_digit((r / 16) as nat), hex_digit((r % 16) as nat), hex_digit((g / 16) as nat),
        hex_digit((g % 16) as nat), hex_digit((b / 16) as nat), hex_digit((b % 16) as nat)]
}

pub open spec fn hsl_text(h: int, s_cp: int, l_dp: int) -> Seq<char> {
    hex_color(hsl_channel(h, s_cp, l_dp, 0), hsl_channel(h, s_cp, l_dp, 1), hsl_channel(h, s_cp, l_dp, 2))
}

fn channel(h: u64, s_cp: u64, l_dp: u64, which: u64) -> (r: u64)
    requires
        h < 360,
        s_cp <= 10000,
        l_dp <= 1000,
        which < 3,
    ensures
        r as int == hsl_channel(h as int, s_cp as int, l_dp as int, which as int),
        r <= 255,
{
    let a: u64 = if 2 * l_dp >= 1000 { 1000 - (2 * l_dp - 1000) } else { 1000 - (1000 - 2 * l_dp) };
    let hm = h % 120;
    let b: u64 = if hm >= 60 { 60 - (hm - 60) } else { 60 - (60 - hm) };
    assert(a <= 1000 && b <= 60);
    assert(a * s_cp <= 10000000) by (nonlinear_arith)
        requires
            a <= 1000,
            s_cp <= 10000,
    ;
    assert(a * s_cp * b <= 600000000) by (nonlinear_arith)
        requires
            a * s_cp <= 10000000,
            b <= 60,
    ;
    assert(30 * a * s_cp <= 600000 * l_dp) by (nonlinear_arith)
        requires
            a <= 2 * l_dp,
            s_cp <= 10000,
    ;
    assert(60 * a * s_cp <= 600000000 && a * s_cp * b <= 60 * a * s_cp) by (nonlinear_arith)
        requires
            a * s_cp <= 10000000,
            b <= 60,
    ;
    let c: u64 = 60 * a * s_cp;
    let x: u64 = a * s_cp * b;
    let m: u64 = 600000 * l_dp - 30 * a * s_cp;
    let sector = h / 60;
    let v: u64 = if sector == 0 {
        if which == 0 { c } else if which == 1 { x } else { 0 }
    } else if sector == 1 {
        if which == 0 { x } else if which == 1 { c } else { 0 }
    } else if sector == 2 {
        if which == 0 { 0 } else if which == 1 { c } else { x }
    } else if sector == 3 {
        if which == 0 { 0 } else if which == 1 { x } else { c }
    } else if sector == 4 {
        if which == 0 { x } else if which == 1 { 0 } else { c }
    } else {
        if which == 0 { c } else if which == 1 { 0 } else { x }
    };
    assert(v <= c);
    assert(60 * a * s_cp == 2 * (30 * a * s_cp) && 30 * a * s_cp <= 300000 * a) by (nonlinear_arith)
        requires
            s_cp <= 10000,
    ;
    assert(v + m <= 600000 * l_dp + 30 * a * s_cp);
    assert(v + m <= 600000000);
    let r = (510 * (v + m) + 600000000) / 1200000000;
    r
}

fn push_hex_byte(s: &mut String, v: u64)
    requires
        v <= 255,
    ensures
        final(s)@ == old(s)@ + seq![hex_digit((v / 16) as nat), hex_digit((v % 16) as nat)],
{
    push_char(s, hex_digit_char((v / 16) as u32));
    push_char(s, hex_digit_char((v % 16) as u32));
}

/// The `#rrggbb` text of HSL(`h`°, `s_cp`/100 %, `l_dp`/10 %).
pub fn hsl_hex(h: u64, s_cp: u64, l_dp: u64) -> (r: String)
    requires
        h < 360,
        s_cp <= 10000,
        l_dp <= 1000,
    ensures
        r@ == hsl_text(h as int, s_cp as int, l_dp as int),
{
    let red = channel(h, s_cp, l_dp, 0);
    let green = channel(h, s_cp, l_dp, 1);
    let blue = channel(h, s_cp, l_dp, 2);
    let mut r = string_of("#");
    push_hex_byte(&mut r, red);
    push_hex_byte(&mut r, green);
    push_hex_byte(&mut r, blue);
    proof {
        reveal_strlit("#");
    }
    assert(r@ =~= hsl_text(h as int, s_cp as int, l_dp as int));
    r
}

/// How much colour is left at `index`: 100 at 0, none from 100 on.
pub open spec fn saturation(index: u8) -> int {
    if index >= 100 { 0 } else { 100 - index }
}

pub open spec fn accent_text(index: u8) -> Seq<char> {
    let t = saturation(index);
    if index >= 80 {
        hsl_text(350, 85 * t, 660)
    } else if index >= 50 {
        hsl_text(38, 85 * t, 600)
    } else if index >= 20 {
        hsl_text(263, 90 * t, 770)
    } else {
        hsl_text(140, 85 * t, 745)
    }
}

pub open spec fn needle_text(index: u8) -> Seq<char> {
    if index >= 60 { "#e8e4d8"@ } else { hsl_text(350, 85 * saturation(index), 660) }
}

/// The gauge's five zones, from alive green to buried red.
pub open spec fn zone_text(index: u8, i: int) -> Seq<char> {
    let t = saturation(index);
    if i == 0 {
        hsl_text(140, 100 * t, 745)
    } else if i == 1 {
        hsl_text(101, 100 * t, 745)
    } else if i == 2 {
        hsl_text(40, 78 * t, 600)
    } else if i == 3 {
        hsl_text(20, 100 * t, 665)
    } else {
        hsl_text(350, 100 * t, 665)
    }
}

/// `p` is the palette for a reading of `index`: fixed background, panel, text
/// and glow colours; zones, accent and needle whose saturation falls
/// from full at index 0 to none at 100 (the needle turns bone white
/// from 60 on).
pub open spec fn is_palette(p: Palette, index: u8) -> bool {
    &&& p.bg@ == "#0a0812"@
    &&& p.panel@ == "#14101f"@
    &&& p.inset@ == "#0c0a16"@
    &&& p.border@ == "#322a4d"@
    &&& p.text@ == "#e8e4d8"@
    &&& p.dim@ == "#8a80a8"@
    &&& p.violet@ == "#b78cff"@
    &&& p.phos@ == "#7dffa8"@
    &&& p.blood@ == "#ff5470"@
    &&& p.candle@ == "#e8b34b"@
    &&& p.accent@ == accent_text(index)
    &&& p.needle@ == needle_text(index)
    &&& forall|i: int| 0 <= i < 5 ==> #[trigger] p.zones@[i]@ == zone_text(index, i)
}

/// The palette for a reading of `index`.
pub fn palette(index: u8) -> (p: Palette)
    ensures
        is_palette(p, index),
{
    let t: u64 = if index >= 100 { 0 } else { 100 - index as u64 };
    let zones = [
        hsl_hex(140, 100 * t, 745),
        hsl_hex(101, 100 * t, 745),
        hsl_hex(40, 78 * t, 600),
        hsl_hex(20, 100 * t, 665),
        hsl_hex(350, 100 * t, 665),
    ];
    let accent = if index >= 80 {
        hsl_hex(350, 85 * t, 660)
    } else if index >= 50 {
        hsl_hex(38, 85 * t, 600)
    } else if index >= 20 {
        hsl_hex(263, 90 * t, 770)
    } else {
        hsl_hex(140, 85 * t, 745)
    };
    let needle = if index >= 60 { string_of("#e8e4d8") } else { hsl_hex(350, 85 * t, 660) };
    Palette {
        bg: "#0a0812",
        panel: "#14101f",
        inset: "#0c0a16",
        border: "#322a4d",
        text: "#e8e4d8",
        dim: "#8a80a8",
        violet: "#b78cff",
        phos: "#7dffa8",
        blood: "#ff5470",
        candle: "#e8b34b",
        accent,
        needle,
        zones,
    }
}

} // verus!
