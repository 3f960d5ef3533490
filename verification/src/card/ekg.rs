//! The heartbeat line at the bottom of the stats panel: fewer and
//! weaker beats as the index rises, a flat line from 90 on, ending in a
//! skull from 80 on, a beating heart under 15, a dot otherwise. The x
//! positions step by 140/24, 140/48 and 140/16 along the 140-wide line,
//! then by 140/12 until past its end, as accumulated in double precision.

use vstd::prelude::*;
use super::graveyard::{push_tenths, tenths};
use super::palette::Palette;
use crate::text::{push_str, string_of};

verus! {

/// Heartbeats drawn for an index: 4 under 30, 3 under 60, 2 under 80,
/// 1 under 90, none from 90 on.
pub open spec fn beats(index: u8) -> int {
    if index <= 29 { 4 } else if index <= 59 { 3 } else if index <= 79 { 2 } else if index <= 89 { 1 } else { 0 }
}

/// The `n`-th x position inside the beats, with one decimal.
pub open spec fn beat_x(n: int) -> Seq<char> {
    if n == 0 {
        "205.8"@
    } else if n == 1 {
        "208.8"@
    } else if n == 2 {
        "211.7"@
    } else if n == 3 {
        "214.6"@
    } else if n == 4 {
        "217.5"@
    } else if n == 5 {
        "226.2"@
    } else if n == 6 {
        "232.1"@
    } else if n == 7 {
        "235.0"@
    } else if n == 8 {
        "237.9"@
    } else if n == 9 {
        "240.8"@
    } else if n == 10 {
        "243.7"@
    } else if n == 11 {
        "252.5"@
    } else if n == 12 {
        "258.3"@
    } else if n == 13 {
        "261.2"@
    } else if n == 14 {
        "264.2"@
    } else if n == 15 {
        "267.1"@
    } else if n == 16 {
        "270.0"@
    } else if n == 17 {
        "278.8"@
    } else if n == 18 {
        "284.6"@
    } else if n == 19 {
        "287.5"@
    } else if n == 20 {
        "290.4"@
    } else if n == 21 {
        "293.3"@
    } else if n == 22 {
        "296.3"@
    } else {
        "305.0"@
    }
}

fn beat_x_str(n: u64) -> (s: &'static str)
    requires
        n < 24,
    ensures
        s@ == beat_x(n as int),
{
    if n == 0 {
        "205.8"
    } else if n == 1 {
        "208.8"
    } else if n == 2 {
        "211.7"
    } else if n == 3 {
        "214.6"
    } else if n == 4 {
        "217.5"
    } else if n == 5 {
        "226.2"
    } else if n == 6 {
        "232.1"
    } else if n == 7 {
        "235.0"
    } else if n == 8 {
        "237.9"
    } else if n == 9 {
        "240.8"
    } else if n == 10 {
        "243.7"
    } else if n == 11 {
        "252.5"
    } else if n == 12 {
        "258.3"
    } else if n == 13 {
        "261.2"
    } else if n == 14 {
        "264.2"
    } else if n == 15 {
        "267.1"
    } else if n == 16 {
        "270.0"
    } else if n == 17 {
        "278.8"
    } else if n == 18 {
        "284.6"
    } else if n == 19 {
        "287.5"
    } else if n == 20 {
        "290.4"
    } else if n == 21 {
        "293.3"
    } else if n == 22 {
        "296.3"
    } else {
        "305.0"
    }
}

/// The flat run after the beats, to just past x = 340.
pub open spec fn tail_text(beats: int) -> Seq<char> {
    if beats == 0 {
        " L 211.7,181.0 L 223.3,181.0 L 235.0,181.0 L 246.7,181.0 L 258.3,181.0 L 270.0,181.0 L 281.7,181.0 L 293.3,181.0 L 305.0,181.0 L 316.7,181.0 L 328.3,181.0 L 340.0,181.0"@
    } else if beats == 1 {
        " L 237.9,181.0 L 249.6,181.0 L 261.2,181.0 L 272.9,181.0 L 284.6,181.0 L 296.2,181.0 L 307.9,181.0 L 319.6,181.0 L 331.3,181.0 L 342.9,181.0"@
    } else if beats == 2 {
        " L 264.2,181.0 L 275.8,181.0 L 287.5,181.0 L 299.2,181.0 L 310.8,181.0 L 322.5,181.0 L 334.2,181.0 L 345.8,181.0"@
    } else if beats == 3 {
        " L 290.4,181.0 L 302.1,181.0 L 313.8,181.0 L 325.4,181.0 L 337.1,181.0 L 348.8,181.0"@
    } else {
        " L 316.7,181.0 L 328.3,181.0 L 340.0,181.0"@
    }
}

fn tail_str(beats: u64) -> (s: &'static str)
    ensures
        s@ == tail_text(beats as int),
{
    if beats == 0 {
        " L 211.7,181.0 L 223.3,181.0 L 235.0,181.0 L 246.7,181.0 L 258.3,181.0 L 270.0,181.0 L 281.7,181.0 L 293.3,181.0 L 305.0,181.0 L 316.7,181.0 L 328.3,181.0 L 340.0,181.0"
    } else if beats == 1 {
        " L 237.9,181.0 L 249.6,181.0 L 261.2,181.0 L 272.9,181.0 L 284.6,181.0 L 296.2,181.0 L 307.9,181.0 L 319.6,181.0 L 331.3,181.0 L 342.9,181.0"
    } else if beats == 2 {
        " L 264.2,181.0 L 275.8,181.0 L 287.5,181.0 L 299.2,181.0 L 310.8,181.0 L 322.5,181.0 L 334.2,181.0 L 345.8,181.0"
    } else if beats == 3 {
        " L 290.4,181.0 L 302.1,181.0 L 313.8,181.0 L 325.4,181.0 L 337.1,181.0 L 348.8,181.0"
    } else {
        " L 316.7,181.0 L 328.3,181.0 L 340.0,181.0"
    }
}

/// The amplitude's three heights for `index < 90`, in tenths, rounded
/// to the nearest tenth (never a tie): 181 - 0.4a, 181 - a, 181 + 0.5a
/// with a = 10·(1 - index/110).
pub open spec fn rise(index: u8) -> nat {
    ((2 * (19910 - 4 * (110 - index)) + 11) / 22) as nat
}

pub open spec fn peak(index: u8) -> nat {
    ((2 * (19910 - 10 * (110 - index)) + 11) / 22) as nat
}

pub open spec fn dip(index: u8) -> nat {
    ((2 * (19910 + 5 * (110 - index)) + 11) / 22) as nat
}

/// Beat number `k` (0-based) at the heights of `index`.
pub open spec fn beat_text(k: int, index: u8) -> Seq<char> {
    " L "@ + beat_x(6 * k) + ",181.0 L "@ + beat_x(6 * k + 1) + ","@ + tenths(rise(index))
        + " L "@ + beat_x(6 * k + 2) + ","@ + tenths(peak(index))
        + " L "@ + beat_x(6 * k + 3) + ","@ + tenths(dip(index))
        + " L "@ + beat_x(6 * k + 4) + ",181.0 L "@ + beat_x(6 * k + 5) + ",181.0"@
}

pub open spec fn beats_text(n: int, index: u8) -> Seq<char>
    decreases n,
{
    if n <= 0 { Seq::empty() } else { beats_text(n - 1, index) + beat_text(n - 1, index) }
}

pub open spec fn glow(index: u8) -> Seq<char> {
    if index >= 80 { " filter=\"url(#glow-blood)\""@ } else { " filter=\"url(#glow-phos)\""@ }
}

/// The heartbeat for `index` in the palette `p`.
pub open spec fn ekg_text(index: u8, p: Palette) -> Seq<char> {
    let color = if index >= 80 { p.blood@ } else { p.phos@ };
    "<path d=\""@ + "M 200,181"@ + beats_text(beats(index), index) + tail_text(beats(index)) + "\" stroke=\""@ + color + "\" stroke-width=\"1.4\" fill=\"none\" stroke-dasharray=\"900\" stroke-dashoffset=\"0\" opacity=\"0.9\""@ + glow(index) + "><animate attributeName=\"stroke-dashoffset\" from=\"900\" to=\"0\" dur=\"1.6s\" fill=\"freeze\"/></path>"@
        + (if index >= 80 {
            "<text x=\"341.0\" y=\"184.0\" font-size=\"10\" fill=\""@ + color + "\" class=\"font-mono\""@ + glow(index) + ">☠</text>"@
        } else if index < 15 {
            "<g transform=\"translate(336.0,174.0) scale(0.85)\"><path d=\"M5,8.5 C2,6 0,4.4 0,2.8 C0,1.2 1.2,0 2.6,0 C3.8,0 4.6,0.7 5,1.5 C5.4,0.7 6.2,0 7.4,0 C8.8,0 10,1.2 10,2.8 C10,4.4 8,6 5,8.5 Z\" fill=\""@ + p.blood@ + "\""@ + glow(index) + "><animate attributeName=\"opacity\" values=\"1;0.4;1\" dur=\"1.2s\" repeatCount=\"indefinite\"/></path></g>"@
        } else {
            "<circle cx=\"340.0\" cy=\"181.0\" r=\"1.6\" fill=\""@ + color + "\""@ + glow(index) + "/>"@
        })
}

fn push_beat(s: &mut String, k: u64, index: u8)
    requires
        k < 4,
        index < 90,
    ensures
        final(s)@ == old(s)@ + beat_text(k as int, index),
{
    let i = index as u64;
    let r = (2 * (19910 - 4 * (110 - i)) + 11) / 22;
    let pk = (2 * (19910 - 10 * (110 - i)) + 11) / 22;
    let d = (2 * (19910 + 5 * (110 - i)) + 11) / 22;
    push_str(s, " L ");
    push_str(s, beat_x_str(6 * k));
    push_str(s, ",181.0 L ");
    push_str(s, beat_x_str(6 * k + 1));
    push_str(s, ",");
    push_tenths(s, r);
    push_str(s, " L ");
    push_str(s, beat_x_str(6 * k + 2));
    push_str(s, ",");
    push_tenths(s, pk);
    push_str(s, " L ");
    push_str(s, beat_x_str(6 * k + 3));
    push_str(s, ",");
    push_tenths(s, d);
    push_str(s, " L ");
    push_str(s, beat_x_str(6 * k + 4));
    push_str(s, ",181.0 L ");
    push_str(s, beat_x_str(6 * k + 5));
    push_str(s, ",181.0");
    proof {
        assert(final(s)@ =~= old(s)@ + beat_text(k as int, index));
    }
}

/// The heartbeat line for `index` in the palette `p`.
pub fn render(index: u8, p: &Palette) -> (s: String)
    ensures
        s@ == ekg_text(index, *p),
{
    let n: u64 = if index <= 29 { 4 } else if index <= 59 { 3 } else if index <= 79 { 2 } else if index <= 89 { 1 } else { 0 };
    let mut d = string_of("M 200,181");
    let ghost start = d@;
    let mut k: u64 = 0;
    while k < n
        invariant
            k <= n <= 4,
            n == beats(index),
            n > 0 ==> index < 90,
            d@ == start + beats_text(k as int, index),
        decreases n - k,
    {
        push_beat(&mut d, k, index);
        k += 1;
    }
    push_str(&mut d, tail_str(n));
    let color = if index >= 80 { p.blood } else { p.phos };
    let g = if index >= 80 { " filter=\"url(#glow-blood)\"" } else { " filter=\"url(#glow-phos)\"" };
    let mut s = string_of("<path d=\"");
    push_str(&mut s, d.as_str());
    push_str(&mut s, "\" stroke=\"");
    push_str(&mut s, color);
    push_str(&mut s, "\" stroke-width=\"1.4\" fill=\"none\" stroke-dasharray=\"900\" stroke-dashoffset=\"0\" opacity=\"0.9\"");
    push_str(&mut s, g);
    push_str(&mut s, "><animate attributeName=\"stroke-dashoffset\" from=\"900\" to=\"0\" dur=\"1.6s\" fill=\"freeze\"/></path>");
    if index >= 80 {
        push_str(&mut s, "<text x=\"341.0\" y=\"184.0\" font-size=\"10\" fill=\"");
        push_str(&mut s, color);
        push_str(&mut s, "\" class=\"font-mono\"");
        push_str(&mut s, g);
        push_str(&mut s, ">☠</text>");
    } else if index < 15 {
        push_str(&mut s, "<g transform=\"translate(336.0,174.0) scale(0.85)\"><path d=\"M5,8.5 C2,6 0,4.4 0,2.8 C0,1.2 1.2,0 2.6,0 C3.8,0 4.6,0.7 5,1.5 C5.4,0.7 6.2,0 7.4,0 C8.8,0 10,1.2 10,2.8 C10,4.4 8,6 5,8.5 Z\" fill=\"");
        push_str(&mut s, p.blood);
        push_str(&mut s, "\"");
        push_str(&mut s, g);
        push_str(&mut s, "><animate attributeName=\"opacity\" values=\"1;0.4;1\" dur=\"1.2s\" repeatCount=\"indefinite\"/></path></g>");
    } else {
        push_str(&mut s, "<circle cx=\"340.0\" cy=\"181.0\" r=\"1.6\" fill=\"");
        push_str(&mut s, color);
        push_str(&mut s, "\"");
        push_str(&mut s, g);
        push_str(&mut s, "/>");
    }
    proof {
        assert(s@ =~= ekg_text(index, *p));
    }
    s
}

} // verus!
