//! The arc gauge: a dark track, five coloured zones, the dial line with
//! its `0` and `☠` labels, the needle that swings in from the left, and
//! the NECROMETER legend. The gauge is centred at (95, 132) with radius
//! 62; where a point falls on that circle is trigonometry, so the points
//! are handed in already written as `x,y` with one decimal each.

use vstd::prelude::*;
use super::palette::{FONT_CREEPSTER, Palette};
use super::graveyard::{push_tenths, tenths};
use crate::text::{push_str, string_of};

verus! {

/// The written points of the gauge: where each zone's arc starts and
/// ends, the needle's tip and the two corners of its base.
pub struct GaugePoints {
    /// Start of zone `i`'s arc, at 180 − 36·i degrees clockwise from up.
    pub zone_start: [String; 5],
    /// End of zone `i`'s arc, 34 degrees further back.
    pub zone_end: [String; 5],
    /// The needle's tip, 50 out at the index's angle (180 − 1.8·index).
    pub tip: String,
    /// The needle's base corners, 3.8 out at the angle plus and minus 90.
    pub base_left: String,
    pub base_right: String,
}

/// The dark track under the zones.
pub const TRACK: &'static str = "<path d=\"M 33.0,132.0 A 62 62 0 0 1 157.0,129.8\" stroke=\"#191428\" stroke-width=\"11\" fill=\"none\" stroke-linecap=\"round\"/>";

/// The glow of zone `i`: phosphor for the first, blood for the last.
pub open spec fn zone_glow(i: int) -> Seq<char> {
    if i == 0 {
        " filter=\"url(#glow-phos)\""@
    } else if i == 4 {
        " filter=\"url(#glow-blood)\""@
    } else {
        Seq::empty()
    }
}

/// The arc of zone `i` in its palette colour.
pub open spec fn zone_arc(p: Palette, pts: GaugePoints, i: int) -> Seq<char> {
    "<path d=\"M "@ + pts.zone_start@[i]@ + " A 62 62 0 0 1 "@ + pts.zone_end@[i]@ + "\" stroke=\""@
        + p.zones@[i]@ + "\" stroke-width=\"9\" fill=\"none\" stroke-linecap=\"round\""@ + zone_glow(i) + "/>"@
}

/// The arcs of the first `n` zones, in order.
pub open spec fn zone_arcs(p: Palette, pts: GaugePoints, n: int) -> Seq<char>
    decreases n,
{
    if n <= 0 {
        Seq::empty()
    } else {
        zone_arcs(p, pts, n - 1) + zone_arc(p, pts, n - 1)
    }
}

/// How far the needle swings in, in tenths of a degree: 1.8 degrees per
/// point of index, and never less than 30 degrees.
pub open spec fn swing_tenths(index: u8) -> nat {
    if 18 * index >= 300 { (18 * index) as nat } else { 300 }
}

/// The needle's glow: blood while the index is under 60.
pub open spec fn needle_glow(index: u8) -> Seq<char> {
    if index < 60 { " filter=\"url(#glow-blood)\""@ } else { Seq::empty() }
}

/// The dial line and its two end labels.
pub open spec fn dial_text(p: Palette) -> Seq<char> {
    "<line x1=\"25\" y1=\"132\" x2=\"165\" y2=\"132\" stroke=\""@ + p.border@ + "\" stroke-width=\"1\"/>"@
        + "<text x=\"31\" y=\"146\" text-anchor=\"middle\" font-size=\"11\" fill=\""@ + p.phos@
        + "\" class=\"font-mono\" filter=\"url(#glow-phos)\">0</text>"@
        + "<text x=\"159\" y=\"146\" text-anchor=\"middle\" font-size=\"12\" fill=\""@ + p.blood@
        + "\" class=\"font-mono\" filter=\"url(#glow-blood)\">☠</text>"@
}

/// The needle: it swings in from `swing_tenths` back, overshoots by 4
/// degrees and settles; a triangle on the written points and a hub.
pub open spec fn needle_text(index: u8, p: Palette, pts: GaugePoints) -> Seq<char> {
    "<g><animateTransform attributeName=\"transform\" type=\"rotate\" values=\"-"@ + tenths(swing_tenths(index))
        + " 95 132;4 95 132;0 95 132\" keyTimes=\"0;0.8;1\" dur=\"1.1s\" fill=\"freeze\"/>"@
        + "<polygon points=\""@ + pts.tip@ + " "@ + pts.base_left@ + " "@ + pts.base_right@ + "\" fill=\""@
        + p.needle@ + "\""@ + needle_glow(index) + "/>"@
        + "<circle cx=\"95\" cy=\"132\" r=\"5.5\" fill=\""@ + p.inset@ + "\" stroke=\""@ + p.needle@
        + "\" stroke-width=\"1.8\"/></g>"@
}

/// The NECROMETER legend under the hub.
pub open spec fn legend_text(p: Palette) -> Seq<char> {
    "<text x=\"95\" y=\"164\" text-anchor=\"middle\" font-size=\"14\" letter-spacing=\"2\" fill=\""@ + p.dim@
        + "\" class=\"font-creepster\" filter=\"url(#glow-violet)\" font-family=\""@ + FONT_CREEPSTER@
        + "\">NECROMETER</text>"@
}

/// The whole gauge for `index` in the palette `p` on the points `pts`.
pub open spec fn gauge_text(index: u8, p: Palette, pts: GaugePoints) -> Seq<char> {
    TRACK@ + zone_arcs(p, pts, 5) + dial_text(p) + needle_text(index, p, pts) + legend_text(p)
}

fn push_zone_arc(s: &mut String, p: &Palette, pts: &GaugePoints, i: usize)
    requires
        i < 5,
    ensures
        final(s)@ == old(s)@ + zone_arc(*p, *pts, i as int),
{
    push_str(s, "<path d=\"M ");
    push_str(s, pts.zone_start[i].as_str());
    push_str(s, " A 62 62 0 0 1 ");
    push_str(s, pts.zone_end[i].as_str());
    push_str(s, "\" stroke=\"");
    push_str(s, p.zones[i].as_str());
    push_str(s, "\" stroke-width=\"9\" fill=\"none\" stroke-linecap=\"round\"");
    if i == 0 {
        push_str(s, " filter=\"url(#glow-phos)\"");
    } else if i == 4 {
        push_str(s, " filter=\"url(#glow-blood)\"");
    }
    push_str(s, "/>");
    proof {
        assert(final(s)@ =~= old(s)@ + zone_arc(*p, *pts, i as int));
    }
}

fn push_dial(s: &mut String, p: &Palette)
    ensures
        final(s)@ == old(s)@ + dial_text(*p),
{
    push_str(s, "<line x1=\"25\" y1=\"132\" x2=\"165\" y2=\"132\" stroke=\"");
    push_str(s, p.border);
    push_str(s, "\" stroke-width=\"1\"/>");
    push_str(s, "<text x=\"31\" y=\"146\" text-anchor=\"middle\" font-size=\"11\" fill=\"");
    push_str(s, p.phos);
    push_str(s, "\" class=\"font-mono\" filter=\"url(#glow-phos)\">0</text>");
    push_str(s, "<text x=\"159\" y=\"146\" text-anchor=\"middle\" font-size=\"12\" fill=\"");
    push_str(s, p.blood);
    push_str(s, "\" class=\"font-mono\" filter=\"url(#glow-blood)\">☠</text>");
    proof {
        assert(final(s)@ =~= old(s)@ + dial_text(*p));
    }
}

fn push_needle(s: &mut String, index: u8, p: &Palette, pts: &GaugePoints)
    ensures
        final(s)@ == old(s)@ + needle_text(index, *p, *pts),
{
    let swing: u64 = if 18 * (index as u64) >= 300 { 18 * (index as u64) } else { 300 };
    push_str(s, "<g><animateTransform attributeName=\"transform\" type=\"rotate\" values=\"-");
    push_tenths(s, swing);
    push_str(s, " 95 132;4 95 132;0 95 132\" keyTimes=\"0;0.8;1\" dur=\"1.1s\" fill=\"freeze\"/>");
    push_str(s, "<polygon points=\"");
    push_str(s, pts.tip.as_str());
    push_str(s, " ");
    push_str(s, pts.base_left.as_str());
    push_str(s, " ");
    push_str(s, pts.base_right.as_str());
    push_str(s, "\" fill=\"");
    push_str(s, p.needle.as_str());
    push_str(s, "\"");
    if index < 60 {
        push_str(s, " filter=\"url(#glow-blood)\"");
    }
    push_str(s, "/>");
    push_str(s, "<circle cx=\"95\" cy=\"132\" r=\"5.5\" fill=\"");
    push_str(s, p.inset);
    push_str(s, "\" stroke=\"");
    push_str(s, p.needle.as_str());
    push_str(s, "\" stroke-width=\"1.8\"/></g>");
    proof {
        assert(swing == swing_tenths(index));
        assert(final(s)@ =~= old(s)@ + needle_text(index, *p, *pts));
    }
}

fn push_legend(s: &mut String, p: &Palette)
    ensures
        final(s)@ == old(s)@ + legend_text(*p),
{
    push_str(s, "<text x=\"95\" y=\"164\" text-anchor=\"middle\" font-size=\"14\" letter-spacing=\"2\" fill=\"");
    push_str(s, p.dim);
    push_str(s, "\" class=\"font-creepster\" filter=\"url(#glow-violet)\" font-family=\"");
    push_str(s, FONT_CREEPSTER);
    push_str(s, "\">NECROMETER</text>");
    proof {
        assert(final(s)@ =~= old(s)@ + legend_text(*p));
    }
}

/// The arc gauge for `index` in the palette `p`, on the written points
/// `pts`.
pub fn render(index: u8, p: &Palette, pts: &GaugePoints) -> (s: String)
    ensures
        s@ == gauge_text(index, *p, *pts),
{
    let mut s = string_of(TRACK);
    let mut i: usize = 0;
    while i < 5
        invariant
            i <= 5,
            s@ == TRACK@ + zone_arcs(*p, *pts, i as int),
        decreases 5 - i,
    {
        push_zone_arc(&mut s, p, pts, i);
        i += 1;
    }
    push_dial(&mut s, p);
    push_needle(&mut s, index, p, pts);
    push_legend(&mut s, p);
    proof {
        assert(s@ =~= gauge_text(index, *p, *pts));
    }
    s
}

} // verus!
