//! The SVG card: the palette, the chassis and its font, the graveyard,
//! the arc gauge, the stats text with its EKG, the skull buddy, the
//! easter eggs and the watermark, laid out by `compose`. The gauge's
//! points on its circle come from trigonometry and are handed in
//! written.

pub mod palette;
pub mod easter;
pub mod skull;
pub mod chassis;
pub mod stats;
pub mod graveyard;
pub mod ekg;
pub mod gauge;

use vstd::prelude::*;
use crate::metrics::Reading;
use crate::text::push_str;
use palette::{Palette, is_palette};
use chassis::{chassis_text, defs_text, svg_open_text, watermark_text};
use graveyard::graveyard_text;
use stats::stats_text;
use skull::skull_text;
use easter::easter_text;
use gauge::{GaugePoints, gauge_text};

verus! {

/// The card for `r` in the palette `p`, with the font's base64 text
/// `font_b64` and the gauge's points `pts`: the opening tag, the defs,
/// the chassis, the graveyard, the gauge, the stats, the skull buddy,
/// the easter egg and the watermark, then the closing tag.
pub open spec fn card_text(r: Reading, p: Palette, font_b64: Seq<char>, pts: GaugePoints) -> Seq<char> {
    svg_open_text() + defs_text(font_b64) + chassis_text(p) + graveyard_text(r, p) + gauge_text(r.index, p, pts)
        + stats_text(r, p) + skull_text(r.index, p) + easter_text(r.index) + watermark_text(p)
        + "</svg>"@
}

/// The whole card for `reading`, in the palette of its index, with the
/// font whose base64 text is `font_b64` and the gauge on the points `pts`.
pub fn compose(reading: &Reading, font_b64: &str, pts: &GaugePoints) -> (s: String)
    ensures
        exists|p: Palette| is_palette(p, reading.index) && s@ == card_text(*reading, p, font_b64@, *pts),
{
    let p = palette::palette(reading.index);
    let mut s = chassis::svg_open();
    let d = chassis::defs(font_b64);
    push_str(&mut s, d.as_str());
    let c = chassis::chassis(&p);
    push_str(&mut s, c.as_str());
    let g = graveyard::render(reading, &p);
    push_str(&mut s, g.as_str());
    let a = gauge::render(reading.index, &p, pts);
    push_str(&mut s, a.as_str());
    let t = stats::render(reading, &p);
    push_str(&mut s, t.as_str());
    let k = skull::render(reading.index, &p);
    push_str(&mut s, k.as_str());
    let e = easter::render(reading.index);
    push_str(&mut s, e.as_str());
    let w = chassis::watermark(&p);
    push_str(&mut s, w.as_str());
    push_str(&mut s, "</svg>");
    proof {
        assert(s@ =~= card_text(*reading, p, font_b64@, *pts));
    }
    s
}

} // verus!
