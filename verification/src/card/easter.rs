//! Easter eggs at the extremes: a sun for index 0; cracks, a cobweb and
//! a spider from 80 on.

use vstd::prelude::*;
use crate::text::string_of;

verus! {

/// The sun with eight rays, drawn at the top-left corner.
pub const SUNSHINE: &'static str = "<circle cx=\"30\" cy=\"30\" r=\"7\" fill=\"#e8b34b\" filter=\"url(#glow-candle)\"/><line x1=\"30.0\" y1=\"20.0\" x2=\"30.0\" y2=\"15.0\" stroke=\"#e8b34b\" stroke-width=\"1.5\" filter=\"url(#glow-candle)\"/><line x1=\"37.1\" y1=\"22.9\" x2=\"40.6\" y2=\"19.4\" stroke=\"#e8b34b\" stroke-width=\"1.5\" filter=\"url(#glow-candle)\"/><line x1=\"40.0\" y1=\"30.0\" x2=\"45.0\" y2=\"30.0\" stroke=\"#e8b34b\" stroke-width=\"1.5\" filter=\"url(#glow-candle)\"/><line x1=\"37.1\" y1=\"37.1\" x2=\"40.6\" y2=\"40.6\" stroke=\"#e8b34b\" stroke-width=\"1.5\" filter=\"url(#glow-candle)\"/><line x1=\"30.0\" y1=\"40.0\" x2=\"30.0\" y2=\"45.0\" stroke=\"#e8b34b\" stroke-width=\"1.5\" filter=\"url(#glow-candle)\"/><line x1=\"22.9\" y1=\"37.1\" x2=\"19.4\" y2=\"40.6\" stroke=\"#e8b34b\" stroke-width=\"1.5\" filter=\"url(#glow-candle)\"/><line x1=\"20.0\" y1=\"30.0\" x2=\"15.0\" y2=\"30.0\" stroke=\"#e8b34b\" stroke-width=\"1.5\" filter=\"url(#glow-candle)\"/><line x1=\"22.9\" y1=\"22.9\" x2=\"19.4\" y2=\"19.4\" stroke=\"#e8b34b\" stroke-width=\"1.5\" filter=\"url(#glow-candle)\"/>";

/// Two cracks, the cobweb in the top-right corner and its spider.
pub const CRACKED: &'static str = "<polyline points=\"60,75 72,95 66,110 80,128\" stroke=\"#322a4d\" stroke-width=\"1.5\" fill=\"none\"/><polyline points=\"120,70 112,92 124,105 115,126\" stroke=\"#322a4d\" stroke-width=\"1.2\" fill=\"none\"/><path d=\"M 470,10 Q 480,20 488,12 M 470,10 Q 478,28 470,36 M 470,10 L 488,36 M 470,10 A 24 24 0 0 1 488,36\" stroke=\"#322a4d\" stroke-width=\"1\" fill=\"none\"/><line x1=\"479\" y1=\"24\" x2=\"479\" y2=\"40\" stroke=\"#4d4570\" stroke-width=\"0.8\"/><circle cx=\"479\" cy=\"42\" r=\"2.2\" fill=\"#4d4570\"/><path d=\"M 477,41 l -2.5,-2 M 477,43 l -2.5,2 M 481,41 l 2.5,-2 M 481,43 l 2.5,2\" stroke=\"#4d4570\" stroke-width=\"0.8\" fill=\"none\"/>";

pub open spec fn easter_text(index: u8) -> Seq<char> {
    if index == 0 {
        SUNSHINE@
    } else if index >= 80 {
        CRACKED@
    } else {
        Seq::empty()
    }
}

/// The easter egg for a reading of `index`, if any.
pub fn render(index: u8) -> (s: String)
    ensures
        s@ == easter_text(index),
{
    if index == 0 {
        string_of(SUNSHINE)
    } else if index >= 80 {
        string_of(CRACKED)
    } else {
        String::new()
    }
}

} // verus!
