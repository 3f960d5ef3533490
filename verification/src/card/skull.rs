//! The skull buddy in the top-right corner. Its face follows the
//! reading: happy under 15, ok under 60, sad under 80, dead from 80 on.

use vstd::prelude::*;
use super::palette::Palette;
use crate::text::{push_str, string_of};

verus! {

/// The face for an index: 0 happy, 1 ok, 2 sad, 3 dead.
pub open spec fn face(index: u8) -> int {
    if index <= 14 { 0 } else if index <= 59 { 1 } else if index <= 79 { 2 } else { 3 }
}

/// One eye at the left (`right == false`) or right position.
pub open spec fn eye_text(f: int, right: bool, inset: Seq<char>) -> Seq<char> {
    if f == 0 {
        (if right { "<path d=\"M 451.6,42.5 Q 454.0,39.3 456.4,42.5\" stroke=\""@ } else { "<path d=\"M 443.6,42.5 Q 446.0,39.3 448.4,42.5\" stroke=\""@ }) + inset + "\" stroke-width=\"1.5\" fill=\"none\" stroke-linecap=\"round\"/>"@
    } else if f == 3 {
        (if right { "<path d=\"M 452.0,39.5 l 4,4 M 456.0,39.5 l -4,4\" stroke=\""@ } else { "<path d=\"M 444.0,39.5 l 4,4 M 448.0,39.5 l -4,4\" stroke=\""@ }) + inset + "\" stroke-width=\"1.3\" stroke-linecap=\"round\"/>"@
    } else {
        (if right { "<circle cx=\"454.0\" cy=\"41.5\" r=\"2.3\" fill=\""@ } else { "<circle cx=\"446.0\" cy=\"41.5\" r=\"2.3\" fill=\""@ }) + inset + "\"/>"@
    }
}

/// The buddy drawn in the palette `p`: halo when happy, skull, teeth,
/// eyes by face, nose, a frown when sad, cheeks when happy, a crack when
/// dead.
pub open spec fn skull_text(index: u8, p: Palette) -> Seq<char> {
    let f = face(index);
    "<g>"@
        + (if f == 0 { "<ellipse cx=\"450\" cy=\"25.0\" rx=\"6\" ry=\"2\" fill=\"none\" stroke=\""@ + p.candle@ + "\" stroke-width=\"1.5\" filter=\"url(#glow-candle)\"/>"@ } else { Seq::empty() })
        + "<path d=\"M 439.5,45.0 A 10.5 10.5 0 1 1 460.5,45.0 L 460.5,48.0 Q 460.5,52.5 456.5,52.5 L 443.5,52.5 Q 439.5,52.5 439.5,48.0 Z\" fill=\""@ + p.text@ + "\" stroke=\"#2d2642\" stroke-width=\"0.8\"/>"@
        + "<path d=\"M 446.5,52.5 v -3 M 450.0,52.5 v -3 M 453.5,52.5 v -3\" stroke=\""@ + p.inset@ + "\" stroke-width=\"1\"/>"@
        + eye_text(f, false, p.inset@) + eye_text(f, true, p.inset@)
        + "<path d=\"M 450.0,46.5 l -1.4,-2.2 l 2.8,0 Z\" fill=\""@ + p.inset@ + "\"/>"@
        + (if f == 2 { "<path d=\"M 447.5,50.4 Q 450.0,48.8 452.5,50.4\" stroke=\""@ + p.inset@ + "\" stroke-width=\"1\" fill=\"none\"/>"@ } else { Seq::empty() })
        + (if f == 0 { "<ellipse cx=\"443.2\" cy=\"46.0\" rx=\"1.8\" ry=\"1.1\" fill=\""@ + p.blood@ + "\" opacity=\"0.8\"/><ellipse cx=\"456.8\" cy=\"46.0\" rx=\"1.8\" ry=\"1.1\" fill=\""@ + p.blood@ + "\" opacity=\"0.8\"/>"@ } else { Seq::empty() })
        + (if f == 3 { "<path d=\"M 446.0,33.5 l 3,3.5 l -1.8,2.5\" stroke=\""@ + p.dim@ + "\" stroke-width=\"0.9\" fill=\"none\"/>"@ } else { Seq::empty() })
        + "</g>"@
}

fn push_eye(s: &mut String, f: u8, right: bool, inset: &str)
    requires
        f <= 3,
    ensures
        final(s)@ == old(s)@ + eye_text(f as int, right, inset@),
{
    if f == 0 {
        push_str(s, if right { "<path d=\"M 451.6,42.5 Q 454.0,39.3 456.4,42.5\" stroke=\"" } else { "<path d=\"M 443.6,42.5 Q 446.0,39.3 448.4,42.5\" stroke=\"" });
        push_str(s, inset);
        push_str(s, "\" stroke-width=\"1.5\" fill=\"none\" stroke-linecap=\"round\"/>");
    } else if f == 3 {
        push_str(s, if right { "<path d=\"M 452.0,39.5 l 4,4 M 456.0,39.5 l -4,4\" stroke=\"" } else { "<path d=\"M 444.0,39.5 l 4,4 M 448.0,39.5 l -4,4\" stroke=\"" });
        push_str(s, inset);
        push_str(s, "\" stroke-width=\"1.3\" stroke-linecap=\"round\"/>");
    } else {
        push_str(s, if right { "<circle cx=\"454.0\" cy=\"41.5\" r=\"2.3\" fill=\"" } else { "<circle cx=\"446.0\" cy=\"41.5\" r=\"2.3\" fill=\"" });
        push_str(s, inset);
        push_str(s, "\"/>");
    }
}

/// The skull buddy for a reading of `index`.
pub fn render(index: u8, p: &Palette) -> (s: String)
    ensures
        s@ == skull_text(index, *p),
{
    let f: u8 = if index <= 14 { 0 } else if index <= 59 { 1 } else if index <= 79 { 2 } else { 3 };
    let mut s = string_of("<g>");
    if f == 0 {
        push_str(&mut s, "<ellipse cx=\"450\" cy=\"25.0\" rx=\"6\" ry=\"2\" fill=\"none\" stroke=\"");
        push_str(&mut s, p.candle);
        push_str(&mut s, "\" stroke-width=\"1.5\" filter=\"url(#glow-candle)\"/>");
    }
    push_str(&mut s, "<path d=\"M 439.5,45.0 A 10.5 10.5 0 1 1 460.5,45.0 L 460.5,48.0 Q 460.5,52.5 456.5,52.5 L 443.5,52.5 Q 439.5,52.5 439.5,48.0 Z\" fill=\"");
    push_str(&mut s, p.text);
    push_str(&mut s, "\" stroke=\"#2d2642\" stroke-width=\"0.8\"/>");
    push_str(&mut s, "<path d=\"M 446.5,52.5 v -3 M 450.0,52.5 v -3 M 453.5,52.5 v -3\" stroke=\"");
    push_str(&mut s, p.inset);
    push_str(&mut s, "\" stroke-width=\"1\"/>");
    push_eye(&mut s, f, false, p.inset);
    push_eye(&mut s, f, true, p.inset);
    push_str(&mut s, "<path d=\"M 450.0,46.5 l -1.4,-2.2 l 2.8,0 Z\" fill=\"");
    push_str(&mut s, p.inset);
    push_str(&mut s, "\"/>");
    if f == 2 {
        push_str(&mut s, "<path d=\"M 447.5,50.4 Q 450.0,48.8 452.5,50.4\" stroke=\"");
        push_str(&mut s, p.inset);
        push_str(&mut s, "\" stroke-width=\"1\" fill=\"none\"/>");
    }
    if f == 0 {
        push_str(&mut s, "<ellipse cx=\"443.2\" cy=\"46.0\" rx=\"1.8\" ry=\"1.1\" fill=\"");
        push_str(&mut s, p.blood);
        push_str(&mut s, "\" opacity=\"0.8\"/><ellipse cx=\"456.8\" cy=\"46.0\" rx=\"1.8\" ry=\"1.1\" fill=\"");
        push_str(&mut s, p.blood);
        push_str(&mut s, "\" opacity=\"0.8\"/>");
    }
    if f == 3 {
        push_str(&mut s, "<path d=\"M 446.0,33.5 l 3,3.5 l -1.8,2.5\" stroke=\"");
        push_str(&mut s, p.dim);
        push_str(&mut s, "\" stroke-width=\"0.9\" fill=\"none\"/>");
    }
    push_str(&mut s, "</g>");
    proof {
        let e = Seq::<char>::empty();
        assert(e + e =~= e);
    }
    s
}

} // verus!
