//! The inline style sheet of the HTML pages.

use vstd::prelude::*;

verus! {

pub const CSS: &'static str = "\nbody { background:#0d1117; color:#e6edf3; font-family:-apple-system,'Segoe UI',Roboto,Helvetica,Arial,sans-serif; margin:0 }\nmain { max-width:640px; margin:48px auto; padding:0 16px }\nh1 { letter-spacing:3px; font-size:26px }\nh2 { font-size:16px; color:#8b949e; letter-spacing:1px; text-transform:uppercase; margin-top:32px }\na { color:#a371f7 }\n.tag { color:#8b949e }\n.dim { color:#8b949e }\nimg { display:block; margin:12px 0; max-width:100% }\nform { margin:24px 0 }\ninput { background:#161b22; border:1px solid #30363d; color:#e6edf3; padding:10px 12px; border-radius:6px; width:240px; font-size:14px }\nbutton { background:#a371f7; color:#0d1117; border:0; padding:10px 16px; border-radius:6px; font-weight:600; cursor:pointer }\npre { background:#161b22; border:1px solid #30363d; padding:12px; border-radius:6px; overflow-x:auto; font-size:12px }\ncode { background:#161b22; padding:2px 5px; border-radius:4px; font-size:12px }\n.hint { color:#8b949e; font-size:13px }\ntable { width:100%; border-collapse:collapse; font-size:14px }\nth { text-align:left; color:#8b949e; font-weight:500; padding:6px 8px; border-bottom:1px solid #30363d }\ntd { padding:6px 8px; border-bottom:1px solid #21262d }\n.fate-dead td:last-child, .fate-buried td:last-child { color:#f85149 }\n.fate-cold td:last-child { color:#d29922 }\n.fate-cooling td:last-child { color:#58a6ff }\n.stillborn { color:#8b949e; font-size:11px; font-style:italic }\n";

} // verus!
