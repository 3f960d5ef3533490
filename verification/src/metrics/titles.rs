//! Tier titles and flavor lines: the only creative writing in the engine.

use vstd::prelude::*;
use crate::metrics::SubjectKind;
use crate::text::string_of;

verus! {

/// The band an index falls in: 0 for 0..=14, 1 for 15..=34, 2 for 35..=59,
/// 3 for 60..=79, 4 above.
pub open spec fn band(index: u8) -> nat {
    if index <= 14 { 0 } else if index <= 34 { 1 } else if index <= 59 { 2 } else if index <= 79 { 3 } else { 4 }
}

pub open spec fn band_title(b: nat) -> Seq<char> {
    if b == 0 { "The Maintainer"@ }
    else if b == 1 { "Healthy Churn"@ }
    else if b == 2 { "Serial Starter"@ }
    else if b == 3 { "Graveyard Keeper"@ }
    else { "Repo Necromancer"@ }
}

pub open spec fn band_flavor(b: nat) -> Seq<char> {
    if b == 0 { "nothing dies here. suspicious."@ }
    else if b == 1 { "a few corpses, like everyone"@ }
    else if b == 2 { "starts things. finishes? unclear."@ }
    else if b == 3 { "more graves than gardens"@ }
    else { "not a profile — a cemetery"@ }
}

/// The title of a reading: "Ghost" without repos, "Insufficient Corpses"
/// under three, else the band's title.
pub open spec fn title_spec(index: u8, total: u32) -> Seq<char> {
    if total == 0 {
        "Ghost — nothing to bury"@
    } else if total < 3 {
        "Insufficient Corpses"@
    } else {
        band_title(band(index))
    }
}

pub open spec fn flavor_spec(index: u8, total: u32) -> Seq<char> {
    if total == 0 {
        "no repos. no pulse. nothing."@
    } else if total < 3 {
        "not enough bodies to judge"@
    } else {
        band_flavor(band(index))
    }
}

/// The band used for a subject: an organisation never reads as "The
/// Maintainer"; its lowest band reads as the next one.
pub open spec fn kind_band(index: u8, kind: SubjectKind) -> nat {
    if kind == SubjectKind::Org && band(index) == 0 { 1 } else { band(index) }
}

pub open spec fn title_kind_spec(index: u8, total: u32, kind: SubjectKind) -> Seq<char> {
    if total < 3 { title_spec(index, total) } else { band_title(kind_band(index, kind)) }
}

pub open spec fn flavor_kind_spec(index: u8, total: u32, kind: SubjectKind) -> Seq<char> {
    if total < 3 { flavor_spec(index, total) } else { band_flavor(kind_band(index, kind)) }
}

fn band_of(index: u8) -> (b: u8)
    ensures
        b == band(index),
{
    if index <= 14 { 0 } else if index <= 34 { 1 } else if index <= 59 { 2 } else if index <= 79 { 3 } else { 4 }
}

fn title_of_band(b: u8) -> (s: String)
    ensures
        s@ == band_title(b as nat),
{
    string_of(if b == 0 { "The Maintainer" }
    else if b == 1 { "Healthy Churn" }
    else if b == 2 { "Serial Starter" }
    else if b == 3 { "Graveyard Keeper" }
    else { "Repo Necromancer" })
}

fn flavor_of_band(b: u8) -> (s: String)
    ensures
        s@ == band_flavor(b as nat),
{
    string_of(if b == 0 { "nothing dies here. suspicious." }
    else if b == 1 { "a few corpses, like everyone" }
    else if b == 2 { "starts things. finishes? unclear." }
    else if b == 3 { "more graves than gardens" }
    else { "not a profile — a cemetery" })
}

pub fn title_for(index: u8, total: u32) -> (s: String)
    ensures
        s@ == title_spec(index, total),
{
    if total == 0 {
        return string_of("Ghost — nothing to bury");
    }
    if total < 3 {
        return string_of("Insufficient Corpses");
    }
    title_of_band(band_of(index))
}

pub fn flavor_for(index: u8, total: u32) -> (s: String)
    ensures
        s@ == flavor_spec(index, total),
{
    if total == 0 {
        return string_of("no repos. no pulse. nothing.");
    }
    if total < 3 {
        return string_of("not enough bodies to judge");
    }
    flavor_of_band(band_of(index))
}

/// Title for a subject of the given kind.
pub fn title_for_kind(index: u8, total: u32, kind: SubjectKind) -> (s: String)
    ensures
        s@ == title_kind_spec(index, total, kind),
{
    if total < 3 {
        return title_for(index, total);
    }
    let b = band_of(index);
    let b = if b == 0 && kind == SubjectKind::Org { 1 } else { b };
    title_of_band(b)
}

/// Flavor line for a subject of the given kind.
pub fn flavor_for_kind(index: u8, total: u32, kind: SubjectKind) -> (s: String)
    ensures
        s@ == flavor_kind_spec(index, total, kind),
{
    if total < 3 {
        return flavor_for(index, total);
    }
    let b = band_of(index);
    let b = if b == 0 && kind == SubjectKind::Org { 1 } else { b };
    flavor_of_band(b)
}

/// The titles and flavour lines, by the index's range, for a subject
/// read from `total` repos: a ghost without repos, too few to judge under
/// three, and from three on one of five bands (0–14, 15–34, 35–59,
/// 60–79, 80 and above).
pub proof fn law_titles_by_range(index: u8, total: u32)
    ensures
        total == 0 ==> title_spec(index, total) == "Ghost — nothing to bury"@
            && flavor_spec(index, total) == "no repos. no pulse. nothing."@,
        1 <= total < 3 ==> title_spec(index, total) == "Insufficient Corpses"@
            && flavor_spec(index, total) == "not enough bodies to judge"@,
        total >= 3 && index <= 14 ==> title_spec(index, total) == "The Maintainer"@
            && flavor_spec(index, total) == "nothing dies here. suspicious."@,
        total >= 3 && 15 <= index <= 34 ==> title_spec(index, total) == "Healthy Churn"@
            && flavor_spec(index, total) == "a few corpses, like everyone"@,
        total >= 3 && 35 <= index <= 59 ==> title_spec(index, total) == "Serial Starter"@
            && flavor_spec(index, total) == "starts things. finishes? unclear."@,
        total >= 3 && 60 <= index <= 79 ==> title_spec(index, total) == "Graveyard Keeper"@
            && flavor_spec(index, total) == "more graves than gardens"@,
        total >= 3 && index >= 80 ==> title_spec(index, total) == "Repo Necromancer"@
            && flavor_spec(index, total) == "not a profile — a cemetery"@,
{
}

/// A user reads exactly as `law_titles_by_range` says; an organisation
/// does too, except that from three repos on its lowest band (index 0–14)
/// reads as the next one, "Healthy Churn".
pub proof fn law_titles_by_kind(index: u8, total: u32)
    ensures
        title_kind_spec(index, total, SubjectKind::User) == title_spec(index, total),
        flavor_kind_spec(index, total, SubjectKind::User) == flavor_spec(index, total),
        total >= 3 && index <= 14 ==> title_kind_spec(index, total, SubjectKind::Org) == "Healthy Churn"@
            && flavor_kind_spec(index, total, SubjectKind::Org) == "a few corpses, like everyone"@,
        !(total >= 3 && index <= 14) ==> title_kind_spec(index, total, SubjectKind::Org) == title_spec(index, total)
            && flavor_kind_spec(index, total, SubjectKind::Org) == flavor_spec(index, total),
{
}

} // verus!
