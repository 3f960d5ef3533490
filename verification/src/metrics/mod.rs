//! Necro-metrics: decay tiers, the necrosis index, and tier titles.

pub mod analyze;
pub mod summary;
pub mod titles;

pub use analyze::analyze;

use vstd::prelude::*;
use crate::time::Utc;

verus! {

#[derive(Debug, Clone, Copy, PartialEq, Eq, Structural)]
pub enum Fate {
    Alive,
    Cooling,
    Cold,
    Dead,
    Buried,
}

/// The weight of a fate in the necrosis index, in hundredths.
pub open spec fn weight_centis(f: Fate) -> nat {
    match f {
        Fate::Alive => 0,
        Fate::Cooling => 33,
        Fate::Cold => 66,
        Fate::Dead => 100,
        Fate::Buried => 100,
    }
}

/// Position of a fate in `Fate`'s declaration order.
pub open spec fn fate_index(f: Fate) -> int {
    match f {
        Fate::Alive => 0,
        Fate::Cooling => 1,
        Fate::Cold => 2,
        Fate::Dead => 3,
        Fate::Buried => 4,
    }
}

pub open spec fn fate_label(f: Fate) -> Seq<char> {
    match f {
        Fate::Alive => "alive"@,
        Fate::Cooling => "cooling"@,
        Fate::Cold => "cold"@,
        Fate::Dead => "dead"@,
        Fate::Buried => "buried"@,
    }
}

impl Fate {
    /// The weight of the fate in the necrosis index, in hundredths
    /// (0, 0.33, 0.66, 1, 1).
    pub fn weight_centis(self) -> (w: u32)
        ensures
            w == weight_centis(self),
    {
        match self {
            Fate::Alive => 0,
            Fate::Cooling => 33,
            Fate::Cold => 66,
            Fate::Dead => 100,
            Fate::Buried => 100,
        }
    }

    /// Position in declaration order; the index into `Reading::counts`.
    pub fn index(self) -> (i: usize)
        ensures
            i == fate_index(self),
    {
        match self {
            Fate::Alive => 0,
            Fate::Cooling => 1,
            Fate::Cold => 2,
            Fate::Dead => 3,
            Fate::Buried => 4,
        }
    }

    pub fn label(self) -> (s: &'static str)
        ensures
            s@ == fate_label(self),
    {
        match self {
            Fate::Alive => "alive",
            Fate::Cooling => "cooling",
            Fate::Cold => "cold",
            Fate::Dead => "dead",
            Fate::Buried => "buried",
        }
    }
}

#[derive(Debug, Clone)]
pub struct Corpse {
    pub name: String,
    pub url: String,
    pub created_at: Utc,
    pub last_activity: Utc,
    pub days_idle: u32,
    pub stars: u64,
    pub fate: Fate,
    pub stillborn: bool,
}

#[derive(Debug, Clone)]
pub struct Reading {
    pub subject: String,
    pub kind: SubjectKind,
    /// Necrosis index, 0..=100. 0 = everything alive, 100 = full graveyard.
    pub index: u8,
    pub title: String,
    pub flavor: String,
    /// Counts by fate, in enum order.
    pub counts: [u32; 5],
    pub total: u32,
    pub stars_stranded: u64,
    pub oldest_corpse: Option<(String, u32)>,
    pub stillborn: u32,
    pub days_since_any_push: Option<u32>,
    pub low_sample: bool,
    pub entries: Vec<Corpse>,
}

#[derive(Debug, Clone, Copy, PartialEq, Eq, Structural)]
pub enum SubjectKind {
    User,
    Org,
}

pub open spec fn kind_prefix(k: SubjectKind) -> Seq<char> {
    match k {
        SubjectKind::User => "u"@,
        SubjectKind::Org => "org"@,
    }
}

impl SubjectKind {
    /// URL path segment for the kind: `u` or `org`.
    pub fn prefix(self) -> (s: &'static str)
        ensures
            s@ == kind_prefix(self),
    {
        match self {
            SubjectKind::User => "u",
            SubjectKind::Org => "org",
        }
    }
}

} // verus!
