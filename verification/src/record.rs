//! The entities a lookup produces, and the errors it can end in.

use vstd::prelude::*;

verus! {

/// One play-style category's four measures, each an optional duration in
/// seconds. A category may be reported without all four sub-measures, so the
/// fields are independently optional: one measure missing says nothing about
/// the others.
#[derive(Clone, Copy, Debug, PartialEq, Eq)]
pub struct StatisticSet {
    pub average: Option<u64>,
    pub median: Option<u64>,
    pub rushed: Option<u64>,
    pub leisure: Option<u64>,
}

/// A game's identity and aggregated statistics. Each of the six slots is
/// present only if the detail page rendered a row whose label matched that
/// category; zero populated slots is a legal (if degenerate) outcome, and
/// callers must not assume any fixed subset is present.
#[derive(Debug, PartialEq, Eq)]
pub struct GameRecord {
    pub id: u32,
    pub title: String,
    pub main_story: Option<StatisticSet>,
    pub main_extra: Option<StatisticSet>,
    pub completionist: Option<StatisticSet>,
    pub all_styles: Option<StatisticSet>,
    pub co_op: Option<StatisticSet>,
    pub versus: Option<StatisticSet>,
}

impl GameRecord {
    /// A record always carries a positive identifier and a non-empty title;
    /// there is no partial "record without a title".
    pub open spec fn wf(self) -> bool {
        self.id >= 1 && self.title@.len() > 0
    }
}

/// How a lookup fails.
///
/// - `NotFound`: the search yields no result link for the given name.
/// - `MalformedResponse`: an expected structural element (title, statistics
///   table, identifier segment, a classified row with fewer than six cells)
///   is absent or unparseable.
/// - `RenderingFailure`: the rendering collaborator fails to launch,
///   navigate, or times out waiting; raised by the caller that drives the
///   browser, never by the extraction functions here.
#[derive(Clone, Copy, Debug, PartialEq, Eq)]
pub enum LookupError {
    NotFound,
    MalformedResponse,
    RenderingFailure,
}

} // verus!
