//! The aggregated analytics snapshot served by the read endpoint: an
//! ordered sequence of entries, one per aggregation key.

use vstd::prelude::*;

verus! {

/// Printable ASCII with no `"` and no `\`: a country tag of this shape
/// needs no escaping in the structured rendering and no quoting in the
/// line rendering.
pub open spec fn is_plain_char(c: char) -> bool {
    32 <= (c as u32) && (c as u32) < 127 && c != '"' && c != '\\'
}

pub open spec fn country_wf(c: Seq<char>) -> bool {
    forall|i: int| 0 <= i < c.len() ==> is_plain_char(c[i])
}

/// One aggregated entry: a country tag and how many recorded requests
/// carried it.
pub struct AnalyticsEntry {
    pub country: String,
    pub count: u64,
}

impl AnalyticsEntry {
    pub open spec fn wf(&self) -> bool {
        country_wf(self.country@)
    }

    /// The entry as the plain values its two representations speak of.
    pub open spec fn model(&self) -> (Seq<char>, u64) {
        (self.country@, self.count)
    }
}

/// The models of a sequence of entries, in order.
pub open spec fn models_of(s: Seq<AnalyticsEntry>) -> Seq<(Seq<char>, u64)> {
    s.map(|i: int, e: AnalyticsEntry| e.model())
}

/// An ordered snapshot of aggregated analytics entries, read-only to this
/// core.
pub struct AnalyticsSnapshot {
    pub entries: Vec<AnalyticsEntry>,
}

impl AnalyticsSnapshot {
    pub open spec fn wf(&self) -> bool {
        forall|i: int| 0 <= i < self.entries@.len() ==> self.entries@[i].wf()
    }

    pub open spec fn models(&self) -> Seq<(Seq<char>, u64)> {
        models_of(self.entries@)
    }
}

} // verus!
