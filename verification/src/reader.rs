//! The analytics read endpoint's rendering side: binary content
//! negotiation on the `Accept` header and the chosen representation of the
//! snapshot. Fetching the snapshot is the query collaborator's work; a
//! fetch failure is surfaced to the caller and never reaches this code.

use vstd::prelude::*;
use crate::codec::spec_snapshot_json;
use crate::codec::spec_snapshot_plain;
use crate::codec::render_structured;
use crate::codec::render_plain;
use crate::snapshot::AnalyticsSnapshot;
use crate::text::str_eq;

verus! {

#[derive(Clone, Copy, PartialEq, Eq, Structural, Debug)]
pub enum OutputFormat {
    Structured,
    PlainText,
}

/// Binary negotiation: only an `Accept` header that is present and exactly
/// `*/*` selects the structured document; absent or any other value
/// selects plain text. Deliberately not a full media-type negotiation.
pub open spec fn spec_negotiate(accept: Option<Seq<char>>) -> OutputFormat {
    if accept == Some("*/*"@) {
        OutputFormat::Structured
    } else {
        OutputFormat::PlainText
    }
}

pub fn negotiate(accept: Option<&str>) -> (r: OutputFormat)
    ensures
        r == spec_negotiate(match accept {
            Some(h) => Some(h@),
            None => None,
        }),
{
    match accept {
        Some(h) => {
            if str_eq(h, "*/*") {
                OutputFormat::Structured
            } else {
                OutputFormat::PlainText
            }
        },
        None => OutputFormat::PlainText,
    }
}

/// The response body for a snapshot under a negotiated format.
pub open spec fn spec_respond(m: Seq<(Seq<char>, u64)>, accept: Option<Seq<char>>) -> Seq<char> {
    match spec_negotiate(accept) {
        OutputFormat::Structured => spec_snapshot_json(m),
        OutputFormat::PlainText => spec_snapshot_plain(m),
    }
}

/// Serves one read of the snapshot: negotiates on the `Accept` header and
/// renders the snapshot accordingly.
pub fn respond(snapshot: &AnalyticsSnapshot, accept: Option<&str>) -> (r: String)
    ensures
        r@ == spec_respond(snapshot.models(), match accept {
            Some(h) => Some(h@),
            None => None,
        }),
{
    match negotiate(accept) {
        OutputFormat::Structured => render_structured(snapshot),
        OutputFormat::PlainText => render_plain(snapshot),
    }
}

/// Reading twice without intervening writes yields the same response:
/// the body is a pure function of snapshot content and `Accept` header,
/// so two reads that see the same entries and carry the same header get
/// byte-for-byte the same representation in the same format.
pub proof fn lemma_reader_idempotent(
    a: AnalyticsSnapshot,
    b: AnalyticsSnapshot,
    accept: Option<Seq<char>>,
)
    requires
        a.models() == b.models(),
    ensures
        spec_respond(a.models(), accept) == spec_respond(b.models(), accept),
{
}

} // verus!
