//! The recording middleware, modelled as a small per-request state machine.
//! The decisions — classify, short-circuit loopback, absorb lookup and sink
//! failures, always forward — are made here; the surrounding server performs
//! each returned effect (lookup call, sink call, downstream handler) and
//! hands the outcome back. The ghost history records every effect issued,
//! so that what reaches the recording sink is provable.

use vstd::prelude::*;
use crate::classifier::RequestClassifier;
use crate::geo::ClientAddress;
use crate::geo::country_after_lookup;
use crate::geo::dev_code;
use crate::span::SpanContext;
use crate::span::attr_views;

verus! {

/// One analytics record: created exactly once per analytics-eligible
/// request and owned by the recording sink after submission.
pub struct AnalyticsEvent {
    pub address: ClientAddress,
    pub country: String,
    pub path: String,
}

impl AnalyticsEvent {
    /// Every submitted event carries a non-empty path.
    pub open spec fn wf(&self) -> bool {
        self.path@.len() > 0
    }
}

/// What the surrounding server must do next on behalf of the session.
pub enum Effect {
    /// Consult the external geo lookup for this address.
    Lookup { address: ClientAddress },
    /// Submit this event to the recording sink and await completion.
    Record { event: AnalyticsEvent },
    /// Invoke the downstream handler and return its response unchanged.
    Forward,
}

pub open spec fn count_records(h: Seq<Effect>) -> nat
    decreases h.len(),
{
    if h.len() == 0 {
        0
    } else {
        count_records(h.drop_last()) + (if h.last() is Record {
            1nat
        } else {
            0nat
        })
    }
}

pub open spec fn count_lookups(h: Seq<Effect>) -> nat
    decreases h.len(),
{
    if h.len() == 0 {
        0
    } else {
        count_lookups(h.drop_last()) + (if h.last() is Lookup {
            1nat
        } else {
            0nat
        })
    }
}

pub open spec fn count_forwards(h: Seq<Effect>) -> nat
    decreases h.len(),
{
    if h.len() == 0 {
        0
    } else {
        count_forwards(h.drop_last()) + (if h.last() is Forward {
            1nat
        } else {
            0nat
        })
    }
}

proof fn lemma_counts_push(h: Seq<Effect>, e: Effect)
    ensures
        count_records(h.push(e)) == count_records(h) + (if e is Record {
            1nat
        } else {
            0nat
        }),
        count_lookups(h.push(e)) == count_lookups(h) + (if e is Lookup {
            1nat
        } else {
            0nat
        }),
        count_forwards(h.push(e)) == count_forwards(h) + (if e is Forward {
            1nat
        } else {
            0nat
        }),
{
    assert(h.push(e).drop_last() =~= h);
    assert(h.push(e).last() == e);
}

#[derive(Clone, Copy, PartialEq, Eq, Structural, Debug)]
pub enum Phase {
    AwaitingLookup,
    AwaitingRecord,
    Done,
}

/// One request's passage through the recording middleware.
pub struct RequestSession {
    pub path: String,
    pub address: ClientAddress,
    pub phase: Phase,
    pub exempt: Ghost<bool>,
    pub history: Ghost<Seq<Effect>>,
}

impl RequestSession {
    pub open spec fn wf(&self) -> bool {
        &&& self.path@.len() > 0
        &&& match self.phase {
            Phase::AwaitingLookup => {
                &&& !self.exempt@
                &&& !self.address.spec_is_loopback()
                &&& self.history@ == seq![Effect::Lookup { address: self.address }]
            },
            Phase::AwaitingRecord => {
                &&& !self.exempt@
                &&& count_records(self.history@) == 1
                &&& count_forwards(self.history@) == 0
                &&& (self.address.spec_is_loopback() ==> count_lookups(self.history@) == 0)
            },
            Phase::Done => {
                &&& count_forwards(self.history@) == 1
                &&& self.history@.len() > 0
                &&& self.history@.last() is Forward
                &&& (self.exempt@ ==> count_records(self.history@) == 0 && count_lookups(
                    self.history@,
                ) == 0)
                &&& (!self.exempt@ ==> count_records(self.history@) == 1)
                &&& (self.address.spec_is_loopback() ==> count_lookups(self.history@) == 0)
            },
        }
    }

    /// Classifies the request and opens the session. Exempt paths forward
    /// at once, untouched; loopback origins record with the sentinel
    /// `"DEV"` and no lookup; everything else asks for a lookup first.
    pub fn start(classifier: &RequestClassifier, path: String, address: ClientAddress) -> (r: (
        RequestSession,
        Effect,
    ))
        requires
            path@.len() > 0,
        ensures
            r.0.wf(),
            r.0.path@ == path@,
            r.0.address == address,
            r.0.exempt@ == classifier.spec_exempt(path@),
            r.0.history@ == seq![r.1],
            classifier.spec_exempt(path@) ==> r.1 is Forward && r.0.phase is Done,
            (!classifier.spec_exempt(path@) && address.spec_is_loopback()) ==> {
                &&& r.0.phase is AwaitingRecord
                &&& r.1 matches Effect::Record { event } && event.wf() && event.address == address
                    && event.country@ == "DEV"@ && event.path@ == path@
            },
            (!classifier.spec_exempt(path@) && !address.spec_is_loopback()) ==> {
                &&& r.0.phase is AwaitingLookup
                &&& r.1 == Effect::Lookup { address }
            },
    {
        let exempt = classifier.is_exempt(path.as_str());
        if exempt {
            let eff = Effect::Forward;
            let ghost h = seq![Effect::Forward];
            proof {
                lemma_counts_push(Seq::<Effect>::empty(), Effect::Forward);
                assert(Seq::<Effect>::empty().push(Effect::Forward) =~= h);
            }
            let s = RequestSession {
                path,
                address,
                phase: Phase::Done,
                exempt: Ghost(true),
                history: Ghost(h),
            };
            (s, eff)
        } else if address.is_loopback() {
            let event = AnalyticsEvent { address, country: dev_code(), path: path.clone() };
            let eff = Effect::Record { event };
            let ghost e = eff;
            let ghost h = seq![e];
            proof {
                lemma_counts_push(Seq::<Effect>::empty(), e);
                assert(Seq::<Effect>::empty().push(e) =~= h);
            }
            let s = RequestSession {
                path,
                address,
                phase: Phase::AwaitingRecord,
                exempt: Ghost(false),
                history: Ghost(h),
            };
            (s, eff)
        } else {
            let eff = Effect::Lookup { address };
            let ghost e = eff;
            let ghost h = seq![e];
            let s = RequestSession {
                path,
                address,
                phase: Phase::AwaitingLookup,
                exempt: Ghost(false),
                history: Ghost(h),
            };
            (s, eff)
        }
    }

    /// Takes the external lookup's outcome. A successful lookup's country
    /// is recorded as-is and annotated on the span (best effort, modelled
    /// as an appended attribute); a failure is absorbed into `"N/A"` and
    /// the span is left alone. Either way the next effect is the one
    /// recording-sink call.
    pub fn on_lookup(&mut self, outcome: Result<String, String>, span: &mut SpanContext) -> (eff:
        Effect)
        requires
            old(self).wf(),
            old(self).phase is AwaitingLookup,
        ensures
            final(self).wf(),
            final(self).phase is AwaitingRecord,
            final(self).path@ == old(self).path@,
            final(self).address == old(self).address,
            final(self).exempt@ == old(self).exempt@,
            final(self).history@ == old(self).history@.push(eff),
            eff matches Effect::Record { event } && event.wf() && event.address == old(
                self,
            ).address && event.path@ == old(self).path@ && event.country@ == (match outcome {
                Ok(c) => c@,
                Err(_) => "N/A"@,
            }),
            match outcome {
                Ok(c) => attr_views(final(span).attributes@) == attr_views(
                    old(span).attributes@,
                ).push(("country"@, c@)),
                Err(_) => final(span).attributes@ == old(span).attributes@,
            },
    {
        match &outcome {
            Ok(c) => {
                span.set_attribute(String::from_str("country"), c.clone());
            },
            Err(_) => {},
        }
        let country = country_after_lookup(outcome);
        let event = AnalyticsEvent {
            address: self.address,
            country,
            path: self.path.clone(),
        };
        let eff = Effect::Record { event };
        let ghost e = eff;
        proof {
            let l = Effect::Lookup { address: self.address };
            lemma_counts_push(Seq::<Effect>::empty(), l);
            assert(Seq::<Effect>::empty().push(l) =~= seq![l]);
            lemma_counts_push(self.history@, e);
        }
        self.history = Ghost(self.history@.push(e));
        self.phase = Phase::AwaitingRecord;
        eff
    }

    /// Takes the recording sink's outcome. Success or failure, the outcome
    /// is swallowed and the request is forwarded downstream: recording
    /// failures never alter the client-facing response.
    pub fn on_recorded(&mut self, outcome: Result<(), String>) -> (eff: Effect)
        requires
            old(self).wf(),
            old(self).phase is AwaitingRecord,
        ensures
            final(self).wf(),
            final(self).phase is Done,
            final(self).path@ == old(self).path@,
            final(self).address == old(self).address,
            final(self).exempt@ == old(self).exempt@,
            final(self).history@ == old(self).history@.push(Effect::Forward),
            eff is Forward,
    {
        let _outcome = outcome;
        proof {
            lemma_counts_push(self.history@, Effect::Forward);
        }
        self.history = Ghost(self.history@.push(Effect::Forward));
        self.phase = Phase::Done;
        Effect::Forward
    }
}

/// An exempt request never reaches the recording sink: a finished session
/// for an exempt path issued no record effect at all.
pub proof fn lemma_exempt_never_records(s: RequestSession)
    requires
        s.wf(),
        s.phase is Done,
        s.exempt@,
    ensures
        count_records(s.history@) == 0,
{
}

/// A non-exempt request reaches the recording sink exactly once, whatever
/// the geo-resolution and sink outcomes were.
pub proof fn lemma_non_exempt_records_once(s: RequestSession)
    requires
        s.wf(),
        s.phase is Done,
        !s.exempt@,
    ensures
        count_records(s.history@) == 1,
{
}

/// A session for a loopback origin never issues a lookup effect.
pub proof fn lemma_loopback_session_no_lookup(s: RequestSession)
    requires
        s.wf(),
        s.phase is Done,
        s.address.spec_is_loopback(),
    ensures
        count_lookups(s.history@) == 0,
{
}

} // verus!
