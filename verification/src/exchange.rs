//! Exchange Context: the per-exchange state machine.
//!
//! One context exists per in-flight exchange and owns that exchange's
//! telemetry record; the only shared state is the immutable
//! configuration, copied in at creation. Host-delivered phase events
//! drive the machine; the completion event yields the one outbound
//! dispatch, after which no mutation is permitted, and an abort tears
//! the context down without dispatching.

use crate::config::{FilterConfig, FilterConfigModel};
use crate::dispatch::{build_dispatch, dispatch_call_of, DispatchCall, DispatchCallModel};
use crate::telemetry::{
    body_applied, empty_telemetry, headers_view, request_headers_applied,
    response_headers_applied, HeaderSeq, SectionModel, Telemetry, TelemetryModel,
};
use vstd::prelude::*;

verus! {

/// Lifecycle phase of one exchange.
#[derive(PartialEq, Eq, Structural, Clone, Copy, Debug)]
pub enum Phase {
    Created,
    RequestHeadersSeen,
    RequestBodySeen,
    ResponseHeadersSeen,
    ResponseBodySeen,
    Done,
}

/// A host-delivered lifecycle event, carrying the plain values the
/// assembler reads at that phase.
pub enum ExchangeEvent {
    RequestHeaders { headers: Vec<(String, String)>, source_address: String, peer_header: String },
    RequestBody { chunk: String },
    ResponseHeaders {
        headers: Vec<(String, String)>,
        destination_address: String,
        upstream_metadata: String,
    },
    ResponseBody { chunk: String },
    Completed,
    Aborted,
}

/// Mathematical view of an event.
pub ghost enum EventModel {
    RequestHeaders { headers: HeaderSeq, source_address: Seq<char>, peer_header: Seq<char> },
    RequestBody { chunk: Seq<char> },
    ResponseHeaders {
        headers: HeaderSeq,
        destination_address: Seq<char>,
        upstream_metadata: Seq<char>,
    },
    ResponseBody { chunk: Seq<char> },
    Completed,
    Aborted,
}

impl View for ExchangeEvent {
    type V = EventModel;

    open spec fn view(&self) -> EventModel {
        match self {
            ExchangeEvent::RequestHeaders { headers, source_address, peer_header } => {
                EventModel::RequestHeaders {
                    headers: headers_view(headers@),
                    source_address: source_address@,
                    peer_header: peer_header@,
                }
            },
            ExchangeEvent::RequestBody { chunk } => EventModel::RequestBody { chunk: chunk@ },
            ExchangeEvent::ResponseHeaders { headers, destination_address, upstream_metadata } => {
                EventModel::ResponseHeaders {
                    headers: headers_view(headers@),
                    destination_address: destination_address@,
                    upstream_metadata: upstream_metadata@,
                }
            },
            ExchangeEvent::ResponseBody { chunk } => EventModel::ResponseBody { chunk: chunk@ },
            ExchangeEvent::Completed => EventModel::Completed,
            ExchangeEvent::Aborted => EventModel::Aborted,
        }
    }
}

/// The per-exchange state: the shared configuration by copy, the record
/// under assembly, and the lifecycle phase.
pub struct ExchangeContext {
    pub config: FilterConfig,
    pub record: Telemetry,
    pub phase: Phase,
}

/// Mathematical view of an [`ExchangeContext`].
#[verifier::ext_equal]
pub ghost struct ContextModel {
    pub config: FilterConfigModel,
    pub record: TelemetryModel,
    pub phase: Phase,
}

impl View for ExchangeContext {
    type V = ContextModel;

    open spec fn view(&self) -> ContextModel {
        ContextModel { config: self.config@, record: self.record@, phase: self.phase }
    }
}

/// What one event does to one context: the record mutation of that
/// phase, the phase move, and — for the completion event alone — the
/// one dispatch. After `Done`, and after an abort, nothing moves and
/// nothing is dispatched.
pub open spec fn spec_step(c: ContextModel, e: EventModel) -> (ContextModel, Option<
    DispatchCallModel,
>) {
    if c.phase is Done {
        (c, None)
    } else {
        match e {
            EventModel::RequestHeaders { headers, source_address, peer_header } => (
                ContextModel {
                    config: c.config,
                    record: TelemetryModel {
                        context_id: c.record.context_id,
                        request: request_headers_applied(
                            c.record.request,
                            headers,
                            source_address,
                            peer_header,
                        ),
                        response: c.record.response,
                    },
                    phase: Phase::RequestHeadersSeen,
                },
                None,
            ),
            EventModel::RequestBody { chunk } => (
                ContextModel {
                    config: c.config,
                    record: TelemetryModel {
                        context_id: c.record.context_id,
                        request: SectionModel {
                            headers: c.record.request.headers,
                            who: c.record.request.who,
                            body: body_applied(c.record.request.body, chunk),
                        },
                        response: c.record.response,
                    },
                    phase: Phase::RequestBodySeen,
                },
                None,
            ),
            EventModel::ResponseHeaders { headers, destination_address, upstream_metadata } => (
                ContextModel {
                    config: c.config,
                    record: TelemetryModel {
                        context_id: c.record.context_id,
                        request: c.record.request,
                        response: response_headers_applied(
                            c.record.response,
                            headers,
                            destination_address,
                            upstream_metadata,
                        ),
                    },
                    phase: Phase::ResponseHeadersSeen,
                },
                None,
            ),
            EventModel::ResponseBody { chunk } => (
                ContextModel {
                    config: c.config,
                    record: TelemetryModel {
                        context_id: c.record.context_id,
                        request: c.record.request,
                        response: SectionModel {
                            headers: c.record.response.headers,
                            who: c.record.response.who,
                            body: body_applied(c.record.response.body, chunk),
                        },
                    },
                    phase: Phase::ResponseBodySeen,
                },
                None,
            ),
            EventModel::Completed => (
                ContextModel { config: c.config, record: c.record, phase: Phase::Done },
                Some(dispatch_call_of(c.config, c.record)),
            ),
            EventModel::Aborted => (
                ContextModel { config: c.config, record: c.record, phase: Phase::Done },
                None,
            ),
        }
    }
}

impl ExchangeContext {
    /// A fresh context for a newly created exchange: the configuration
    /// copied in, an empty record under the host-assigned id, phase at
    /// the start.
    pub fn new(context_id: u32, config: &FilterConfig) -> (c: ExchangeContext)
        ensures
            c@.config == config@,
            c@.record == empty_telemetry(context_id),
            c@.phase == Phase::Created,
    {
        ExchangeContext {
            config: config.duplicate(),
            record: Telemetry::new(context_id),
            phase: Phase::Created,
        }
    }

    /// Feed one host-delivered event to this exchange. Returns the one
    /// outbound dispatch exactly when the event completes a not yet
    /// completed exchange.
    pub fn process_event(&mut self, e: ExchangeEvent) -> (r: Option<DispatchCall>)
        ensures
            final(self)@ == spec_step(old(self)@, e@).0,
            (match r {
                Some(d) => Some(d@),
                None => None::<DispatchCallModel>,
            }) == spec_step(old(self)@, e@).1,
    {
        if self.phase == Phase::Done {
            return None;
        }
        match e {
            ExchangeEvent::RequestHeaders { headers, source_address, peer_header } => {
                self.record.apply_request_headers(headers, source_address, peer_header);
                self.phase = Phase::RequestHeadersSeen;
                proof {
                    assert(self@ =~= spec_step(old(self)@, e@).0);
                }
                None
            },
            ExchangeEvent::RequestBody { chunk } => {
                self.record.apply_request_body(chunk);
                self.phase = Phase::RequestBodySeen;
                proof {
                    assert(self@ =~= spec_step(old(self)@, e@).0);
                }
                None
            },
            ExchangeEvent::ResponseHeaders { headers, destination_address, upstream_metadata } => {
                self.record.apply_response_headers(
                    headers,
                    destination_address,
                    upstream_metadata,
                );
                self.phase = Phase::ResponseHeadersSeen;
                proof {
                    assert(self@ =~= spec_step(old(self)@, e@).0);
                }
                None
            },
            ExchangeEvent::ResponseBody { chunk } => {
                self.record.apply_response_body(chunk);
                self.phase = Phase::ResponseBodySeen;
                proof {
                    assert(self@ =~= spec_step(old(self)@, e@).0);
                }
                None
            },
            ExchangeEvent::Completed => {
                let call = build_dispatch(&self.config, &self.record);
                self.phase = Phase::Done;
                proof {
                    assert(self@ =~= spec_step(old(self)@, e@).0);
                }
                Some(call)
            },
            ExchangeEvent::Aborted => {
                self.phase = Phase::Done;
                proof {
                    assert(self@ =~= spec_step(old(self)@, e@).0);
                }
                None
            },
        }
    }
}

/// The context after a whole sequence of events.
pub open spec fn run_events(c: ContextModel, evs: Seq<EventModel>) -> ContextModel
    decreases evs.len(),
{
    if evs.len() == 0 {
        c
    } else {
        run_events(spec_step(c, evs[0]).0, evs.drop_first())
    }
}

/// How many events of the sequence fire a dispatch.
pub open spec fn dispatch_count(c: ContextModel, evs: Seq<EventModel>) -> nat
    decreases evs.len(),
{
    if evs.len() == 0 {
        0
    } else {
        (if spec_step(c, evs[0]).1 is Some {
            1nat
        } else {
            0nat
        }) + dispatch_count(spec_step(c, evs[0]).0, evs.drop_first())
    }
}

/// Dispatch fires at most once per exchange, whatever events arrive, and
/// never again once the exchange is done.
pub proof fn lemma_dispatch_at_most_once(c: ContextModel, evs: Seq<EventModel>)
    ensures
        dispatch_count(c, evs) <= 1,
        c.phase is Done ==> dispatch_count(c, evs) == 0,
    decreases evs.len(),
{
    if evs.len() > 0 {
        lemma_dispatch_at_most_once(spec_step(c, evs[0]).0, evs.drop_first());
    }
}

/// Dispatch fires exactly once for a completed exchange: however many
/// body chunks streamed, an unaborted event sequence holding a
/// completion yields one dispatch.
pub proof fn lemma_dispatch_exactly_once(c: ContextModel, evs: Seq<EventModel>)
    requires
        !(c.phase is Done),
        forall|k: int| 0 <= k < evs.len() ==> !(#[trigger] evs[k] is Aborted),
        exists|k: int| 0 <= k < evs.len() && (#[trigger] evs[k] is Completed),
    ensures
        dispatch_count(c, evs) == 1,
    decreases evs.len(),
{
    let next = spec_step(c, evs[0]).0;
    if evs[0] is Completed {
        lemma_dispatch_at_most_once(next, evs.drop_first());
    } else {
        assert(!(next.phase is Done));
        let k = choose|k: int| 0 <= k < evs.len() && (#[trigger] evs[k] is Completed);
        assert(k >= 1);
        assert(evs.drop_first()[k - 1] is Completed);
        assert(forall|t: int|
            0 <= t < evs.drop_first().len() ==> !(#[trigger] evs.drop_first()[t] is Aborted));
        lemma_dispatch_exactly_once(next, evs.drop_first());
    }
}

/// An arena of independent exchange contexts keyed by exchange id, as
/// the host holds them; one interleaved trace feeds them all.
pub open spec fn arena_run(m: Map<u32, ContextModel>, tr: Seq<(u32, EventModel)>) -> Map<
    u32,
    ContextModel,
>
    decreases tr.len(),
{
    if tr.len() == 0 {
        m
    } else {
        let m2 = if m.contains_key(tr[0].0) {
            m.insert(tr[0].0, spec_step(m[tr[0].0], tr[0].1).0)
        } else {
            m
        };
        arena_run(m2, tr.drop_first())
    }
}

/// The events of one exchange within an interleaved trace, in order.
pub open spec fn events_for(tr: Seq<(u32, EventModel)>, id: u32) -> Seq<EventModel>
    decreases tr.len(),
{
    if tr.len() == 0 {
        Seq::<EventModel>::empty()
    } else if tr[0].0 == id {
        seq![tr[0].1] + events_for(tr.drop_first(), id)
    } else {
        events_for(tr.drop_first(), id)
    }
}

/// Context isolation: however arbitrarily the events of many concurrent
/// exchanges interleave, each context ends exactly as if it had processed
/// its own events alone — no telemetry crosses between contexts.
pub proof fn lemma_context_isolation(
    m: Map<u32, ContextModel>,
    tr: Seq<(u32, EventModel)>,
    id: u32,
)
    requires
        m.contains_key(id),
    ensures
        arena_run(m, tr).contains_key(id),
        arena_run(m, tr)[id] == run_events(m[id], events_for(tr, id)),
    decreases tr.len(),
{
    if tr.len() > 0 {
        let m2 = if m.contains_key(tr[0].0) {
            m.insert(tr[0].0, spec_step(m[tr[0].0], tr[0].1).0)
        } else {
            m
        };
        if tr[0].0 == id {
            assert(m2[id] == spec_step(m[id], tr[0].1).0);
            lemma_context_isolation(m2, tr.drop_first(), id);
            let evs = events_for(tr, id);
            assert(evs[0] == tr[0].1);
            assert(evs.drop_first() =~= events_for(tr.drop_first(), id));
        } else {
            assert(m2.contains_key(id) && m2[id] == m[id]);
            lemma_context_isolation(m2, tr.drop_first(), id);
        }
    }
}

} // verus!
