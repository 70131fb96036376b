//! The event barrier: gathers route data until the end of registration.
//!
//! Producers send events; one consumer feeds them to the barrier in the
//! order of their arrival. The barrier keeps the route records that arrive
//! before the first [`Event::End`] and ignores whatever arrives after it.
//! A channel that closes without an `End` is reported by the consumer as
//! an `End`.

use vstd::prelude::*;
use vstd::string::StringExecFns;

verus! {

/// The payload of a registration as the caller sends it: the slug of a
/// route and, where the caller has any, the route's data as JSON text.
#[derive(Debug)]
pub struct SetDataForSlug {
    pub slug: String,
    pub data: Option<String>,
}

/// A route record as the barrier keeps it.
#[derive(Debug)]
pub struct RouteData {
    pub slug: String,
    pub data: String,
}

/// What a producer can send.
#[derive(Debug)]
pub enum Event {
    /// Register the data of one route.
    RegisterRouteData(SetDataForSlug),
    /// The end of registration.
    End,
}

/// The states of the barrier.
#[derive(Clone, Copy, PartialEq, Eq, Debug, Structural)]
pub enum Phase {
    /// No event has arrived.
    AwaitingFirstEvent,
    /// One record or more has arrived, and no `End`.
    Collecting,
    /// `End` has arrived.
    Drained,
}

/// The model of a [`SetDataForSlug`].
pub struct SetDataForSlugView {
    pub slug: Seq<char>,
    pub data: Option<Seq<char>>,
}

/// The model of a [`RouteData`].
pub struct RouteDataView {
    pub slug: Seq<char>,
    pub data: Seq<char>,
}

/// The model of an [`Event`].
pub enum EventView {
    RegisterRouteData(SetDataForSlugView),
    End,
}

/// The model of a [`Barrier`]: its state and the records kept so far, in
/// the order of their arrival.
pub struct BarrierView {
    pub phase: Phase,
    pub records: Seq<RouteDataView>,
}

impl View for SetDataForSlug {
    type V = SetDataForSlugView;

    open spec fn view(&self) -> SetDataForSlugView {
        SetDataForSlugView {
            slug: self.slug@,
            data: match self.data {
                Some(d) => Some(d@),
                None => None,
            },
        }
    }
}

impl View for RouteData {
    type V = RouteDataView;

    open spec fn view(&self) -> RouteDataView {
        RouteDataView { slug: self.slug@, data: self.data@ }
    }
}

impl View for Event {
    type V = EventView;

    open spec fn view(&self) -> EventView {
        match self {
            Event::RegisterRouteData(payload) => EventView::RegisterRouteData(payload@),
            Event::End => EventView::End,
        }
    }
}

/// The record that a payload is kept as: the slug as it came, and the data
/// as it came or, where the caller sent none, the JSON text `null`.
pub open spec fn normalized(payload: SetDataForSlugView) -> RouteDataView {
    RouteDataView {
        slug: payload.slug,
        data: match payload.data {
            Some(d) => d,
            None => "null"@,
        },
    }
}

/// The barrier before any event.
pub open spec fn opened() -> BarrierView {
    BarrierView { phase: Phase::AwaitingFirstEvent, records: Seq::empty() }
}

/// The barrier after one more event. A registration is kept unless the
/// barrier is drained; `End` drains it; a drained barrier stays as it is.
pub open spec fn after_event(b: BarrierView, e: EventView) -> BarrierView {
    if b.phase == Phase::Drained {
        b
    } else {
        match e {
            EventView::RegisterRouteData(payload) => BarrierView {
                phase: Phase::Collecting,
                records: b.records.push(normalized(payload)),
            },
            EventView::End => BarrierView { phase: Phase::Drained, records: b.records },
        }
    }
}

/// The barrier after a run of events.
pub open spec fn after_events(b: BarrierView, events: Seq<EventView>) -> BarrierView
    decreases events.len(),
{
    if events.len() == 0 {
        b
    } else {
        after_event(after_events(b, events.drop_last()), events.last())
    }
}

/// The slugs of records, in their order.
pub open spec fn slugs_of(records: Seq<RouteDataView>) -> Seq<Seq<char>> {
    Seq::new(records.len(), |i: int| records[i].slug)
}

/// The views of the strings held in a vector.
pub open spec fn string_views(v: Seq<String>) -> Seq<Seq<char>> {
    Seq::new(v.len(), |i: int| v[i]@)
}

/// The views of the records held in a vector.
pub open spec fn record_views(v: Seq<RouteData>) -> Seq<RouteDataView> {
    Seq::new(v.len(), |i: int| v[i]@)
}

proof fn lemma_registrations_only(events: Seq<EventView>, k: int)
    requires
        0 <= k <= events.len(),
        forall|i: int| 0 <= i < k ==> events[i] is RegisterRouteData,
    ensures
        after_events(opened(), events.take(k)).phase == if k == 0 {
            Phase::AwaitingFirstEvent
        } else {
            Phase::Collecting
        },
        after_events(opened(), events.take(k)).records.len() == k,
        forall|i: int|
            0 <= i < k ==> (#[trigger] after_events(opened(), events.take(k)).records[i])
                == normalized(events[i]->RegisterRouteData_0),
    decreases k,
{
    if k > 0 {
        lemma_registrations_only(events, k - 1);
        assert(events.take(k).drop_last() == events.take(k - 1));
        assert(events.take(k).last() == events[k - 1]);
    }
}

/// There is no way back: a drained barrier stays drained and keeps its
/// records, whatever arrives.
pub proof fn lemma_drained_is_final(b: BarrierView, events: Seq<EventView>)
    requires
        b.phase == Phase::Drained,
    ensures
        after_events(b, events) == b,
    decreases events.len(),
{
    if events.len() > 0 {
        lemma_drained_is_final(b, events.drop_last());
    }
}

/// The state tells how many records are kept: none while the first event
/// is awaited, one or more while collecting.
pub proof fn lemma_phase_counts_records(events: Seq<EventView>)
    ensures
        ({
            let b = after_events(opened(), events);
            &&& b.phase == Phase::AwaitingFirstEvent <==> events.len() == 0
            &&& b.phase == Phase::Collecting ==> b.records.len() >= 1
            &&& b.records.len() <= events.len()
        }),
    decreases events.len(),
{
    if events.len() > 0 {
        lemma_phase_counts_records(events.drop_last());
    }
}

proof fn lemma_events_in_two_runs(b: BarrierView, events: Seq<EventView>, n: int)
    requires
        0 <= n <= events.len(),
    ensures
        after_events(b, events) == after_events(
            after_events(b, events.take(n)),
            events.skip(n),
        ),
    decreases events.len(),
{
    if n == events.len() {
        assert(events.take(n) == events);
    } else {
        lemma_events_in_two_runs(b, events.drop_last(), n);
        assert(events.drop_last().take(n) == events.take(n));
        assert(events.drop_last().skip(n) == events.skip(n).drop_last());
        assert(events.skip(n).last() == events.last());
    }
}

/// The barrier keeps the order of arrival and stops at the first `End`:
/// when the first `n` events are registrations and the next is `End`, the
/// drained barrier holds exactly those `n` records, in that order,
/// whatever arrives later.
pub proof fn lemma_collects_in_order(events: Seq<EventView>, n: int)
    requires
        0 <= n < events.len(),
        forall|i: int| 0 <= i < n ==> events[i] is RegisterRouteData,
        events[n] is End,
    ensures
        after_events(opened(), events).phase == Phase::Drained,
        after_events(opened(), events).records.len() == n,
        forall|i: int|
            0 <= i < n ==> (#[trigger] after_events(opened(), events).records[i]) == normalized(
                events[i]->RegisterRouteData_0,
            ),
        forall|i: int|
            0 <= i < n ==> (#[trigger] slugs_of(after_events(opened(), events).records)[i])
                == events[i]->RegisterRouteData_0.slug,
{
    lemma_registrations_only(events, n);
    assert(events.take(n + 1).drop_last() == events.take(n));
    assert(events.take(n + 1).last() == events[n]);
    let at_end = after_events(opened(), events.take(n + 1));
    assert(at_end.records == after_events(opened(), events.take(n)).records);
    lemma_events_in_two_runs(opened(), events, n + 1);
    lemma_drained_is_final(at_end, events.skip(n + 1));
}

impl SetDataForSlug {
    /// The record that the payload is kept as.
    pub fn normalize(self) -> (r: RouteData)
        ensures
            r@ == normalized(self@),
    {
        let data = match self.data {
            Some(d) => d,
            None => String::from_str("null"),
        };
        RouteData { slug: self.slug, data }
    }
}

/// The barrier of one build.
pub struct Barrier {
    phase: Phase,
    records: Vec<RouteData>,
}

impl View for Barrier {
    type V = BarrierView;

    closed spec fn view(&self) -> BarrierView {
        BarrierView { phase: self.phase, records: record_views(self.records@) }
    }
}

impl Barrier {
    /// A barrier that awaits its first event.
    pub fn new() -> (r: Self)
        ensures
            r@ == opened(),
    {
        let r = Barrier { phase: Phase::AwaitingFirstEvent, records: Vec::new() };
        assert(r@.records =~= Seq::<RouteDataView>::empty());
        r
    }

    /// The state of the barrier.
    pub fn phase(&self) -> (r: Phase)
        ensures
            r == self@.phase,
    {
        self.phase
    }

    /// The number of records kept.
    pub fn len(&self) -> (n: usize)
        ensures
            n == self@.records.len(),
    {
        self.records.len()
    }

    /// Takes the next event in. Returns whether the consumer is to wait for
    /// another event: `false` once the barrier is drained.
    pub fn on_event(&mut self, event: Event) -> (more: bool)
        ensures
            final(self)@ == after_event(old(self)@, event@),
            more == (final(self)@.phase != Phase::Drained),
    {
        if self.phase == Phase::Drained {
            return false;
        }
        match event {
            Event::RegisterRouteData(payload) => {
                let ghost before = record_views(self.records@);
                let record = payload.normalize();
                self.records.push(record);
                self.phase = Phase::Collecting;
                assert(record_views(self.records@) =~= before.push(normalized(payload@)));
                true
            },
            Event::End => {
                self.phase = Phase::Drained;
                false
            },
        }
    }

    /// The slugs of the records kept, in the order of their arrival.
    pub fn slugs(&self) -> (r: Vec<String>)
        ensures
            string_views(r@) == slugs_of(self@.records),
    {
        let mut out: Vec<String> = Vec::new();
        let mut i: usize = 0;
        while i < self.records.len()
            invariant
                i <= self.records@.len(),
                out@.len() == i,
                forall|j: int| 0 <= j < i ==> out@[j]@ == self.records@[j].slug@,
            decreases self.records@.len() - i,
        {
            out.push(self.records[i].slug.clone());
            i += 1;
        }
        assert(string_views(out@) =~= slugs_of(self@.records));
        out
    }
}

} // verus!
