use vstd::prelude::*;

use crate::event::{entries_view, events_view, DeviceEntry, EntryView, Event, EventView};
use crate::tracker::{initial_tracker, update_result, TrackerState, TrackerView};

verus! {

/// Mathematical model of the scheduler.
pub struct SchedulerView {
    pub tracker: TrackerView,
    pub halted: bool,
}

/// What the host must do once a repaint signal has been handled: report the
/// events in order, request one more signal if `rearm`, and terminate with
/// the message if `fatal` holds one.
#[derive(Debug, Clone, PartialEq, Eq)]
pub struct TickAction {
    pub events: Vec<Event>,
    pub rearm: bool,
    pub fatal: Option<String>,
}

/// Mathematical model of a `TickAction`.
pub struct TickView {
    pub events: Seq<EventView>,
    pub rearm: bool,
    pub fatal: Option<Seq<char>>,
}

impl View for TickAction {
    type V = TickView;

    open spec fn view(&self) -> TickView {
        TickView {
            events: events_view(self.events@),
            rearm: self.rearm,
            fatal: match self.fatal {
                Some(m) => Some(m@),
                None => None,
            },
        }
    }
}

/// Model of what one enumeration query returned: a snapshot, or the message
/// of a fatal failure.
pub open spec fn query_view(q: Result<Vec<DeviceEntry>, String>) -> Result<Seq<EntryView>, Seq<char>> {
    match q {
        Ok(v) => Ok(entries_view(v@)),
        Err(m) => Err(m@),
    }
}

/// The scheduler before any signal.
pub open spec fn initial_scheduler() -> SchedulerView {
    SchedulerView { tracker: initial_tracker(), halted: false }
}

/// One repaint signal handled with the tracker at hand.
pub open spec fn tick_result(s: SchedulerView, q: Result<Seq<EntryView>, Seq<char>>) -> (SchedulerView, TickView) {
    if s.halted {
        (s, TickView { events: Seq::empty(), rearm: false, fatal: None })
    } else {
        match q {
            Err(m) => (
                SchedulerView { tracker: s.tracker, halted: true },
                TickView { events: Seq::empty(), rearm: false, fatal: Some(m) },
            ),
            Ok(snapshot) => {
                let (t, evs) = update_result(s.tracker, snapshot);
                (SchedulerView { tracker: t, halted: false }, TickView { events: evs, rearm: true, fatal: None })
            },
        }
    }
}

/// One repaint signal handled while the tracker could not be had: the update
/// is skipped, but a fatal query still stops polling.
pub open spec fn skipped_tick_result(q: Result<Seq<EntryView>, Seq<char>>) -> TickView {
    match q {
        Err(m) => TickView { events: Seq::empty(), rearm: false, fatal: Some(m) },
        Ok(_) => TickView { events: Seq::empty(), rearm: true, fatal: None },
    }
}

/// The state after a run of signals, and what each of them asked for.
pub open spec fn run_ticks(s: SchedulerView, qs: Seq<Result<Seq<EntryView>, Seq<char>>>) -> (SchedulerView, Seq<TickView>)
    decreases qs.len(),
{
    if qs.len() == 0 {
        (s, Seq::empty())
    } else {
        let (s1, ticks) = run_ticks(s, qs.drop_last());
        let (s2, tick) = tick_result(s1, qs.last());
        (s2, ticks.push(tick))
    }
}

proof fn lemma_run_ticks_len(s: SchedulerView, qs: Seq<Result<Seq<EntryView>, Seq<char>>>)
    ensures
        run_ticks(s, qs).1.len() == qs.len(),
    decreases qs.len(),
{
    if qs.len() > 0 {
        lemma_run_ticks_len(s, qs.drop_last());
    }
}

/// Once a query has failed, no later signal is ever re-armed, nor reports
/// anything.
pub proof fn lemma_fatal_error_stops_polling(s: SchedulerView, qs: Seq<Result<Seq<EntryView>, Seq<char>>>, k: int)
    requires
        0 <= k < qs.len(),
        qs[k] is Err,
    ensures
        run_ticks(s, qs).1.len() == qs.len(),
        forall|j: int|
            k <= j < qs.len() ==> !(#[trigger] run_ticks(s, qs).1[j]).rearm && run_ticks(s, qs).1[j].events.len()
                == 0,
        run_ticks(s, qs).0.halted,
    decreases qs.len(),
{
    let (s1, ticks) = run_ticks(s, qs.drop_last());
    lemma_run_ticks_len(s, qs.drop_last());
    lemma_run_ticks_len(s, qs);
    if k < qs.len() - 1 {
        lemma_fatal_error_stops_polling(s, qs.drop_last(), k);
        assert(s1.halted);
    } else {
        assert(qs.last() is Err);
    }
    let all = run_ticks(s, qs).1;
    assert(all == ticks.push(tick_result(s1, qs.last()).1));
    assert forall|j: int| k <= j < qs.len() implies !(#[trigger] all[j]).rearm && all[j].events.len() == 0 by {
        if j < qs.len() - 1 {
            assert(all[j] == ticks[j]);
        }
    }
}

/// Drives the tracker from repaint signals.
pub struct PollScheduler {
    tracker: TrackerState,
    halted: bool,
}

impl View for PollScheduler {
    type V = SchedulerView;

    closed spec fn view(&self) -> SchedulerView {
        SchedulerView { tracker: self.tracker@, halted: self.halted }
    }
}

impl PollScheduler {
    /// The tracker inside is well formed.
    pub closed spec fn wf(&self) -> bool {
        self.tracker.wf()
    }

    /// A scheduler that has handled no signal.
    pub fn new() -> (r: PollScheduler)
        ensures
            r.wf(),
            r@ == initial_scheduler(),
    {
        PollScheduler { tracker: TrackerState::new(), halted: false }
    }

    /// Whether a fatal query has stopped polling.
    pub fn is_halted(&self) -> (r: bool)
        ensures
            r == self@.halted,
    {
        self.halted
    }

    /// Handles one repaint signal, given what the enumeration query returned.
    pub fn on_signal(&mut self, query: Result<Vec<DeviceEntry>, String>) -> (r: TickAction)
        requires
            old(self).wf(),
        ensures
            final(self).wf(),
            (final(self)@, r@) == tick_result(old(self)@, query_view(query)),
    {
        if self.halted {
            let r = TickAction { events: Vec::new(), rearm: false, fatal: None };
            assert(r@.events =~= Seq::empty());
            return r;
        }
        match query {
            Err(m) => {
                self.halted = true;
                let r = TickAction { events: Vec::new(), rearm: false, fatal: Some(m) };
                assert(r@.events =~= Seq::empty());
                r
            },
            Ok(snapshot) => {
                let events = self.tracker.update(&snapshot);
                TickAction { events, rearm: true, fatal: None }
            },
        }
    }
}

/// Handles one repaint signal when the tracker could not be had: nothing is
/// reported, polling goes on unless the query failed.
pub fn skipped_tick(query: Result<Vec<DeviceEntry>, String>) -> (r: TickAction)
    ensures
        r@ == skipped_tick_result(query_view(query)),
{
    let r = match query {
        Err(m) => TickAction { events: Vec::new(), rearm: false, fatal: Some(m) },
        Ok(_) => TickAction { events: Vec::new(), rearm: true, fatal: None },
    };
    assert(r@.events =~= Seq::empty());
    r
}

} // verus!
