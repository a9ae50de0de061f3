use vstd::prelude::*;

use crate::event::{entries_view, events_view, DeviceEntry, EntryView, Event, EventView};

verus! {

/// Mathematical model of the tracker: the identities already reported, and
/// whether the "no devices" notice has been given.
pub struct TrackerView {
    pub known: Set<Seq<char>>,
    pub empty_reported: bool,
}

/// The state of a fresh tracker.
pub open spec fn initial_tracker() -> TrackerView {
    TrackerView { known: Set::empty(), empty_reported: false }
}

/// The event, if any, that one entry yields when `known` holds the
/// identities reported so far.
pub open spec fn entry_event(known: Set<Seq<char>>, e: EntryView) -> Option<EventView> {
    match e.identity {
        Ok(id) => if known.contains(id) {
            None
        } else {
            Some(EventView::DeviceDiscovered { identity: id, name: e.name, index: e.index })
        },
        Err(error) => Some(EventView::DeviceIdentityUnresolved { name: e.name, index: e.index, error }),
    }
}

/// The identities reported after one entry has been seen.
pub open spec fn entry_known(known: Set<Seq<char>>, e: EntryView) -> Set<Seq<char>> {
    match e.identity {
        Ok(id) => known.insert(id),
        Err(_) => known,
    }
}

/// Walks the entries in order: the identities reported afterwards, and the
/// events, in entry order.
pub open spec fn scan(known: Set<Seq<char>>, entries: Seq<EntryView>) -> (Set<Seq<char>>, Seq<EventView>)
    decreases entries.len(),
{
    if entries.len() == 0 {
        (known, Seq::empty())
    } else {
        let (k, evs) = scan(known, entries.drop_last());
        let e = entries.last();
        (
            entry_known(k, e),
            match entry_event(k, e) {
                Some(ev) => evs.push(ev),
                None => evs,
            },
        )
    }
}

/// The tracker after one snapshot, and the events that the snapshot yields.
pub open spec fn update_result(t: TrackerView, snapshot: Seq<EntryView>) -> (TrackerView, Seq<EventView>) {
    if snapshot.len() == 0 {
        if t.empty_reported {
            (t, Seq::empty())
        } else {
            (TrackerView { known: t.known, empty_reported: true }, seq![EventView::NoDevicesFound])
        }
    } else {
        let (k, evs) = scan(t.known, snapshot);
        (TrackerView { known: k, empty_reported: t.empty_reported }, evs)
    }
}

/// Decides, snapshot by snapshot, which discoveries are new.
pub struct TrackerState {
    known: Vec<String>,
    empty_reported: bool,
}

impl View for TrackerState {
    type V = TrackerView;

    closed spec fn view(&self) -> TrackerView {
        TrackerView {
            known: self.known@.map_values(|s: String| s@).to_set(),
            empty_reported: self.empty_reported,
        }
    }
}

impl TrackerState {
    /// No identity is held twice.
    pub closed spec fn wf(&self) -> bool {
        forall|i: int, j: int|
            0 <= i < j < self.known@.len() ==> #[trigger] self.known@[i]@ != #[trigger] self.known@[j]@
    }

    /// A tracker that has reported nothing.
    pub fn new() -> (r: TrackerState)
        ensures
            r.wf(),
            r@ == initial_tracker(),
    {
        let r = TrackerState { known: Vec::new(), empty_reported: false };
        assert(r@.known =~= Set::empty());
        r
    }

    /// Whether the "no devices" notice has been given.
    pub fn empty_reported(&self) -> (r: bool)
        ensures
            r == self@.empty_reported,
    {
        self.empty_reported
    }

    /// Whether `id` has been reported.
    pub fn knows(&self, id: &String) -> (r: bool)
        ensures
            r == self@.known.contains(id@),
    {
        let ghost views = self.known@.map_values(|s: String| s@);
        let mut i: usize = 0;
        while i < self.known.len()
            invariant
                i <= self.known@.len(),
                views == self.known@.map_values(|s: String| s@),
                forall|j: int| 0 <= j < i ==> views[j] != id@,
            decreases self.known@.len() - i,
        {
            if self.known[i] == *id {
                assert(views[i as int] == id@);
                return true;
            }
            i = i + 1;
        }
        assert(!views.contains(id@));
        false
    }

    fn insert(&mut self, id: String)
        requires
            old(self).wf(),
            !old(self)@.known.contains(id@),
        ensures
            final(self).wf(),
            final(self)@.known == old(self)@.known.insert(id@),
            final(self)@.empty_reported == old(self)@.empty_reported,
    {
        let ghost id_view = id@;
        let ghost before = self.known@;
        self.known.push(id);
        proof {
            let vb = before.map_values(|s: String| s@);
            let va = self.known@.map_values(|s: String| s@);
            assert(va =~= vb.push(id_view));
            assert(!vb.contains(id_view));
            assert forall|i: int, j: int|
                0 <= i < j < self.known@.len() implies #[trigger] self.known@[i]@
                != #[trigger] self.known@[j]@ by {
                if j == before.len() {
                    assert(vb[i] == self.known@[i]@);
                }
            }
            vb.lemma_push_to_set_commute(id_view);
        }
    }

    /// Takes in one snapshot and returns, in entry order, the events it yields.
    pub fn update(&mut self, snapshot: &Vec<DeviceEntry>) -> (events: Vec<Event>)
        requires
            old(self).wf(),
        ensures
            final(self).wf(),
            (final(self)@, events_view(events@)) == update_result(old(self)@, entries_view(snapshot@)),
    {
        let ghost entries = entries_view(snapshot@);
        let mut events: Vec<Event> = Vec::new();
        if snapshot.len() == 0 {
            if !self.empty_reported {
                self.empty_reported = true;
                events.push(Event::NoDevicesFound);
            }
            assert(events_view(events@) =~= update_result(old(self)@, entries).1);
            return events;
        }
        let mut i: usize = 0;
        while i < snapshot.len()
            invariant
                i <= snapshot@.len(),
                entries == entries_view(snapshot@),
                self.wf(),
                self@.empty_reported == old(self)@.empty_reported,
                (self@.known, events_view(events@)) == scan(old(self)@.known, entries.subrange(0, i as int)),
            decreases snapshot@.len() - i,
        {
            let entry = &snapshot[i];
            let ghost k = self@.known;
            let ghost evs = events_view(events@);
            assert(entries.subrange(0, i + 1).drop_last() =~= entries.subrange(0, i as int));
            assert(entries.subrange(0, i + 1).last() == entry@);
            match &entry.identity {
                Ok(id) => {
                    if !self.knows(id) {
                        events.push(
                            Event::DeviceDiscovered {
                                identity: id.clone(),
                                name: entry.name.clone(),
                                index: entry.index,
                            },
                        );
                        self.insert(id.clone());
                        assert(events_view(events@) =~= evs.push(entry_event(k, entry@).unwrap()));
                    }
                },
                Err(error) => {
                    events.push(
                        Event::DeviceIdentityUnresolved {
                            name: entry.name.clone(),
                            index: entry.index,
                            error: error.clone(),
                        },
                    );
                    assert(events_view(events@) =~= evs.push(entry_event(k, entry@).unwrap()));
                },
            }
            i = i + 1;
        }
        assert(entries.subrange(0, snapshot@.len() as int) =~= entries);
        events
    }
}

/// Whether the event reports a newly discovered device.
pub open spec fn is_discovery(ev: EventView) -> bool {
    ev is DeviceDiscovered
}

/// The identity that a discovery event reports.
pub open spec fn discovery_identity(ev: EventView) -> Seq<char> {
    match ev {
        EventView::DeviceDiscovered { identity, .. } => identity,
        _ => Seq::empty(),
    }
}

/// Whether the entry's identity, if it resolved, is among `known`.
pub open spec fn resolved_in(known: Set<Seq<char>>, e: EntryView) -> bool {
    match e.identity {
        Ok(id) => known.contains(id),
        Err(_) => true,
    }
}

proof fn lemma_scan_discoveries(known: Set<Seq<char>>, s: Seq<EntryView>)
    ensures
        known.subset_of(scan(known, s).0),
        forall|i: int| 0 <= i < s.len() ==> resolved_in(scan(known, s).0, #[trigger] s[i]),
        forall|j: int|
            0 <= j < scan(known, s).1.len() && is_discovery(#[trigger] scan(known, s).1[j]) ==> !known.contains(
                discovery_identity(scan(known, s).1[j]),
            ) && scan(known, s).0.contains(discovery_identity(scan(known, s).1[j])),
        forall|i: int, j: int|
            0 <= i < j < scan(known, s).1.len() && is_discovery(scan(known, s).1[i]) && is_discovery(
                scan(known, s).1[j],
            ) ==> discovery_identity(#[trigger] scan(known, s).1[i]) != discovery_identity(
                #[trigger] scan(known, s).1[j],
            ),
        forall|j: int| 0 <= j < scan(known, s).1.len() ==> !(#[trigger] scan(known, s).1[j] is NoDevicesFound),
    decreases s.len(),
{
    if s.len() > 0 {
        let (k, evs) = scan(known, s.drop_last());
        lemma_scan_discoveries(known, s.drop_last());
        let e = s.last();
        let (k2, evs2) = scan(known, s);
        assert(k.subset_of(k2));
        assert forall|i: int| 0 <= i < s.len() implies resolved_in(k2, #[trigger] s[i]) by {
            if i < s.len() - 1 {
                assert(s.drop_last()[i] == s[i]);
            }
        }
        assert forall|j: int| 0 <= j < evs2.len() && is_discovery(#[trigger] evs2[j]) implies !known.contains(
            discovery_identity(evs2[j]),
        ) && k2.contains(discovery_identity(evs2[j])) by {
            if j < evs.len() {
                assert(evs2[j] == evs[j]);
            }
        }
        assert forall|i: int, j: int|
            0 <= i < j < evs2.len() && is_discovery(evs2[i]) && is_discovery(evs2[j]) implies discovery_identity(
            #[trigger] evs2[i],
        ) != discovery_identity(#[trigger] evs2[j]) by {
            assert(evs2[i] == evs[i]);
            if j < evs.len() {
                assert(evs2[j] == evs[j]);
            }
        }
        assert forall|j: int| 0 <= j < evs2.len() implies !(#[trigger] evs2[j] is NoDevicesFound) by {
            if j < evs.len() {
                assert(evs2[j] == evs[j]);
            }
        }
    }
}

proof fn lemma_scan_settled(known: Set<Seq<char>>, s: Seq<EntryView>)
    requires
        forall|i: int| 0 <= i < s.len() ==> resolved_in(known, #[trigger] s[i]),
    ensures
        scan(known, s).0 == known,
        forall|j: int| 0 <= j < scan(known, s).1.len() ==> !is_discovery(#[trigger] scan(known, s).1[j]),
    decreases s.len(),
{
    if s.len() > 0 {
        assert forall|i: int| 0 <= i < s.len() - 1 implies resolved_in(known, #[trigger] s.drop_last()[i]) by {
            assert(s.drop_last()[i] == s[i]);
        }
        lemma_scan_settled(known, s.drop_last());
        let (k, evs) = scan(known, s.drop_last());
        let (k2, evs2) = scan(known, s);
        assert(resolved_in(known, s[s.len() - 1]));
        assert(k2 =~= known);
        assert forall|j: int| 0 <= j < evs2.len() implies !is_discovery(#[trigger] evs2[j]) by {
            if j < evs.len() {
                assert(evs2[j] == evs[j]);
            }
        }
    }
}

/// Within one update, every discovered identity is new, is remembered
/// afterwards, and is discovered once; the tracker forgets nothing.
pub proof fn lemma_update_discoveries_are_new(t: TrackerView, s: Seq<EntryView>)
    ensures
        t.known.subset_of(update_result(t, s).0.known),
        forall|j: int|
            0 <= j < update_result(t, s).1.len() && is_discovery(#[trigger] update_result(t, s).1[j]) ==> !t.known.contains(
                discovery_identity(update_result(t, s).1[j]),
            ) && update_result(t, s).0.known.contains(discovery_identity(update_result(t, s).1[j])),
        forall|i: int, j: int|
            0 <= i < j < update_result(t, s).1.len() && is_discovery(update_result(t, s).1[i]) && is_discovery(
                update_result(t, s).1[j],
            ) ==> discovery_identity(#[trigger] update_result(t, s).1[i]) != discovery_identity(
                #[trigger] update_result(t, s).1[j],
            ),
{
    lemma_scan_discoveries(t.known, s);
}

/// Handing the tracker the same snapshot again changes nothing and reports no
/// discovery: each identity of a snapshot is discovered at most once however
/// often the snapshot repeats.
pub proof fn lemma_same_snapshot_again(t: TrackerView, s: Seq<EntryView>)
    ensures
        update_result(update_result(t, s).0, s).0 == update_result(t, s).0,
        forall|j: int|
            0 <= j < update_result(update_result(t, s).0, s).1.len() ==> !is_discovery(
                #[trigger] update_result(update_result(t, s).0, s).1[j],
            ) && !(update_result(update_result(t, s).0, s).1[j] is NoDevicesFound),
{
    lemma_scan_discoveries(t.known, s);
    let t1 = update_result(t, s).0;
    if s.len() > 0 {
        lemma_scan_settled(t1.known, s);
        lemma_scan_discoveries(t1.known, s);
    }
}

/// The tracker after a run of snapshots, and every event of the run in order.
pub open spec fn run_updates(t: TrackerView, snaps: Seq<Seq<EntryView>>) -> (TrackerView, Seq<EventView>)
    decreases snaps.len(),
{
    if snaps.len() == 0 {
        (t, Seq::empty())
    } else {
        let (t1, evs) = run_updates(t, snaps.drop_last());
        let (t2, e) = update_result(t1, snaps.last());
        (t2, evs + e)
    }
}

/// Over a whole run, an identity is discovered at most once, and never one
/// that the tracker already held.
pub proof fn lemma_run_discovers_each_identity_once(t: TrackerView, snaps: Seq<Seq<EntryView>>)
    ensures
        t.known.subset_of(run_updates(t, snaps).0.known),
        forall|j: int|
            0 <= j < run_updates(t, snaps).1.len() && is_discovery(#[trigger] run_updates(t, snaps).1[j]) ==> !t.known.contains(
                discovery_identity(run_updates(t, snaps).1[j]),
            ) && run_updates(t, snaps).0.known.contains(discovery_identity(run_updates(t, snaps).1[j])),
        forall|i: int, j: int|
            0 <= i < j < run_updates(t, snaps).1.len() && is_discovery(run_updates(t, snaps).1[i]) && is_discovery(
                run_updates(t, snaps).1[j],
            ) ==> discovery_identity(#[trigger] run_updates(t, snaps).1[i]) != discovery_identity(
                #[trigger] run_updates(t, snaps).1[j],
            ),
    decreases snaps.len(),
{
    if snaps.len() > 0 {
        lemma_run_discovers_each_identity_once(t, snaps.drop_last());
        let (t1, evs) = run_updates(t, snaps.drop_last());
        lemma_update_discoveries_are_new(t1, snaps.last());
        let (t2, e) = update_result(t1, snaps.last());
        let all = evs + e;
        assert forall|j: int| 0 <= j < all.len() && is_discovery(#[trigger] all[j]) implies !t.known.contains(
            discovery_identity(all[j]),
        ) && t2.known.contains(discovery_identity(all[j])) by {
            if j >= evs.len() {
                assert(all[j] == e[j - evs.len()]);
            }
        }
        assert forall|i: int, j: int|
            0 <= i < j < all.len() && is_discovery(all[i]) && is_discovery(all[j]) implies discovery_identity(
            #[trigger] all[i],
        ) != discovery_identity(#[trigger] all[j]) by {
            if j >= evs.len() {
                assert(all[j] == e[j - evs.len()]);
                if i >= evs.len() {
                    assert(all[i] == e[i - evs.len()]);
                }
            }
        }
    }
}

/// The "no devices" notice is a one-way latch: the first empty snapshot
/// gives exactly that notice, and once given it never comes again.
pub proof fn lemma_empty_notice_latch(t: TrackerView, s: Seq<EntryView>)
    ensures
        update_result(t, s).0.empty_reported == (t.empty_reported || s.len() == 0),
        !t.empty_reported && s.len() == 0 ==> update_result(t, s).1 == seq![EventView::NoDevicesFound],
        forall|j: int|
            0 <= j < update_result(t, s).1.len() && #[trigger] update_result(t, s).1[j] is NoDevicesFound
                ==> !t.empty_reported && s.len() == 0 && update_result(t, s).1.len() == 1,
{
    lemma_scan_discoveries(t.known, s);
}

/// Over a whole run the "no devices" notice comes at most once, and never
/// when it had already been given before the run.
pub proof fn lemma_run_reports_empty_once(t: TrackerView, snaps: Seq<Seq<EntryView>>)
    ensures
        t.empty_reported ==> run_updates(t, snaps).0.empty_reported,
        forall|j: int|
            0 <= j < run_updates(t, snaps).1.len() && #[trigger] run_updates(t, snaps).1[j] is NoDevicesFound
                ==> !t.empty_reported && run_updates(t, snaps).0.empty_reported,
        forall|i: int, j: int|
            0 <= i < j < run_updates(t, snaps).1.len() && #[trigger] run_updates(t, snaps).1[i] is NoDevicesFound
                ==> !(#[trigger] run_updates(t, snaps).1[j] is NoDevicesFound),
    decreases snaps.len(),
{
    if snaps.len() > 0 {
        lemma_run_reports_empty_once(t, snaps.drop_last());
        let (t1, evs) = run_updates(t, snaps.drop_last());
        lemma_empty_notice_latch(t1, snaps.last());
        let (t2, e) = update_result(t1, snaps.last());
        let all = evs + e;
        assert forall|j: int| 0 <= j < all.len() && #[trigger] all[j] is NoDevicesFound implies !t.empty_reported
            && t2.empty_reported by {
            if j >= evs.len() {
                assert(all[j] == e[j - evs.len()]);
                assert(e[j - evs.len()] is NoDevicesFound);
                assert(!t1.empty_reported);
            } else {
                assert(all[j] == evs[j]);
                assert(t1.empty_reported);
            }
        }
        assert forall|i: int, j: int|
            0 <= i < j < all.len() && #[trigger] all[i] is NoDevicesFound implies !(#[trigger] all[j] is NoDevicesFound) by {
            if j >= evs.len() {
                assert(all[j] == e[j - evs.len()]);
                if i >= evs.len() {
                    assert(all[i] == e[i - evs.len()]);
                } else {
                    assert(all[i] == evs[i]);
                }
            } else {
                assert(all[i] == evs[i]);
                assert(all[j] == evs[j]);
            }
        }
    }
}

/// The device index an event speaks of; -1 for the "no devices" notice.
pub open spec fn event_index(ev: EventView) -> int {
    match ev {
        EventView::NoDevicesFound => -1,
        EventView::DeviceDiscovered { index, .. } => index as int,
        EventView::DeviceIdentityUnresolved { index, .. } => index as int,
    }
}

/// Whether the entries' indices strictly increase along the snapshot.
pub open spec fn indices_increasing(s: Seq<EntryView>) -> bool {
    forall|i: int, j: int| 0 <= i < j < s.len() ==> (#[trigger] s[i]).index < (#[trigger] s[j]).index
}

proof fn lemma_scan_in_entry_order(known: Set<Seq<char>>, s: Seq<EntryView>)
    requires
        indices_increasing(s),
    ensures
        forall|j: int|
            0 <= j < scan(known, s).1.len() ==> exists|m: int|
                0 <= m < s.len() && event_index(#[trigger] scan(known, s).1[j]) == s[m].index,
        forall|i: int, j: int|
            0 <= i < j < scan(known, s).1.len() ==> event_index(#[trigger] scan(known, s).1[i]) < event_index(
                #[trigger] scan(known, s).1[j],
            ),
    decreases s.len(),
{
    if s.len() > 0 {
        let d = s.drop_last();
        assert forall|i: int, j: int| 0 <= i < j < d.len() implies (#[trigger] d[i]).index < (#[trigger] d[j]).index by {
            assert(d[i] == s[i] && d[j] == s[j]);
        }
        lemma_scan_in_entry_order(known, d);
        let (k, evs) = scan(known, d);
        let (k2, evs2) = scan(known, s);
        let last = s.len() - 1;
        assert forall|j: int| 0 <= j < evs2.len() implies exists|m: int|
            0 <= m < s.len() && event_index(#[trigger] evs2[j]) == s[m].index by {
            if j < evs.len() {
                assert(evs2[j] == evs[j]);
                let m = choose|m: int| 0 <= m < d.len() && event_index(evs[j]) == d[m].index;
                assert(d[m] == s[m]);
            } else {
                assert(event_index(evs2[j]) == s[last].index);
            }
        }
        assert forall|i: int, j: int| 0 <= i < j < evs2.len() implies event_index(#[trigger] evs2[i]) < event_index(
            #[trigger] evs2[j],
        ) by {
            assert(evs2[i] == evs[i]);
            if j < evs.len() {
                assert(evs2[j] == evs[j]);
            } else {
                let m = choose|m: int| 0 <= m < d.len() && event_index(evs[i]) == d[m].index;
                assert(d[m] == s[m]);
                assert(s[m].index < s[last].index);
            }
        }
    }
}

/// Events come in the order of the entries they are about: with entry
/// indices increasing along the snapshot, the events' indices increase too.
pub proof fn lemma_events_in_entry_order(t: TrackerView, s: Seq<EntryView>)
    requires
        indices_increasing(s),
    ensures
        forall|i: int, j: int|
            0 <= i < j < update_result(t, s).1.len() ==> event_index(#[trigger] update_result(t, s).1[i])
                < event_index(#[trigger] update_result(t, s).1[j]),
{
    lemma_scan_in_entry_order(t.known, s);
}

proof fn lemma_scan_reports_unresolved(known: Set<Seq<char>>, s: Seq<EntryView>, k: int, error: Seq<char>)
    requires
        0 <= k < s.len(),
        s[k].identity == Err::<Seq<char>, Seq<char>>(error),
    ensures
        exists|j: int|
            0 <= j < scan(known, s).1.len() && #[trigger] scan(known, s).1[j]
                == (EventView::DeviceIdentityUnresolved { name: s[k].name, index: s[k].index, error }),
    decreases s.len(),
{
    let d = s.drop_last();
    let (k2, evs2) = scan(known, s);
    let ev = EventView::DeviceIdentityUnresolved { name: s[k].name, index: s[k].index, error };
    if k == s.len() - 1 {
        assert(evs2[evs2.len() - 1] == ev);
    } else {
        assert(d[k] == s[k]);
        lemma_scan_reports_unresolved(known, d, k, error);
        let evs = scan(known, d).1;
        let j = choose|j: int| 0 <= j < evs.len() && #[trigger] evs[j] == ev;
        assert(evs2[j] == evs[j]);
    }
}

/// An entry whose identity fails to resolve is reported on every update it
/// appears in, whatever the tracker has seen before.
pub proof fn lemma_unresolved_always_reported(t: TrackerView, s: Seq<EntryView>, k: int, error: Seq<char>)
    requires
        0 <= k < s.len(),
        s[k].identity == Err::<Seq<char>, Seq<char>>(error),
    ensures
        exists|j: int|
            0 <= j < update_result(t, s).1.len() && #[trigger] update_result(t, s).1[j]
                == (EventView::DeviceIdentityUnresolved { name: s[k].name, index: s[k].index, error }),
{
    lemma_scan_reports_unresolved(t.known, s, k, error);
    let ev = EventView::DeviceIdentityUnresolved { name: s[k].name, index: s[k].index, error };
    let evs = scan(t.known, s).1;
    let j = choose|j: int| 0 <= j < evs.len() && #[trigger] evs[j] == ev;
    assert(update_result(t, s).1[j] == ev);
}

} // verus!
