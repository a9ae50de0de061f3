use gamepad_discovery::event::{display_name_or_unknown, push_decimal, DeviceEntry, Event};
use gamepad_discovery::scheduler::{skipped_tick, PollScheduler, TickAction};
use gamepad_discovery::tracker::TrackerState;

fn found(id: &str, name: &str, index: u32) -> DeviceEntry {
    DeviceEntry { index, name: name.to_string(), identity: Ok(id.to_string()) }
}

fn unresolved(name: &str, index: u32, error: &str) -> DeviceEntry {
    DeviceEntry { index, name: name.to_string(), identity: Err(error.to_string()) }
}

fn discovered(id: &str, name: &str, index: u32) -> Event {
    Event::DeviceDiscovered { identity: id.to_string(), name: name.to_string(), index }
}

#[test]
fn empty_then_device_then_same_then_empty() {
    let mut t = TrackerState::new();
    assert_eq!(t.update(&vec![]), vec![Event::NoDevicesFound]);
    assert!(t.empty_reported());
    assert_eq!(t.update(&vec![found("X", "Pad1", 0)]), vec![discovered("X", "Pad1", 0)]);
    assert_eq!(t.update(&vec![found("X", "Pad1", 0)]), vec![]);
    assert_eq!(t.update(&vec![]), vec![]);
}

#[test]
fn duplicate_identity_in_one_snapshot_is_discovered_once() {
    let mut t = TrackerState::new();
    let events = t.update(&vec![found("A", "Pad", 0), found("A", "Pad", 1)]);
    assert_eq!(events, vec![discovered("A", "Pad", 0)]);
}

#[test]
fn repeated_snapshot_discovers_nothing_new() {
    let mut t = TrackerState::new();
    let snapshot = vec![found("A", "Pad A", 0), found("B", "Pad B", 1), unresolved("Pad C", 2, "denied")];
    let first = t.update(&snapshot);
    assert_eq!(first.len(), 3);
    for _ in 0..3 {
        let again = t.update(&snapshot);
        assert_eq!(
            again,
            vec![Event::DeviceIdentityUnresolved { name: "Pad C".to_string(), index: 2, error: "denied".to_string() }]
        );
    }
    assert!(t.knows(&"A".to_string()));
    assert!(t.knows(&"B".to_string()));
    assert!(!t.knows(&"C".to_string()));
}

#[test]
fn no_devices_notice_never_comes_back() {
    let mut t = TrackerState::new();
    assert!(!t.empty_reported());
    assert_eq!(t.update(&vec![found("A", "Pad", 0)]), vec![discovered("A", "Pad", 0)]);
    assert!(!t.empty_reported());
    assert_eq!(t.update(&vec![]), vec![Event::NoDevicesFound]);
    assert_eq!(t.update(&vec![found("B", "Pad", 0)]), vec![discovered("B", "Pad", 0)]);
    assert_eq!(t.update(&vec![]), vec![]);
    assert_eq!(t.update(&vec![]), vec![]);
}

#[test]
fn events_follow_entry_order() {
    let mut t = TrackerState::new();
    let events = t.update(&vec![found("A", "a", 0), unresolved("b", 1, "e"), found("C", "c", 2)]);
    assert_eq!(
        events,
        vec![
            discovered("A", "a", 0),
            Event::DeviceIdentityUnresolved { name: "b".to_string(), index: 1, error: "e".to_string() },
            discovered("C", "c", 2),
        ]
    );
}

#[test]
fn unresolved_entry_reported_on_every_poll() {
    let mut t = TrackerState::new();
    let snapshot = vec![unresolved("Pad", 0, "no id"), unresolved("Pad", 1, "no id")];
    let expected = vec![
        Event::DeviceIdentityUnresolved { name: "Pad".to_string(), index: 0, error: "no id".to_string() },
        Event::DeviceIdentityUnresolved { name: "Pad".to_string(), index: 1, error: "no id".to_string() },
    ];
    for _ in 0..3 {
        assert_eq!(t.update(&snapshot), expected);
    }
}

#[test]
fn fatal_error_stops_rearming() {
    let mut s = PollScheduler::new();
    let first = s.on_signal(Ok(vec![]));
    assert_eq!(first, TickAction { events: vec![Event::NoDevicesFound], rearm: true, fatal: None });
    let second = s.on_signal(Ok(vec![found("X", "Pad1", 3)]));
    assert_eq!(second, TickAction { events: vec![discovered("X", "Pad1", 3)], rearm: true, fatal: None });
    assert!(!s.is_halted());
    let fatal = s.on_signal(Err("boom".to_string()));
    assert_eq!(fatal, TickAction { events: vec![], rearm: false, fatal: Some("boom".to_string()) });
    assert!(s.is_halted());
    let after = s.on_signal(Ok(vec![found("Y", "Pad2", 0)]));
    assert_eq!(after, TickAction { events: vec![], rearm: false, fatal: None });
    let after_empty = s.on_signal(Ok(vec![]));
    assert!(!after_empty.rearm);
    assert!(after_empty.events.is_empty());
}

#[test]
fn skipped_tick_reports_nothing_and_rearms() {
    let ok = skipped_tick(Ok(vec![found("X", "Pad1", 0)]));
    assert_eq!(ok, TickAction { events: vec![], rearm: true, fatal: None });
    let err = skipped_tick(Err("gone".to_string()));
    assert_eq!(err, TickAction { events: vec![], rearm: false, fatal: Some("gone".to_string()) });
}

#[test]
fn lines_match_reporter_format() {
    assert_eq!(Event::NoDevicesFound.line(), "No Gamepads found at startup");
    assert_eq!(discovered("X", "Pad1", 0).line(), "Found controller: Pad1, X, index: 0");
    let unresolved =
        Event::DeviceIdentityUnresolved { name: "unknown".to_string(), index: 12, error: "Access denied".to_string() };
    assert_eq!(unresolved.line(), "Found controller: unknown, Error getting id: Access denied, index: 12");
}

#[test]
fn decimal_notation() {
    for n in [0u32, 7, 10, 99, 100, 4096, 1234567, u32::MAX] {
        let mut s = String::from("i=");
        push_decimal(&mut s, n);
        assert_eq!(s, format!("i={}", n));
    }
}

#[test]
fn missing_display_name_becomes_unknown() {
    assert_eq!(display_name_or_unknown(None), "unknown");
    assert_eq!(display_name_or_unknown(Some("Xbox Controller".to_string())), "Xbox Controller");
}
