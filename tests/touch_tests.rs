use ghostwriter::device::DeviceModel;
use ghostwriter::events::{InputRecord, Step};
use ghostwriter::touch::{Touch, TouchState, TouchTracker, TriggerZone};

fn abs(code: u16, value: i32) -> InputRecord {
    InputRecord { kind: 3, code, value }
}

fn syn() -> InputRecord {
    InputRecord { kind: 0, code: 0, value: 0 }
}

fn contact(x: i32, y: i32) -> Vec<InputRecord> {
    vec![abs(57, 4), abs(53, x), abs(54, y), syn()]
}

fn release() -> Vec<InputRecord> {
    vec![abs(57, -1), syn()]
}

fn tracker() -> TouchTracker {
    Touch::new(DeviceModel::Remarkable2).trigger_tracker()
}

#[test]
fn release_in_zone_fires() {
    let mut t = tracker();
    assert!(!t.observe_all(&contact(1400, 1850)));
    assert_eq!(t.state, TouchState::TrackingContact);
    assert!(t.observe_all(&release()));
    assert_eq!(t.state, TouchState::Idle);
}

#[test]
fn release_outside_zone_does_not_fire() {
    let mut t = tracker();
    assert!(!t.observe_all(&contact(1345, 1850)));
    assert!(!t.observe_all(&release()));
    assert!(!t.observe_all(&contact(1400, 1815)));
    assert!(!t.observe_all(&release()));
    assert!(!t.observe_all(&contact(10, 10)));
    assert!(!t.observe_all(&release()));
}

#[test]
fn most_recent_position_decides() {
    let mut t = tracker();
    let mut events = contact(1400, 1850);
    events.push(abs(53, 100));
    events.push(syn());
    assert!(!t.observe_all(&events));
    assert!(!t.observe_all(&release()));
    let mut t = tracker();
    let mut events = contact(100, 100);
    events.push(abs(53, 1400));
    events.push(abs(54, 1860));
    events.extend(release());
    assert!(t.observe_all(&events));
}

#[test]
fn positions_outside_a_contact_are_ignored() {
    let mut t = tracker();
    assert!(!t.observe_all(&vec![abs(53, 1400), abs(54, 1850), syn()]));
    assert_eq!((t.last_x, t.last_y), (0, 0));
    assert!(!t.observe_all(&release()));
}

#[test]
fn release_without_contact_does_not_fire() {
    let mut t = TouchTracker::new(TriggerZone { min_x: -1, min_y: -1 });
    assert!(!t.observe(abs(57, -1)));
    assert!(!t.observe(InputRecord { kind: 1, code: 57, value: 1 }));
    assert_eq!(t.state, TouchState::Idle);
}

#[test]
fn observe_all_stops_at_the_trigger() {
    let mut t = tracker();
    let mut events = contact(1400, 1850);
    events.extend(release());
    events.extend(contact(1, 1));
    assert!(t.observe_all(&events));
    assert_eq!(t.state, TouchState::Idle);
    assert_eq!(t.last_x, 1400);
}

#[test]
fn zone_bounds_are_exclusive() {
    let z = TriggerZone::corner();
    assert!(z.contains(1346, 1816));
    assert!(!z.contains(1345, 1816));
    assert!(!z.contains(1346, 1815));
}

#[test]
fn touch_start_and_stop_steps() {
    let touch = Touch::new(DeviceModel::Remarkable2);
    assert_eq!(
        touch.touch_start((384, 1000)),
        vec![
            Step::Pause(100),
            Step::Send(vec![
                abs(47, 0),
                abs(57, 1),
                abs(53, 702),
                abs(54, 43),
                abs(58, 100),
                abs(48, 17),
                abs(49, 17),
                abs(52, 4),
                syn()
            ]),
            Step::Pause(1),
        ]
    );
    assert_eq!(touch.touch_stop(), vec![Step::Send(vec![abs(47, 0), abs(57, -1), syn()]), Step::Pause(1)]);
    assert_eq!(
        touch.goto_xy((0, 0)),
        vec![Step::Send(vec![abs(47, 0), abs(57, 1), abs(53, 0), abs(54, 1872), syn()])]
    );
}

#[test]
fn tap_middle_bottom_steps() {
    let touch = Touch::new(DeviceModel::Remarkable2);
    let mut expected = touch.touch_start((384, 1000));
    expected.push(Step::Pause(10));
    expected.extend(touch.touch_stop());
    expected.push(Step::Pause(10));
    assert_eq!(touch.tap_middle_bottom(), expected);
}
