//! The touch sensor: recognizes a release in the trigger zone, and synthesizes
//! multi-touch contacts.
use vstd::prelude::*;

use crate::device::{screen_to_input, touch_transform, DeviceModel};
use crate::events::{rec, record, steps_view, syn_report, InputRecord, Step, StepView, EV_ABS, EV_SYN};

verus! {

pub const ABS_MT_SLOT: u16 = 47;

pub const ABS_MT_TOUCH_MAJOR: u16 = 48;

pub const ABS_MT_TOUCH_MINOR: u16 = 49;

pub const ABS_MT_ORIENTATION: u16 = 52;

pub const ABS_MT_POSITION_X: u16 = 53;

pub const ABS_MT_POSITION_Y: u16 = 54;

pub const ABS_MT_TRACKING_ID: u16 = 57;

pub const ABS_MT_PRESSURE: u16 = 58;

/// The tracking id that reports the end of a contact.
pub const RELEASED: i32 = -1;

/// A region of raw touch coordinates: the points beyond both bounds.
#[derive(Clone, Copy, Debug, PartialEq, Eq, Structural)]
pub struct TriggerZone {
    pub min_x: i32,
    pub min_y: i32,
}

impl TriggerZone {
    pub open spec fn spec_contains(&self, x: i32, y: i32) -> bool {
        x > self.min_x && y > self.min_y
    }

    /// The corner of the surface that triggers the assistant.
    pub fn corner() -> (r: TriggerZone)
        ensures
            r.min_x == 1345 && r.min_y == 1815,
    {
        TriggerZone { min_x: 1345, min_y: 1815 }
    }

    pub fn contains(&self, x: i32, y: i32) -> (r: bool)
        ensures
            r == self.spec_contains(x, y),
    {
        x > self.min_x && y > self.min_y
    }
}

/// Whether a contact is being followed.
#[derive(Clone, Copy, Debug, PartialEq, Eq, Structural)]
pub enum TouchState {
    Idle,
    TrackingContact,
}

/// Follows one contact through a stream of touch events.
#[derive(Clone, Copy, Debug, PartialEq, Eq, Structural)]
pub struct TouchTracker {
    pub zone: TriggerZone,
    pub state: TouchState,
    pub last_x: i32,
    pub last_y: i32,
}

/// The tracker after event `e`, and whether `e` fires the trigger. A new
/// tracking id starts a contact; position updates during a contact are kept
/// and are ignored outside one; the release of a tracked contact fires when
/// its last position lies in the zone, and ends the contact.
pub open spec fn tracker_step(t: TouchTracker, e: InputRecord) -> (TouchTracker, bool) {
    if e.kind != EV_ABS {
        (t, false)
    } else if e.code == ABS_MT_TRACKING_ID {
        if e.value != RELEASED {
            (TouchTracker { state: TouchState::TrackingContact, ..t }, false)
        } else if t.state == TouchState::TrackingContact {
            (TouchTracker { state: TouchState::Idle, ..t }, t.zone.spec_contains(t.last_x, t.last_y))
        } else {
            (t, false)
        }
    } else if e.code == ABS_MT_POSITION_X && t.state == TouchState::TrackingContact {
        (TouchTracker { last_x: e.value, ..t }, false)
    } else if e.code == ABS_MT_POSITION_Y && t.state == TouchState::TrackingContact {
        (TouchTracker { last_y: e.value, ..t }, false)
    } else {
        (t, false)
    }
}

impl TouchTracker {
    pub fn new(zone: TriggerZone) -> (r: TouchTracker)
        ensures
            r.zone == zone,
            r.state == TouchState::Idle,
            r.last_x == 0 && r.last_y == 0,
    {
        TouchTracker { zone, state: TouchState::Idle, last_x: 0, last_y: 0 }
    }

    /// Takes in one event; true when it fires the trigger.
    pub fn observe(&mut self, e: InputRecord) -> (fired: bool)
        ensures
            (*final(self), fired) == tracker_step(*old(self), e),
    {
        if e.kind != EV_ABS {
            return false;
        }
        if e.code == ABS_MT_TRACKING_ID {
            if e.value != RELEASED {
                self.state = TouchState::TrackingContact;
                false
            } else if self.state == TouchState::TrackingContact {
                self.state = TouchState::Idle;
                self.zone.contains(self.last_x, self.last_y)
            } else {
                false
            }
        } else if e.code == ABS_MT_POSITION_X && self.state == TouchState::TrackingContact {
            self.last_x = e.value;
            false
        } else if e.code == ABS_MT_POSITION_Y && self.state == TouchState::TrackingContact {
            self.last_y = e.value;
            false
        } else {
            false
        }
    }

    /// Takes in a batch of events in order, and stops at the first one that
    /// fires the trigger; true when one did.
    pub fn observe_all(&mut self, events: &Vec<InputRecord>) -> (fired: bool)
        ensures
            fired <==> exists|k: int|
                0 <= k < events@.len() && #[trigger] fires_at(*old(self), events@, k),
            fired ==> exists|k: int|
                0 <= k < events@.len() && #[trigger] fires_at(*old(self), events@, k)
                    && forall|j: int| 0 <= j < k ==> !#[trigger] fires_at(*old(self), events@, j),
            !fired ==> *final(self) == run_tracker(*old(self), events@),
    {
        let ghost t0 = *self;
        let mut k: usize = 0;
        while k < events.len()
            invariant
                k <= events@.len(),
                t0 == *old(self),
                *self == run_tracker(t0, events@.subrange(0, k as int)),
                forall|j: int| 0 <= j < k ==> !#[trigger] fires_at(t0, events@, j),
            decreases events@.len() - k,
        {
            let fired = self.observe(events[k]);
            assert(events@.subrange(0, k + 1).drop_last() =~= events@.subrange(0, k as int));
            assert(fired == fires_at(t0, events@, k as int));
            if fired {
                return true;
            }
            k = k + 1;
        }
        assert(events@.subrange(0, events@.len() as int) =~= events@);
        false
    }
}

/// Whether event `k` of `evs` fires the trigger, with the events before it taken in.
pub open spec fn fires_at(t: TouchTracker, evs: Seq<InputRecord>, k: int) -> bool {
    tracker_step(run_tracker(t, evs.subrange(0, k)), evs[k]).1
}

/// The tracker after a sequence of events.
pub open spec fn run_tracker(t: TouchTracker, evs: Seq<InputRecord>) -> TouchTracker
    decreases evs.len(),
{
    if evs.len() == 0 {
        t
    } else {
        tracker_step(run_tracker(t, evs.drop_last()), evs.last()).0
    }
}

/// The trigger fires on a release if and only if a contact was being tracked
/// and its most recent position lies in the zone; in particular a release
/// outside the zone never fires, and nothing but a release ever does.
pub proof fn lemma_trigger_only_on_release_in_zone(t: TouchTracker, e: InputRecord)
    ensures
        tracker_step(t, e).1 <==> (e.kind == EV_ABS && e.code == ABS_MT_TRACKING_ID && e.value == RELEASED
            && t.state == TouchState::TrackingContact && t.zone.spec_contains(t.last_x, t.last_y)),
        e.kind == EV_ABS && e.code == ABS_MT_TRACKING_ID && e.value == RELEASED ==> tracker_step(t, e).0.state
            == TouchState::Idle,
{
}

/// Whether a contact is tracked after `evs`: decided by the latest tracking-id
/// event, a release ending the contact and any other id starting one.
pub open spec fn tracking_after(t: TouchTracker, evs: Seq<InputRecord>) -> bool
    decreases evs.len(),
{
    if evs.len() == 0 {
        t.state == TouchState::TrackingContact
    } else if evs.last().kind == EV_ABS && evs.last().code == ABS_MT_TRACKING_ID {
        evs.last().value != RELEASED
    } else {
        tracking_after(t, evs.drop_last())
    }
}

/// The value of the latest update of axis `code` made while a contact was
/// tracked, or `initial` when there is none.
pub open spec fn latest_update(t: TouchTracker, evs: Seq<InputRecord>, code: u16, initial: i32) -> i32
    decreases evs.len(),
{
    if evs.len() == 0 {
        initial
    } else if evs.last().kind == EV_ABS && evs.last().code == code && tracking_after(t, evs.drop_last()) {
        evs.last().value
    } else {
        latest_update(t, evs.drop_last(), code, initial)
    }
}

proof fn lemma_run_tracker_shape(t: TouchTracker, evs: Seq<InputRecord>)
    ensures
        run_tracker(t, evs).zone == t.zone,
        (run_tracker(t, evs).state == TouchState::TrackingContact) == tracking_after(t, evs),
        run_tracker(t, evs).last_x == latest_update(t, evs, ABS_MT_POSITION_X, t.last_x),
        run_tracker(t, evs).last_y == latest_update(t, evs, ABS_MT_POSITION_Y, t.last_y),
    decreases evs.len(),
{
    if evs.len() > 0 {
        lemma_run_tracker_shape(t, evs.drop_last());
    }
}

/// Over any stream of events, the trigger fires at event `k` exactly when `k`
/// releases a tracked contact whose most recent position updates, counting
/// only those made while a contact was tracked, lie in the trigger zone.
pub proof fn lemma_trigger_on_latest_position(t: TouchTracker, evs: Seq<InputRecord>, k: int)
    requires
        0 <= k < evs.len(),
    ensures
        fires_at(t, evs, k) <==> ({
            let pre = evs.subrange(0, k);
            &&& evs[k].kind == EV_ABS
            &&& evs[k].code == ABS_MT_TRACKING_ID
            &&& evs[k].value == RELEASED
            &&& tracking_after(t, pre)
            &&& t.zone.spec_contains(
                latest_update(t, pre, ABS_MT_POSITION_X, t.last_x),
                latest_update(t, pre, ABS_MT_POSITION_Y, t.last_y),
            )
        }),
{
    lemma_run_tracker_shape(t, evs.subrange(0, k));
}

// ---------------------------------------------------------------------------
// Synthesized contacts

pub open spec fn touch_down_records(x: i32, y: i32) -> Seq<InputRecord> {
    seq![
        rec(EV_ABS, ABS_MT_SLOT, 0),
        rec(EV_ABS, ABS_MT_TRACKING_ID, 1),
        rec(EV_ABS, ABS_MT_POSITION_X, x),
        rec(EV_ABS, ABS_MT_POSITION_Y, y),
        rec(EV_ABS, ABS_MT_PRESSURE, 100),
        rec(EV_ABS, ABS_MT_TOUCH_MAJOR, 17),
        rec(EV_ABS, ABS_MT_TOUCH_MINOR, 17),
        rec(EV_ABS, ABS_MT_ORIENTATION, 4),
        syn_report(),
    ]
}

pub open spec fn touch_move_records(x: i32, y: i32) -> Seq<InputRecord> {
    seq![
        rec(EV_ABS, ABS_MT_SLOT, 0),
        rec(EV_ABS, ABS_MT_TRACKING_ID, 1),
        rec(EV_ABS, ABS_MT_POSITION_X, x),
        rec(EV_ABS, ABS_MT_POSITION_Y, y),
        syn_report(),
    ]
}

pub open spec fn touch_release_records() -> Seq<InputRecord> {
    seq![rec(EV_ABS, ABS_MT_SLOT, 0), rec(EV_ABS, ABS_MT_TRACKING_ID, RELEASED), syn_report()]
}

pub open spec fn raw_touch(m: DeviceModel, p: (i32, i32)) -> (i32, i32) {
    let t = touch_transform(m, p.0 as int, p.1 as int);
    (t.0 as i32, t.1 as i32)
}

pub open spec fn touch_start_steps(m: DeviceModel, p: (i32, i32)) -> Seq<StepView> {
    let r = raw_touch(m, p);
    seq![StepView::Pause(100), StepView::Send(touch_down_records(r.0, r.1)), StepView::Pause(1)]
}

pub open spec fn touch_stop_steps() -> Seq<StepView> {
    seq![StepView::Send(touch_release_records()), StepView::Pause(1)]
}

/// A simulated finger on the touch surface of one device model.
pub struct Touch {
    pub device_model: DeviceModel,
}

impl Touch {
    pub fn new(device_model: DeviceModel) -> (r: Touch)
        ensures
            r.device_model == device_model,
    {
        Touch { device_model }
    }

    /// A tracker for the trigger gesture of this surface.
    pub fn trigger_tracker(&self) -> (r: TouchTracker)
        ensures
            r.zone.min_x == 1345 && r.zone.min_y == 1815,
            r.state == TouchState::Idle,
    {
        TouchTracker::new(TriggerZone::corner())
    }

    /// Places a finger at a canvas point: a settling pause, the contact at
    /// full size and pressure, then a short pause.
    pub fn touch_start(&self, p: (i32, i32)) -> (r: Vec<Step>)
        ensures
            steps_view(r@) == touch_start_steps(self.device_model, p),
    {
        let (x, y) = screen_to_input(self.device_model, p);
        let records = vec![
            record(EV_ABS, ABS_MT_SLOT, 0),
            record(EV_ABS, ABS_MT_TRACKING_ID, 1),
            record(EV_ABS, ABS_MT_POSITION_X, x),
            record(EV_ABS, ABS_MT_POSITION_Y, y),
            record(EV_ABS, ABS_MT_PRESSURE, 100),
            record(EV_ABS, ABS_MT_TOUCH_MAJOR, 17),
            record(EV_ABS, ABS_MT_TOUCH_MINOR, 17),
            record(EV_ABS, ABS_MT_ORIENTATION, 4),
            record(EV_SYN, 0, 0),
        ];
        assert(records@ =~= touch_down_records(x, y));
        let r = vec![Step::Pause(100), Step::Send(records), Step::Pause(1)];
        assert(steps_view(r@) =~= touch_start_steps(self.device_model, p));
        r
    }

    /// Lifts the finger.
    pub fn touch_stop(&self) -> (r: Vec<Step>)
        ensures
            steps_view(r@) == touch_stop_steps(),
    {
        let records = vec![
            record(EV_ABS, ABS_MT_SLOT, 0),
            record(EV_ABS, ABS_MT_TRACKING_ID, RELEASED),
            record(EV_SYN, 0, 0),
        ];
        assert(records@ =~= touch_release_records());
        let r = vec![Step::Send(records), Step::Pause(1)];
        assert(steps_view(r@) =~= touch_stop_steps());
        r
    }

    /// Moves the finger to a canvas point.
    pub fn goto_xy(&self, p: (i32, i32)) -> (r: Vec<Step>)
        ensures
            ({
                let q = raw_touch(self.device_model, p);
                steps_view(r@) == seq![StepView::Send(touch_move_records(q.0, q.1))]
            }),
    {
        let (x, y) = screen_to_input(self.device_model, p);
        let records = vec![
            record(EV_ABS, ABS_MT_SLOT, 0),
            record(EV_ABS, ABS_MT_TRACKING_ID, 1),
            record(EV_ABS, ABS_MT_POSITION_X, x),
            record(EV_ABS, ABS_MT_POSITION_Y, y),
            record(EV_SYN, 0, 0),
        ];
        assert(records@ =~= touch_move_records(x, y));
        let r = vec![Step::Send(records)];
        assert(steps_view(r@) =~= seq![StepView::Send(touch_move_records(x, y))]);
        r
    }

    /// A tap at the middle of the bottom edge of the canvas.
    pub fn tap_middle_bottom(&self) -> (r: Vec<Step>)
        ensures
            steps_view(r@) == touch_start_steps(self.device_model, (384, 1000)) + seq![StepView::Pause(10)]
                + touch_stop_steps() + seq![StepView::Pause(10)],
    {
        let mut r = self.touch_start((384, 1000));
        r.push(Step::Pause(10));
        let mut stop = self.touch_stop();
        r.append(&mut stop);
        r.push(Step::Pause(10));
        assert(steps_view(r@) =~= touch_start_steps(self.device_model, (384, 1000)) + seq![StepView::Pause(10)]
            + touch_stop_steps() + seq![StepView::Pause(10)]);
        r
    }
}

} // verus!
