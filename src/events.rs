//! Raw input-event records, as written to an evdev input device.
use vstd::prelude::*;

verus! {

/// Event type of a synchronization marker.
pub const EV_SYN: u16 = 0;

/// Event type of a key or button.
pub const EV_KEY: u16 = 1;

/// Event type of an absolute axis.
pub const EV_ABS: u16 = 3;

/// One input-event record: event type, code and value.
#[derive(Clone, Copy, Debug, PartialEq, Eq, Structural)]
pub struct InputRecord {
    pub kind: u16,
    pub code: u16,
    pub value: i32,
}

pub open spec fn rec(kind: u16, code: u16, value: i32) -> InputRecord {
    InputRecord { kind, code, value }
}

/// The synchronization record that closes a batch of events.
pub open spec fn syn_report() -> InputRecord {
    rec(EV_SYN, 0, 0)
}

pub fn record(kind: u16, code: u16, value: i32) -> (r: InputRecord)
    ensures
        r == rec(kind, code, value),
{
    InputRecord { kind, code, value }
}

/// A step of an input sequence: send a batch of records, or wait.
#[derive(Debug, PartialEq, Eq)]
pub enum Step {
    Send(Vec<InputRecord>),
    Pause(u32),
}

/// What a step is, with each batch taken as a sequence of records.
pub enum StepView {
    Send(Seq<InputRecord>),
    Pause(u32),
}

pub open spec fn step_view(s: Step) -> StepView {
    match s {
        Step::Send(v) => StepView::Send(v@),
        Step::Pause(ms) => StepView::Pause(ms),
    }
}

pub open spec fn steps_view(s: Seq<Step>) -> Seq<StepView> {
    s.map_values(|x: Step| step_view(x))
}

} // verus!
