//! The operator-side input tick: on a fixed cadence, emit a heartbeat when
//! one is due, a button message per discrete edge, and — when any input
//! event occurred — one joystick message carrying the tick's sample.
//!
//! The sample starts from all-zero every tick and only the axes that moved
//! this tick overwrite their zero; an axis unchanged within the tick
//! reports zero, not its last true value. Y axes are sign-inverted, so
//! device "up" maps to a positive forward command.

use vstd::prelude::*;
use crate::mapper::{JoystickData, MILLI};
use crate::protocol::{
    button_line, encode_button, encode_joysticks, encode_ping, joysticks_line, ping_line,
};
use crate::text::byte_views;
use crate::wire::NL;

verus! {

/// Milliseconds between two heartbeats.
pub const PING_INTERVAL_MS: u64 = 1000;

/// The heartbeat is due: at least the ping interval has elapsed since the
/// last one.
pub fn heartbeat_due(elapsed_ms: u64) -> (r: bool)
    ensures
        r == (elapsed_ms >= PING_INTERVAL_MS),
{
    elapsed_ms >= PING_INTERVAL_MS
}

/// Which joystick axis an input event moved.
#[derive(PartialEq, Eq, Structural, Clone, Copy, Debug)]
pub enum AxisId {
    LeftX,
    LeftY,
    RightX,
    RightY,
}

/// One operator input event observed since the previous tick.
pub enum InputEvent {
    /// An axis moved; the value is in milli-units, device sign.
    AxisChanged { axis: AxisId, value: i32 },
    /// A button changed; one event per discrete transition, never batched.
    ButtonEdge { name: Vec<u8>, down: bool },
}

/// The event carries a full-scale axis value, or a button name that fits
/// on one protocol line.
pub open spec fn event_wf(e: InputEvent) -> bool {
    match e {
        InputEvent::AxisChanged { axis, value } => -MILLI <= value <= MILLI,
        InputEvent::ButtonEdge { name, down } => !name@.contains(NL),
    }
}

/// One event folded into the tick's sample: an axis event overwrites its
/// axis — Y axes sign-inverted — and a button event changes nothing.
pub open spec fn apply_event(acc: (int, int, int, int), e: InputEvent) -> (int, int, int, int) {
    match e {
        InputEvent::AxisChanged { axis, value } => match axis {
            AxisId::LeftX => (value as int, acc.1, acc.2, acc.3),
            AxisId::LeftY => (acc.0, -(value as int), acc.2, acc.3),
            AxisId::RightX => (acc.0, acc.1, value as int, acc.3),
            AxisId::RightY => (acc.0, acc.1, acc.2, -(value as int)),
        },
        InputEvent::ButtonEdge { .. } => acc,
    }
}

/// The tick's sample after folding `events` into `acc`, in order.
pub open spec fn fold_sample(acc: (int, int, int, int), events: Seq<InputEvent>) -> (
    int,
    int,
    int,
    int,
)
    decreases events.len(),
{
    if events.len() == 0 {
        acc
    } else {
        fold_sample(apply_event(acc, events[0]), events.skip(1))
    }
}

/// Folding one more event folds it after the others.
pub proof fn lemma_fold_sample_push(acc: (int, int, int, int), events: Seq<InputEvent>, e: InputEvent)
    ensures
        fold_sample(acc, events.push(e)) == apply_event(fold_sample(acc, events), e),
    decreases events.len(),
{
    if events.len() == 0 {
        assert(events.push(e)[0] == e);
        assert(events.push(e).skip(1) =~= Seq::<InputEvent>::empty());
        assert(fold_sample(acc, events.push(e)) == fold_sample(
            apply_event(acc, e),
            events.push(e).skip(1),
        ));
        assert(fold_sample(apply_event(acc, e), Seq::<InputEvent>::empty()) == apply_event(
            acc,
            e,
        ));
        assert(fold_sample(acc, events) == acc);
    } else {
        assert(events.push(e)[0] == events[0]);
        assert(events.push(e).skip(1) =~= events.skip(1).push(e));
        lemma_fold_sample_push(apply_event(acc, events[0]), events.skip(1), e);
    }
}

/// The button messages of a tick: one line per button edge, in event
/// order; axis events add none.
pub open spec fn button_msgs(events: Seq<InputEvent>) -> Seq<Seq<u8>>
    decreases events.len(),
{
    if events.len() == 0 {
        Seq::<Seq<u8>>::empty()
    } else {
        (match events[0] {
            InputEvent::ButtonEdge { name, down } => seq![button_line(name@, down)],
            InputEvent::AxisChanged { .. } => Seq::<Seq<u8>>::empty(),
        }) + button_msgs(events.skip(1))
    }
}

/// One more event appends its button message, if any, after the others.
pub proof fn lemma_button_msgs_push(events: Seq<InputEvent>, e: InputEvent)
    ensures
        button_msgs(events.push(e)) == button_msgs(events) + (match e {
            InputEvent::ButtonEdge { name, down } => seq![button_line(name@, down)],
            InputEvent::AxisChanged { .. } => Seq::<Seq<u8>>::empty(),
        }),
    decreases events.len(),
{
    let tail = (match e {
        InputEvent::ButtonEdge { name, down } => seq![button_line(name@, down)],
        InputEvent::AxisChanged { .. } => Seq::<Seq<u8>>::empty(),
    });
    if events.len() == 0 {
        assert(events.push(e)[0] == e);
        assert(events.push(e).skip(1) =~= Seq::<InputEvent>::empty());
        assert(button_msgs(events.push(e)) == tail + button_msgs(events.push(e).skip(1)));
        assert(button_msgs(Seq::<InputEvent>::empty()) =~= Seq::<Seq<u8>>::empty());
        assert(button_msgs(events.push(e)) =~= tail);
        assert(button_msgs(events) + tail =~= tail);
    } else {
        assert(events.push(e)[0] == events[0]);
        assert(events.push(e).skip(1) =~= events.skip(1).push(e));
        lemma_button_msgs_push(events.skip(1), e);
        let head = (match events[0] {
            InputEvent::ButtonEdge { name, down } => seq![button_line(name@, down)],
            InputEvent::AxisChanged { .. } => Seq::<Seq<u8>>::empty(),
        });
        assert(head + (button_msgs(events.skip(1)) + tail) =~= (head + button_msgs(
            events.skip(1),
        )) + tail);
    }
}

/// Every protocol line one tick emits, in order: the heartbeat when due,
/// then one button line per edge, then — if any event occurred — one
/// joystick line with the folded sample.
pub open spec fn tick_lines(ping_due: bool, events: Seq<InputEvent>) -> Seq<Seq<u8>> {
    let sample = fold_sample((0, 0, 0, 0), events);
    (if ping_due {
        seq![ping_line()]
    } else {
        Seq::<Seq<u8>>::empty()
    }) + button_msgs(events) + (if events.len() > 0 {
        seq![joysticks_line(sample.0, sample.1, sample.2, sample.3)]
    } else {
        Seq::<Seq<u8>>::empty()
    })
}

/// Encodes everything one tick emits, exactly as [`tick_lines`] lists it.
pub fn encode_tick(ping_due: bool, events: &Vec<InputEvent>) -> (msgs: Vec<Vec<u8>>)
    requires
        forall|i: int| 0 <= i < events@.len() ==> event_wf(events@[i]),
    ensures
        byte_views(msgs@) == tick_lines(ping_due, events@),
{
    let mut msgs: Vec<Vec<u8>> = Vec::new();
    let ghost head = if ping_due { seq![ping_line()] } else { Seq::<Seq<u8>>::empty() };
    if ping_due {
        msgs.push(encode_ping());
    }
    proof {
        assert(byte_views(msgs@) =~= head);
    }

    let mut sample = JoystickData { lx: 0, ly: 0, rx: 0, ry: 0 };
    let n = events.len();
    let mut i: usize = 0;
    while i < n
        invariant
            i <= n,
            n == events@.len(),
            forall|k: int| 0 <= k < n ==> event_wf(events@[k]),
            byte_views(msgs@) =~= head + button_msgs(events@.take(i as int)),
            (sample.lx as int, sample.ly as int, sample.rx as int, sample.ry as int)
                == fold_sample((0, 0, 0, 0), events@.take(i as int)),
            -MILLI <= sample.lx <= MILLI,
            -MILLI <= sample.ly <= MILLI,
            -MILLI <= sample.rx <= MILLI,
            -MILLI <= sample.ry <= MILLI,
        decreases n - i,
    {
        let ghost prefix = events@.take(i as int);
        proof {
            assert(events@.take(i as int + 1) =~= prefix.push(events@[i as int]));
            lemma_button_msgs_push(prefix, events@[i as int]);
            lemma_fold_sample_push((0, 0, 0, 0), prefix, events@[i as int]);
            assert(event_wf(events@[i as int]));
        }
        match &events[i] {
            InputEvent::AxisChanged { axis, value } => {
                let v = *value;
                match axis {
                    AxisId::LeftX => {
                        sample.lx = v;
                    },
                    AxisId::LeftY => {
                        sample.ly = -v;
                    },
                    AxisId::RightX => {
                        sample.rx = v;
                    },
                    AxisId::RightY => {
                        sample.ry = -v;
                    },
                }
                proof {
                    assert(byte_views(msgs@) =~= head + button_msgs(events@.take(i as int + 1)));
                }
            },
            InputEvent::ButtonEdge { name, down } => {
                let line = encode_button(name, *down);
                proof {
                    assert(byte_views(msgs@.push(line)) =~= byte_views(msgs@) + seq![line@]);
                    assert(byte_views(msgs@.push(line)) =~= head + button_msgs(
                        events@.take(i as int + 1),
                    ));
                }
                msgs.push(line);
            },
        }
        i += 1;
    }
    proof {
        assert(events@.take(n as int) =~= events@);
    }
    if n > 0 {
        let line = encode_joysticks(&sample);
        proof {
            assert(byte_views(msgs@.push(line)) =~= byte_views(msgs@) + seq![line@]);
            assert(byte_views(msgs@.push(line)) =~= tick_lines(ping_due, events@));
        }
        msgs.push(line);
    } else {
        proof {
            assert(byte_views(msgs@) =~= tick_lines(ping_due, events@));
        }
    }
    msgs
}

/// The gamepad buttons the operator panel can show.
#[derive(PartialEq, Eq, Structural, Clone, Copy, Debug)]
pub enum PadButton {
    South,
    East,
    West,
    North,
    LeftTrigger,
    RightTrigger,
    /// Any button the panel has no indicator for.
    Other,
}

/// The operator panel's button indicators.
#[derive(PartialEq, Eq, Structural, Clone, Copy, Debug)]
pub enum PanelButton {
    Cross,
    Circle,
    Square,
    Triangle,
    L1,
    R1,
}

/// The panel indicator a gamepad button drives, if any.
pub open spec fn spec_panel_button(b: PadButton) -> Option<PanelButton> {
    match b {
        PadButton::South => Some(PanelButton::Cross),
        PadButton::East => Some(PanelButton::Circle),
        PadButton::West => Some(PanelButton::Square),
        PadButton::North => Some(PanelButton::Triangle),
        PadButton::LeftTrigger => Some(PanelButton::L1),
        PadButton::RightTrigger => Some(PanelButton::R1),
        PadButton::Other => None,
    }
}

/// Maps a gamepad button to the panel indicator it drives, if any.
pub fn panel_button(b: PadButton) -> (r: Option<PanelButton>)
    ensures
        r == spec_panel_button(b),
{
    match b {
        PadButton::South => Some(PanelButton::Cross),
        PadButton::East => Some(PanelButton::Circle),
        PadButton::West => Some(PanelButton::Square),
        PadButton::North => Some(PanelButton::Triangle),
        PadButton::LeftTrigger => Some(PanelButton::L1),
        PadButton::RightTrigger => Some(PanelButton::R1),
        PadButton::Other => None,
    }
}

} // verus!
