//! The newline-delimited command protocol: message encoding on the operator
//! side and command dispatch on the robot side.

use vstd::prelude::*;
use crate::mapper::{calculate_motor_speeds, motor_speed, JoystickData, MILLI};
use crate::text::{
    byte_views, split_commas, split_commas_bytes, spec_tokens, tokenize, COMMA, SPACE,
};
use crate::wire::{fmt_milli, parse_milli, parse_milli_token, write_milli, NL};

verus! {

/// The keyword `PING`.
pub open spec fn ping_kw() -> Seq<u8> {
    seq![80u8, 73u8, 78u8, 71u8]
}

/// The keyword `BTN`.
pub open spec fn btn_kw() -> Seq<u8> {
    seq![66u8, 84u8, 78u8]
}

/// The keyword `DOWN`.
pub open spec fn down_kw() -> Seq<u8> {
    seq![68u8, 79u8, 87u8, 78u8]
}

/// The keyword `UP`.
pub open spec fn up_kw() -> Seq<u8> {
    seq![85u8, 80u8]
}

/// The keyword `JOYSTICKS`.
pub open spec fn joysticks_kw() -> Seq<u8> {
    seq![74u8, 79u8, 89u8, 83u8, 84u8, 73u8, 67u8, 75u8, 83u8]
}

/// The keyword `BUTTON_PRESS`.
pub open spec fn button_press_kw() -> Seq<u8> {
    seq![66u8, 85u8, 84u8, 84u8, 79u8, 78u8, 95u8, 80u8, 82u8, 69u8, 83u8, 83u8]
}

/// The acknowledgment line `ACK\n`.
pub open spec fn ack_line() -> Seq<u8> {
    seq![65u8, 67u8, 75u8, NL]
}

/// The heartbeat line `PING\n`.
pub open spec fn ping_line() -> Seq<u8> {
    ping_kw().push(NL)
}

/// A button-edge line: `BTN <name> DOWN\n` or `BTN <name> UP\n`.
pub open spec fn button_line(name: Seq<u8>, down: bool) -> Seq<u8> {
    btn_kw() + seq![SPACE] + name + seq![SPACE] + (if down {
        down_kw()
    } else {
        up_kw()
    }) + seq![NL]
}

/// A joystick-sample line: `JOYSTICKS <lx>,<ly>,<rx>,<ry>\n`, the axes in
/// the fixed-point text format.
pub open spec fn joysticks_line(lx: int, ly: int, rx: int, ry: int) -> Seq<u8> {
    joysticks_kw() + seq![SPACE] + fmt_milli(lx) + seq![COMMA] + fmt_milli(ly) + seq![COMMA]
        + fmt_milli(rx) + seq![COMMA] + fmt_milli(ry) + seq![NL]
}

/// Builds the acknowledgment message `ACK\n`.
pub fn encode_ack() -> (r: Vec<u8>)
    ensures
        r@ == ack_line(),
{
    let mut v: Vec<u8> = Vec::new();
    v.push(65);
    v.push(67);
    v.push(75);
    v.push(NL);
    proof {
        assert(v@ =~= ack_line());
    }
    v
}

/// Builds the heartbeat message `PING\n`.
pub fn encode_ping() -> (r: Vec<u8>)
    ensures
        r@ == ping_line(),
{
    let mut v: Vec<u8> = Vec::new();
    v.push(80);
    v.push(73);
    v.push(78);
    v.push(71);
    v.push(NL);
    proof {
        assert(v@ =~= ping_line());
    }
    v
}

/// Builds a button-edge message for one discrete transition.
///
/// The name must not carry the line delimiter: a message is one line.
pub fn encode_button(name: &Vec<u8>, down: bool) -> (r: Vec<u8>)
    requires
        !name@.contains(NL),
    ensures
        r@ == button_line(name@, down),
{
    let mut v: Vec<u8> = Vec::new();
    v.push(66);
    v.push(84);
    v.push(78);
    v.push(SPACE);
    let mut i: usize = 0;
    let n = name.len();
    while i < n
        invariant
            i <= n,
            n == name@.len(),
            v@ =~= btn_kw() + seq![SPACE] + name@.subrange(0, i as int),
        decreases n - i,
    {
        v.push(name[i]);
        proof {
            assert(v@ =~= btn_kw() + seq![SPACE] + name@.subrange(0, i as int + 1));
        }
        i += 1;
    }
    proof {
        assert(name@.subrange(0, n as int) =~= name@);
    }
    v.push(SPACE);
    if down {
        v.push(68);
        v.push(79);
        v.push(87);
        v.push(78);
    } else {
        v.push(85);
        v.push(80);
    }
    v.push(NL);
    proof {
        assert(v@ =~= button_line(name@, down));
    }
    v
}

/// Builds a joystick-sample message for one tick's axis values.
pub fn encode_joysticks(d: &JoystickData) -> (r: Vec<u8>)
    requires
        -MILLI <= d.lx <= MILLI,
        -MILLI <= d.ly <= MILLI,
        -MILLI <= d.rx <= MILLI,
        -MILLI <= d.ry <= MILLI,
    ensures
        r@ == joysticks_line(d.lx as int, d.ly as int, d.rx as int, d.ry as int),
{
    let mut v: Vec<u8> = Vec::new();
    v.push(74);
    v.push(79);
    v.push(89);
    v.push(83);
    v.push(84);
    v.push(73);
    v.push(67);
    v.push(75);
    v.push(83);
    v.push(SPACE);
    write_milli(&mut v, d.lx);
    v.push(COMMA);
    write_milli(&mut v, d.ly);
    v.push(COMMA);
    write_milli(&mut v, d.rx);
    v.push(COMMA);
    write_milli(&mut v, d.ry);
    v.push(NL);
    proof {
        assert(v@ =~= joysticks_line(d.lx as int, d.ly as int, d.rx as int, d.ry as int));
    }
    v
}

/// What dispatching one decoded line does.
#[derive(PartialEq, Eq, Structural, Clone, Copy, Debug)]
pub enum CommandAction {
    /// A line with no tokens: nothing to do.
    EmptyLine,
    /// A liveness heartbeat: nothing to do.
    Ping,
    /// The generic action trigger.
    RobotAction,
    /// A joystick sample was accepted: the four mapped wheel speeds, in
    /// milli-units.
    MotorUpdate { m1: i32, m2: i32, m3: i32, m4: i32 },
    /// A joystick payload that does not parse as four numbers: reported,
    /// no motor update.
    ParseError,
    /// An unrecognized first token: reported, no state change.
    UnknownCommand,
}

/// The four axis values of a joystick payload, in milli-units, when the
/// payload is exactly four comma-separated numbers.
pub open spec fn parse_axes(payload: Seq<u8>) -> Option<(int, int, int, int)> {
    let parts = split_commas(payload);
    if parts.len() == 4 && parse_milli(parts[0]) is Some && parse_milli(parts[1]) is Some
        && parse_milli(parts[2]) is Some && parse_milli(parts[3]) is Some {
        Some(
            (
                parse_milli(parts[0])->Some_0,
                parse_milli(parts[1])->Some_0,
                parse_milli(parts[2])->Some_0,
                parse_milli(parts[3])->Some_0,
            ),
        )
    } else {
        None
    }
}

/// What dispatching a line yields: the first token selects the behavior,
/// and a `JOYSTICKS` payload feeds the kinematic mapper.
pub open spec fn spec_handle_command(line: Seq<u8>) -> CommandAction {
    let toks = spec_tokens(line);
    if toks.len() == 0 {
        CommandAction::EmptyLine
    } else if toks[0] == ping_kw() {
        CommandAction::Ping
    } else if toks[0] == button_press_kw() {
        CommandAction::RobotAction
    } else if toks[0] == joysticks_kw() {
        if toks.len() >= 2 {
            match parse_axes(toks[1]) {
                Some(a) => CommandAction::MotorUpdate {
                    m1: motor_speed(0, a.0, a.1, a.2) as i32,
                    m2: motor_speed(1, a.0, a.1, a.2) as i32,
                    m3: motor_speed(2, a.0, a.1, a.2) as i32,
                    m4: motor_speed(3, a.0, a.1, a.2) as i32,
                },
                None => CommandAction::ParseError,
            }
        } else {
            CommandAction::ParseError
        }
    } else {
        CommandAction::UnknownCommand
    }
}

/// The token is the keyword `PING`.
fn tok_is_ping(t: &Vec<u8>) -> (r: bool)
    ensures
        r == (t@ == ping_kw()),
{
    let r = t.len() == 4 && t[0] == 80 && t[1] == 73 && t[2] == 78 && t[3] == 71;
    proof {
        if r {
            assert(t@ =~= ping_kw());
        }
    }
    r
}

/// The token is the keyword `BUTTON_PRESS`.
fn tok_is_button_press(t: &Vec<u8>) -> (r: bool)
    ensures
        r == (t@ == button_press_kw()),
{
    let r = t.len() == 12 && t[0] == 66 && t[1] == 85 && t[2] == 84 && t[3] == 84 && t[4] == 79
        && t[5] == 78 && t[6] == 95 && t[7] == 80 && t[8] == 82 && t[9] == 69 && t[10] == 83
        && t[11] == 83;
    proof {
        if r {
            assert(t@ =~= button_press_kw());
        }
    }
    r
}

/// The token is the keyword `JOYSTICKS`.
fn tok_is_joysticks(t: &Vec<u8>) -> (r: bool)
    ensures
        r == (t@ == joysticks_kw()),
{
    let r = t.len() == 9 && t[0] == 74 && t[1] == 79 && t[2] == 89 && t[3] == 83 && t[4] == 84
        && t[5] == 73 && t[6] == 67 && t[7] == 75 && t[8] == 83;
    proof {
        if r {
            assert(t@ =~= joysticks_kw());
        }
    }
    r
}

/// Dispatches one decoded line.
///
/// Returns exactly what [`spec_handle_command`] gives on the line's bytes:
/// a heartbeat and the action trigger are recognized by their first token,
/// a well-formed `JOYSTICKS` payload yields the mapped wheel speeds, a
/// malformed one a recoverable parse error, and anything else an unknown
/// command. Malformed input never fails: dispatch is total.
pub fn handle_command(line: &Vec<u8>) -> (a: CommandAction)
    ensures
        a == spec_handle_command(line@),
{
    let toks = tokenize(line);
    let ghost stoks = spec_tokens(line@);
    if toks.len() == 0 {
        return CommandAction::EmptyLine;
    }
    proof {
        assert(byte_views(toks@)[0] == toks@[0]@);
    }
    if tok_is_ping(&toks[0]) {
        return CommandAction::Ping;
    }
    if tok_is_button_press(&toks[0]) {
        return CommandAction::RobotAction;
    }
    if tok_is_joysticks(&toks[0]) {
        if toks.len() < 2 {
            return CommandAction::ParseError;
        }
        proof {
            assert(byte_views(toks@)[1] == toks@[1]@);
        }
        let parts = split_commas_bytes(&toks[1]);
        if parts.len() != 4 {
            return CommandAction::ParseError;
        }
        proof {
            assert(byte_views(parts@)[0] == parts@[0]@);
            assert(byte_views(parts@)[1] == parts@[1]@);
            assert(byte_views(parts@)[2] == parts@[2]@);
            assert(byte_views(parts@)[3] == parts@[3]@);
        }
        let v0 = parse_milli_token(&parts[0]);
        let v1 = parse_milli_token(&parts[1]);
        let v2 = parse_milli_token(&parts[2]);
        let v3 = parse_milli_token(&parts[3]);
        match (v0, v1, v2, v3) {
            (Some(lx), Some(ly), Some(rx), Some(ry)) => {
                let data = JoystickData { lx, ly, rx, ry };
                let speeds = calculate_motor_speeds(&data);
                CommandAction::MotorUpdate {
                    m1: speeds[0],
                    m2: speeds[1],
                    m3: speeds[2],
                    m4: speeds[3],
                }
            },
            _ => CommandAction::ParseError,
        }
    } else {
        CommandAction::UnknownCommand
    }
}

} // verus!
