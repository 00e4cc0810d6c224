use teleop_link::mapper::JoystickData;
use teleop_link::protocol::{
    encode_ack, encode_button, encode_joysticks, encode_ping, handle_command, CommandAction,
};

fn dispatch(line: &str) -> CommandAction {
    handle_command(&line.as_bytes().to_vec())
}

#[test]
fn encodes_ping_and_ack() {
    assert_eq!(encode_ping(), b"PING\n".to_vec());
    assert_eq!(encode_ack(), b"ACK\n".to_vec());
}

#[test]
fn encodes_button_edges() {
    assert_eq!(
        encode_button(&b"South".to_vec(), true),
        b"BTN South DOWN\n".to_vec()
    );
    assert_eq!(
        encode_button(&b"RightTrigger".to_vec(), false),
        b"BTN RightTrigger UP\n".to_vec()
    );
}

#[test]
fn encodes_joystick_samples() {
    let d = JoystickData { lx: 100, ly: 200, rx: 300, ry: 400 };
    assert_eq!(encode_joysticks(&d), b"JOYSTICKS 0.1,0.2,0.3,0.4\n".to_vec());
    let d = JoystickData { lx: 0, ly: -500, rx: 1000, ry: 0 };
    assert_eq!(encode_joysticks(&d), b"JOYSTICKS 0,-0.5,1,0\n".to_vec());
}

#[test]
fn dispatches_ping_and_action() {
    assert_eq!(dispatch("PING"), CommandAction::Ping);
    assert_eq!(dispatch("BUTTON_PRESS"), CommandAction::RobotAction);
    assert_eq!(dispatch("  PING  "), CommandAction::Ping);
}

#[test]
fn dispatches_joystick_update() {
    assert_eq!(
        dispatch("JOYSTICKS 1,0,0,0"),
        CommandAction::MotorUpdate { m1: 1000, m2: -1000, m3: -1000, m4: 1000 }
    );
    assert_eq!(
        dispatch("JOYSTICKS 1,1,0,0"),
        CommandAction::MotorUpdate { m1: 1000, m2: 0, m3: -1000, m4: 0 }
    );
    assert_eq!(
        dispatch("JOYSTICKS 0.1,0.2,0.3,0.4"),
        CommandAction::MotorUpdate { m1: 600, m2: -200, m3: 0, m4: -400 }
    );
}

#[test]
fn rejects_wrong_value_counts() {
    assert_eq!(dispatch("JOYSTICKS 1,2,3"), CommandAction::ParseError);
    assert_eq!(dispatch("JOYSTICKS 1,2,3,4,5"), CommandAction::ParseError);
    assert_eq!(dispatch("JOYSTICKS"), CommandAction::ParseError);
}

#[test]
fn rejects_non_numeric_values() {
    assert_eq!(dispatch("JOYSTICKS 1,2,bad,4"), CommandAction::ParseError);
    assert_eq!(dispatch("JOYSTICKS 1,,3,4"), CommandAction::ParseError);
}

#[test]
fn reports_unknown_commands() {
    assert_eq!(dispatch("WHATEVER 1 2"), CommandAction::UnknownCommand);
    assert_eq!(dispatch("ping"), CommandAction::UnknownCommand);
}

#[test]
fn empty_lines_do_nothing() {
    assert_eq!(dispatch(""), CommandAction::EmptyLine);
    assert_eq!(dispatch("   "), CommandAction::EmptyLine);
}

#[test]
fn extra_tokens_after_payload_are_ignored() {
    assert_eq!(
        dispatch("JOYSTICKS 1,0,0,0 trailing"),
        CommandAction::MotorUpdate { m1: 1000, m2: -1000, m3: -1000, m4: 1000 }
    );
}
