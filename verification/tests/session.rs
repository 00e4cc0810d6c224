use teleop_link::protocol::CommandAction;
use teleop_link::session::Session;

#[test]
fn split_chunks_frame_two_commands_in_order() {
    // One stream, fed in two chunks split mid-message: exactly two
    // dispatched commands, in order, each acknowledged once.
    let mut s = Session::new();
    let first = s.ingest(&b"JOYSTICKS 0.1,0.2,0.3,0.4\nPI".to_vec());
    assert_eq!(first.len(), 1);
    assert_eq!(
        first[0].action,
        CommandAction::MotorUpdate { m1: 600, m2: -200, m3: 0, m4: -400 }
    );
    assert_eq!(first[0].reply, b"ACK\n".to_vec());

    let second = s.ingest(&b"NG\n".to_vec());
    assert_eq!(second.len(), 1);
    assert_eq!(second[0].action, CommandAction::Ping);
    assert_eq!(second[0].reply, b"ACK\n".to_vec());
}

#[test]
fn malformed_payload_is_still_acknowledged() {
    // Three values instead of four: no motor update, one ACK all the same.
    let mut s = Session::new();
    let steps = s.ingest(&b"JOYSTICKS 1,2,3\n".to_vec());
    assert_eq!(steps.len(), 1);
    assert_eq!(steps[0].action, CommandAction::ParseError);
    assert_eq!(steps[0].reply, b"ACK\n".to_vec());
}

#[test]
fn incomplete_line_stays_pending() {
    let mut s = Session::new();
    let steps = s.ingest(&b"PIN".to_vec());
    assert_eq!(steps.len(), 0);
    let steps = s.ingest(&b"G".to_vec());
    assert_eq!(steps.len(), 0);
    let steps = s.ingest(&b"\n".to_vec());
    assert_eq!(steps.len(), 1);
    assert_eq!(steps[0].action, CommandAction::Ping);
}

#[test]
fn many_lines_in_one_chunk() {
    let mut s = Session::new();
    let steps = s.ingest(&b"PING\nBUTTON_PRESS\nodd\n".to_vec());
    assert_eq!(steps.len(), 3);
    assert_eq!(steps[0].action, CommandAction::Ping);
    assert_eq!(steps[1].action, CommandAction::RobotAction);
    assert_eq!(steps[2].action, CommandAction::UnknownCommand);
    assert_eq!(steps[0].line, b"PING".to_vec());
    assert_eq!(steps[2].line, b"odd".to_vec());
}

#[test]
fn empty_chunk_yields_nothing() {
    let mut s = Session::new();
    let steps = s.ingest(&Vec::new());
    assert_eq!(steps.len(), 0);
}
