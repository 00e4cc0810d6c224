use teleop_link::tick::{
    encode_tick, heartbeat_due, panel_button, AxisId, InputEvent, PadButton, PanelButton,
};

#[test]
fn quiet_tick_emits_nothing() {
    let msgs = encode_tick(false, &Vec::new());
    assert_eq!(msgs.len(), 0);
}

#[test]
fn due_heartbeat_is_emitted_alone() {
    let msgs = encode_tick(true, &Vec::new());
    assert_eq!(msgs, vec![b"PING\n".to_vec()]);
}

#[test]
fn axis_events_fold_into_one_sample() {
    let events = vec![
        InputEvent::AxisChanged { axis: AxisId::LeftX, value: 100 },
        InputEvent::AxisChanged { axis: AxisId::LeftY, value: 500 },
    ];
    // Y axes are sign-inverted; untouched axes report zero.
    let msgs = encode_tick(false, &events);
    assert_eq!(msgs, vec![b"JOYSTICKS 0.1,-0.5,0,0\n".to_vec()]);
}

#[test]
fn later_axis_event_wins_within_a_tick() {
    let events = vec![
        InputEvent::AxisChanged { axis: AxisId::RightX, value: 200 },
        InputEvent::AxisChanged { axis: AxisId::RightX, value: -700 },
    ];
    let msgs = encode_tick(false, &events);
    assert_eq!(msgs, vec![b"JOYSTICKS 0,0,-0.7,0\n".to_vec()]);
}

#[test]
fn button_edges_are_sent_immediately_in_order() {
    let events = vec![
        InputEvent::ButtonEdge { name: b"South".to_vec(), down: true },
        InputEvent::ButtonEdge { name: b"South".to_vec(), down: false },
    ];
    let msgs = encode_tick(true, &events);
    assert_eq!(
        msgs,
        vec![
            b"PING\n".to_vec(),
            b"BTN South DOWN\n".to_vec(),
            b"BTN South UP\n".to_vec(),
            // A button event counts as input, so the tick still reports
            // its (all-zero) sample.
            b"JOYSTICKS 0,0,0,0\n".to_vec(),
        ]
    );
}

#[test]
fn heartbeat_due_at_the_interval() {
    assert!(!heartbeat_due(0));
    assert!(!heartbeat_due(999));
    assert!(heartbeat_due(1000));
    assert!(heartbeat_due(5000));
}

#[test]
fn panel_mapping_matches_the_panel() {
    assert_eq!(panel_button(PadButton::South), Some(PanelButton::Cross));
    assert_eq!(panel_button(PadButton::East), Some(PanelButton::Circle));
    assert_eq!(panel_button(PadButton::West), Some(PanelButton::Square));
    assert_eq!(panel_button(PadButton::North), Some(PanelButton::Triangle));
    assert_eq!(panel_button(PadButton::LeftTrigger), Some(PanelButton::L1));
    assert_eq!(panel_button(PadButton::RightTrigger), Some(PanelButton::R1));
    assert_eq!(panel_button(PadButton::Other), None);
}
