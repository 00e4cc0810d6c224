use teleop_link::mapper::{calculate_motor_speeds, JoystickData};

fn speeds(lx: i32, ly: i32, rx: i32, ry: i32) -> [i32; 4] {
    calculate_motor_speeds(&JoystickData { lx, ly, rx, ry })
}

#[test]
fn zero_input_gives_zero_output() {
    assert_eq!(speeds(0, 0, 0, 0), [0, 0, 0, 0]);
}

#[test]
fn full_left_x_is_identity() {
    // Raw speeds (1, -1, -1, 1): the peak is exactly full scale, so the
    // mapper changes nothing.
    assert_eq!(speeds(1000, 0, 0, 0), [1000, -1000, -1000, 1000]);
}

#[test]
fn diagonal_is_normalized() {
    // Raw speeds (2, 0, -2, 0), peak 2: divided down to unit magnitude.
    assert_eq!(speeds(1000, 1000, 0, 0), [1000, 0, -1000, 0]);
}

#[test]
fn below_peak_is_identity() {
    // Peak 0.9 <= 1: identity.
    assert_eq!(speeds(300, 300, 300, 0), [900, -300, -300, -300]);
}

#[test]
fn normalization_scales_all_components() {
    // Raw speeds (1200, -400, -600, -200), peak 1200.
    assert_eq!(speeds(500, 400, 300, 0), [1000, -333, -500, -166]);
}

#[test]
fn ry_does_not_drive_wheels() {
    assert_eq!(speeds(200, 100, 50, 1000), speeds(200, 100, 50, 0));
}

#[test]
fn outputs_never_exceed_unit_magnitude() {
    let r = speeds(1000, 1000, 1000, 0);
    for v in r {
        assert!(-1000 <= v && v <= 1000);
    }
    let r = speeds(-1000, 1000, -1000, 0);
    for v in r {
        assert!(-1000 <= v && v <= 1000);
    }
}
