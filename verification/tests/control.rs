use trex::control::{Command, ControlLoop, ControlState, StateCommand};

fn target(c: &ControlLoop<(i32, i32)>) -> Option<(i32, i32)> {
    match c.state() {
        ControlState::Manual { target } => Some(*target),
        ControlState::Tracking => None,
    }
}

#[test]
fn starts_manual_at_home() {
    let c = ControlLoop::new((0, 0));
    assert_eq!(target(&c), Some((0, 0)));
}

#[test]
fn rotate_sets_target_in_manual() {
    let mut c = ControlLoop::new((0, 0));
    c.update(Some(Command::Rotate((3, 4))));
    assert_eq!(target(&c), Some((3, 4)));
}

#[test]
fn rotate_ignored_while_tracking() {
    let mut c = ControlLoop::new((0, 0));
    c.update(Some(Command::State(StateCommand::Tracking)));
    assert_eq!(target(&c), None);
    c.update(Some(Command::Rotate((3, 4))));
    assert_eq!(target(&c), None);
}

#[test]
fn manual_command_resets_target() {
    let mut c = ControlLoop::new((1, 1));
    c.update(Some(Command::Rotate((5, 6))));
    c.update(Some(Command::State(StateCommand::Manual)));
    assert_eq!(target(&c), Some((1, 1)));
}

#[test]
fn undecodable_message_changes_nothing() {
    let mut c = ControlLoop::new((0, 0));
    c.update(Some(Command::Rotate((2, 2))));
    c.update(None);
    assert_eq!(target(&c), Some((2, 2)));
}
