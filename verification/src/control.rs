use vstd::prelude::*;

verus! {

/// The mode a state command asks for.
#[derive(Clone, Copy, Debug, PartialEq, Eq, Structural)]
pub enum StateCommand {
    Tracking,
    Manual,
}

/// A command to the antenna control loop; `T` is a pointing target.
#[derive(Debug)]
pub enum Command<T> {
    /// Switch the mode.
    State(StateCommand),
    /// Point at a new target (manual mode only).
    Rotate(T),
}

/// The mode of the control loop; in manual mode it drives towards a target.
#[derive(Debug)]
pub enum ControlState<T> {
    Tracking,
    Manual { target: T },
}

/// The command handling of the antenna control loop.
pub struct ControlLoop<T> {
    state: ControlState<T>,
    home: T,
}

impl<T: Copy> ControlLoop<T> {
    pub closed spec fn current(self) -> ControlState<T> {
        self.state
    }

    /// The target that manual mode starts from.
    pub closed spec fn home_target(self) -> T {
        self.home
    }

    /// A control loop in manual mode, pointing at `home`.
    pub fn new(home: T) -> (c: ControlLoop<T>)
        ensures
            c.current() == (ControlState::Manual { target: home }),
            c.home_target() == home,
    {
        ControlLoop { state: ControlState::Manual { target: home }, home }
    }

    pub fn state(&self) -> (s: &ControlState<T>)
        ensures
            *s == self.current(),
    {
        &self.state
    }

    /// Applies a received command; `None` is a message that did not decode,
    /// which changes nothing. A mode command switches the mode (manual mode
    /// starts at the home target); a target is taken in manual mode only.
    pub fn update(&mut self, cmd: Option<Command<T>>)
        ensures
            final(self).home_target() == old(self).home_target(),
            final(self).current() == match cmd {
                None => old(self).current(),
                Some(Command::State(StateCommand::Tracking)) => ControlState::Tracking,
                Some(Command::State(StateCommand::Manual)) => ControlState::Manual {
                    target: old(self).home_target(),
                },
                Some(Command::Rotate(t)) => match old(self).current() {
                    ControlState::Manual { .. } => ControlState::Manual { target: t },
                    ControlState::Tracking => ControlState::Tracking,
                },
            },
    {
        match cmd {
            Some(Command::State(state_cmd)) => {
                self.state = match state_cmd {
                    StateCommand::Tracking => ControlState::Tracking,
                    StateCommand::Manual => ControlState::Manual { target: self.home },
                };
            },
            Some(Command::Rotate(new_target)) => {
                match self.state {
                    ControlState::Manual { .. } => {
                        self.state = ControlState::Manual { target: new_target };
                    },
                    ControlState::Tracking => {},
                }
            },
            None => {},
        }
    }
}

} // verus!
