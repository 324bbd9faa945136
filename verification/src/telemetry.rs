use vstd::prelude::*;

verus! {

/// The mode the antenna reports in its telemetry.
#[derive(Clone, Copy, Debug, PartialEq, Eq, Structural)]
pub enum StateTM {
    Tracking,
    Manual,
}

/// A telemetry state stored as one byte (0: tracking, 1: manual), as a
/// single-byte cell shared between the control and telemetry loops holds it.
pub struct AtomicState {
    state: u8,
}

impl AtomicState {
    #[verifier::type_invariant]
    closed spec fn inv(self) -> bool {
        self.state <= 1
    }

    /// The state held.
    pub closed spec fn value(self) -> StateTM {
        if self.state == 0 {
            StateTM::Tracking
        } else {
            StateTM::Manual
        }
    }

    fn to_u8(state: StateTM) -> (b: u8)
        ensures
            b <= 1,
            (b == 0) == (state == StateTM::Tracking),
    {
        match state {
            StateTM::Tracking => 0,
            StateTM::Manual => 1,
        }
    }

    pub fn new(state: StateTM) -> (s: AtomicState)
        ensures
            s.value() == state,
    {
        AtomicState { state: Self::to_u8(state) }
    }

    pub fn store(&mut self, state: StateTM)
        ensures
            final(self).value() == state,
    {
        self.state = Self::to_u8(state);
    }

    pub fn load(&self) -> (state: StateTM)
        ensures
            state == self.value(),
    {
        proof {
            use_type_invariant(self);
        }
        match self.state {
            0 => StateTM::Tracking,
            _ => StateTM::Manual,
        }
    }
}

/// The error of a telemetry write buffer that has run out of room.
#[derive(Clone, Copy, Debug, PartialEq, Eq, Structural)]
pub struct EndOfStorage;

impl EndOfStorage {
    /// The error's message.
    pub fn message(&self) -> (m: &'static str)
        ensures
            m@ == "end of storage"@,
    {
        "end of storage"
    }
}

} // verus!
