use trex::telemetry::{AtomicState, EndOfStorage, StateTM};

#[test]
fn atomic_state_roundtrip() {
    let mut s = AtomicState::new(StateTM::Manual);
    assert_eq!(s.load(), StateTM::Manual);
    s.store(StateTM::Tracking);
    assert_eq!(s.load(), StateTM::Tracking);
    s.store(StateTM::Manual);
    assert_eq!(s.load(), StateTM::Manual);
}

#[test]
fn end_of_storage_message() {
    assert_eq!(EndOfStorage.message(), "end of storage");
}
