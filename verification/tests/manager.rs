use trex::manager::{Action, FirmwareManager, Warning};
use trex::protocol::{Header, CHUNK_SIZE};

#[test]
fn new_manager_validation_state() {
    assert!(!FirmwareManager::new(true).validated());
    assert!(FirmwareManager::new(false).validated());
}

#[test]
fn validate_marks_booted_once() {
    let mut m = FirmwareManager::new(true);
    assert!(matches!(m.on_header(&Header::Validate), Action::MarkBooted));
    assert!(m.validated());
    assert!(matches!(m.on_header(&Header::Validate), Action::Nothing));
    assert!(m.validated());
}

#[test]
fn chunk_header_asks_to_read_data() {
    let mut m = FirmwareManager::new(true);
    assert!(matches!(
        m.on_header(&Header::Chunk { offset: 4096, size: 10 }),
        Action::ReadChunk { offset: 4096, size: 10 }
    ));
}

#[test]
fn chunk_before_validation_is_ignored() {
    let m = FirmwareManager::new(true);
    assert!(matches!(m.on_chunk(0, &[1, 2, 3]), Action::Warn(Warning::ChunkNotValidated)));
}

#[test]
fn chunk_after_validation_is_written_padded() {
    let m = FirmwareManager::new(false);
    match m.on_chunk(8192, &[1, 2, 3]) {
        Action::WriteFirmware { offset, block } => {
            assert_eq!(offset, 8192);
            assert_eq!(block.len(), CHUNK_SIZE);
            assert_eq!(&block[..3], &[1, 2, 3]);
            assert!(block[3..].iter().all(|b| *b == 0));
        }
        other => panic!("unexpected {:?}", other),
    }
}

#[test]
fn apply_needs_validation() {
    let mut m = FirmwareManager::new(true);
    let hash = [7u8; 32];
    assert!(matches!(
        m.on_header(&Header::Apply { size: 100, hash }),
        Action::Warn(Warning::ApplyNotValidated)
    ));
    m.on_header(&Header::Validate);
    match m.on_header(&Header::Apply { size: 100, hash }) {
        Action::HashFirmware { length, expected } => {
            assert_eq!(length, 100);
            assert_eq!(expected, hash);
        }
        other => panic!("unexpected {:?}", other),
    }
}

#[test]
fn hash_comparison_decides_apply() {
    let m = FirmwareManager::new(false);
    let a = [3u8; 32];
    let mut b = a;
    assert!(matches!(m.on_hash(&a, &b), Action::ApplyUpdate));
    b[31] = 4;
    assert!(matches!(m.on_hash(&a, &b), Action::Warn(Warning::HashMismatch)));
}

#[test]
fn reset_and_invalid_headers() {
    let mut m = FirmwareManager::new(false);
    assert!(matches!(m.on_header(&Header::Reset), Action::Reset));
    assert!(matches!(m.on_header(&Header::Invalid(42)), Action::Warn(Warning::InvalidHeader(42))));
}
