use trex::flash::flash_frames;
use trex::manager::{Action, FirmwareManager, Warning};
use trex::protocol::{Header, HeaderSerializer, CHUNK_SIZE};
use trex::session::UpdateSession;

fn encode(h: Header) -> Vec<u8> {
    let mut s = HeaderSerializer::new();
    s.write_header(h);
    s.into_bytes()
}

#[test]
fn validated_session_writes_flashed_image() {
    let object: Vec<u8> = (0..(2 * CHUNK_SIZE + 10)).map(|i| (i % 253) as u8).collect();
    let stream = flash_frames(&object).concat();
    let mut s = UpdateSession::new(FirmwareManager::new(false));
    let acts = s.receive_all(&stream);
    assert_eq!(acts.len(), 4);
    let mut image = vec![0u8; 3 * CHUNK_SIZE];
    for (i, a) in acts[..3].iter().enumerate() {
        match a {
            Action::WriteFirmware { offset, block } => {
                assert_eq!(*offset, i * CHUNK_SIZE);
                assert_eq!(block.len(), CHUNK_SIZE);
                image[*offset..*offset + CHUNK_SIZE].copy_from_slice(block);
            }
            other => panic!("unexpected {:?}", other),
        }
    }
    assert_eq!(&image[..object.len()], &object[..]);
    assert!(image[object.len()..].iter().all(|b| *b == 0));
    match &acts[3] {
        Action::HashFirmware { length, expected } => {
            assert_eq!(*length as usize, object.len());
            assert_eq!(*expected, <[u8; 32]>::from(blake3::hash(&object)));
            assert!(matches!(s.hash_computed(expected, expected), Action::ApplyUpdate));
        }
        other => panic!("unexpected {:?}", other),
    }
}

#[test]
fn unvalidated_session_refuses_everything() {
    let object = vec![1u8; 100];
    let stream = flash_frames(&object).concat();
    let mut s = UpdateSession::new(FirmwareManager::new(true));
    let acts = s.receive_all(&stream);
    assert_eq!(acts.len(), 2);
    assert!(matches!(acts[0], Action::Warn(Warning::ChunkNotValidated)));
    assert!(matches!(acts[1], Action::Warn(Warning::ApplyNotValidated)));
}

#[test]
fn validate_then_write() {
    let mut stream = encode(Header::Validate);
    stream.extend(encode(Header::Chunk { offset: 0, size: 2 }));
    stream.extend_from_slice(&[b'T', b'R']);
    stream.extend(encode(Header::Reset));
    let mut s = UpdateSession::new(FirmwareManager::new(true));
    let acts = s.receive_all(&stream);
    assert_eq!(acts.len(), 3);
    assert!(matches!(acts[0], Action::MarkBooted));
    assert!(s.validated());
    match &acts[1] {
        Action::WriteFirmware { offset: 0, block } => assert_eq!(&block[..3], &[b'T', b'R', 0]),
        other => panic!("unexpected {:?}", other),
    }
    assert!(matches!(acts[2], Action::Reset));
}

#[test]
fn empty_chunk_is_written_at_once() {
    let stream = encode(Header::Chunk { offset: 4096, size: 0 });
    let mut s = UpdateSession::new(FirmwareManager::new(false));
    let acts = s.receive_all(&stream);
    assert_eq!(acts.len(), 1);
    match &acts[0] {
        Action::WriteFirmware { offset: 4096, block } => assert!(block.iter().all(|b| *b == 0)),
        other => panic!("unexpected {:?}", other),
    }
}

#[test]
fn bytes_may_arrive_one_by_one() {
    let stream = encode(Header::Apply { size: 5, hash: [9; 32] });
    let mut s = UpdateSession::new(FirmwareManager::new(false));
    let mut acts = Vec::new();
    for b in stream {
        if let Some(a) = s.receive(b) {
            acts.push(a);
        }
    }
    assert_eq!(acts.len(), 1);
    match &acts[0] {
        Action::HashFirmware { length, expected } => {
            assert_eq!(*length, 5);
            assert_eq!(*expected, [9u8; 32]);
        }
        other => panic!("unexpected {:?}", other),
    }
}
