use trex::flash::{flash_frames, flash_plan};
use trex::image::{FlashConf, ImageError};
use trex::protocol::{Header, HeaderDeserializer, CHUNK_SIZE};

#[test]
fn frames_of_empty_image() {
    let frames = flash_frames(&[]);
    assert_eq!(frames.len(), 1);
    let empty_digest: [u8; 32] = [
        0xaf, 0x13, 0x49, 0xb9, 0xf5, 0xf9, 0xa1, 0xa6, 0xa0, 0x40, 0x4d, 0xea, 0x36, 0xdc, 0xc9, 0x49, 0x9b,
        0xcb, 0x25, 0xc9, 0xad, 0xc1, 0x12, 0xb7, 0xcc, 0x9a, 0x93, 0xca, 0xe4, 0x1f, 0x32, 0x62,
    ];
    let mut expected = b"TREX\x02\x00\x00\x00\x00".to_vec();
    expected.extend_from_slice(&empty_digest);
    assert_eq!(frames[0], expected);
}

#[test]
fn frames_split_into_chunks() {
    let object: Vec<u8> = (0..(CHUNK_SIZE + 100)).map(|i| (i % 251) as u8).collect();
    let frames = flash_frames(&object);
    assert_eq!(frames.len(), 3);
    assert_eq!(&frames[0][..13], &[b'T', b'R', b'E', b'X', 1, 0, 0, 0, 0, 0, 0x10, 0, 0]);
    assert_eq!(&frames[0][13..], &object[..CHUNK_SIZE]);
    assert_eq!(&frames[1][..13], &[b'T', b'R', b'E', b'X', 1, 0, 0x10, 0, 0, 100, 0, 0, 0]);
    assert_eq!(&frames[1][13..], &object[CHUNK_SIZE..]);
    let digest: [u8; 32] = blake3::hash(&object).into();
    let mut apply = vec![b'T', b'R', b'E', b'X', 2];
    apply.extend_from_slice(&((CHUNK_SIZE + 100) as u32).to_le_bytes());
    apply.extend_from_slice(&digest);
    assert_eq!(frames[2], apply);
    assert_ne!(&frames[2][9..], &object[..32]);
}

#[test]
fn frames_of_exact_chunk_multiple() {
    let object = vec![0x55u8; 2 * CHUNK_SIZE];
    let frames = flash_frames(&object);
    assert_eq!(frames.len(), 3);
    assert_eq!(frames[0].len(), 13 + CHUNK_SIZE);
    assert_eq!(frames[1].len(), 13 + CHUNK_SIZE);
}

#[test]
fn device_reads_back_the_frames() {
    let object: Vec<u8> = (0..5000u32).map(|i| (i * 7) as u8).collect();
    let frames = flash_frames(&object);
    let stream: Vec<u8> = frames.concat();
    let mut d = HeaderDeserializer::new();
    let mut rest = &stream[..];
    let mut image = Vec::new();
    loop {
        let (n, h) = d.sync(rest);
        rest = &rest[n..];
        match h {
            Some(Header::Chunk { offset, size }) => {
                assert_eq!(offset, image.len());
                image.extend_from_slice(&rest[..size]);
                rest = &rest[size..];
            }
            Some(Header::Apply { size, hash }) => {
                assert_eq!(size, object.len());
                assert_eq!(hash, <[u8; 32]>::from(blake3::hash(&image)));
                break;
            }
            _ => panic!("unexpected header"),
        }
    }
    assert_eq!(image, object);
}

#[test]
fn plan_rejects_garbage() {
    let conf = FlashConf { path: std::path::PathBuf::new(), base: None, max_size: None };
    assert!(matches!(flash_plan(b"not an elf", &conf).unwrap_err(), ImageError::Parse(_)));
}

fn tiny_elf(paddr: u32, data: &[u8]) -> Vec<u8> {
    let mut v = vec![0x7f, b'E', b'L', b'F', 1, 1, 1, 0, 0, 0, 0, 0, 0, 0, 0, 0];
    for x in [2u16, 0x28] {
        v.extend_from_slice(&x.to_le_bytes());
    }
    for x in [1u32, 0, 52, 0, 0] {
        v.extend_from_slice(&x.to_le_bytes());
    }
    for x in [52u16, 32, 1, 40, 0, 0] {
        v.extend_from_slice(&x.to_le_bytes());
    }
    let n = data.len() as u32;
    for x in [1u32, 84, paddr, paddr, n, n, 5, 4] {
        v.extend_from_slice(&x.to_le_bytes());
    }
    v.extend_from_slice(data);
    v
}

#[test]
fn plan_flattens_checks_and_frames() {
    let data: Vec<u8> = (0..5000u32).map(|i| i as u8).collect();
    let elf = tiny_elf(0x0800_0000, &data);
    let conf = FlashConf { path: std::path::PathBuf::new(), base: Some(0x0800_0000), max_size: Some(8192) };
    let frames = flash_plan(&elf, &conf).unwrap();
    assert_eq!(frames.len(), 3);
    assert_eq!(&frames[0][13..], &data[..CHUNK_SIZE]);
    assert_eq!(&frames[1][13..], &data[CHUNK_SIZE..]);
}

#[test]
fn plan_checks_base_and_size() {
    let elf = tiny_elf(0x100, &[1, 2, 3]);
    let wrong_base = FlashConf { path: std::path::PathBuf::new(), base: Some(0x200), max_size: None };
    assert_eq!(
        flash_plan(&elf, &wrong_base).unwrap_err(),
        ImageError::BaseMismatch { was: 0x100, expected: 0x200 }
    );
    let small = FlashConf { path: std::path::PathBuf::new(), base: None, max_size: Some(2) };
    assert_eq!(flash_plan(&elf, &small).unwrap_err(), ImageError::SizeTooLarge { size: 3, max: 2 });
}

#[test]
fn flash_args_convert_to_conf() {
    let args = trex::image::FlashArgs { path: std::path::PathBuf::from("a.elf"), base: Some(1), max_size: None };
    let conf = FlashConf::from(args);
    assert_eq!(conf.path, std::path::PathBuf::from("a.elf"));
    assert_eq!(conf.base, Some(1));
    assert_eq!(conf.max_size, None);
}
