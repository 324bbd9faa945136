use trex::image::{elf_objectcopy, image_from_segments, validate_object, FlashConf, ImageError, Segment};

fn seg(lma: u64, data: &[u8]) -> Segment {
    Segment { lma, data: data.to_vec() }
}

fn conf(base: Option<u64>, max_size: Option<u64>) -> FlashConf {
    FlashConf { path: std::path::PathBuf::from("fw.elf"), base, max_size }
}

#[test]
fn flattens_with_gaps_zeroed() {
    let segs = vec![seg(0x100, &[1, 2]), seg(0x104, &[3])];
    let (base, out) = image_from_segments(&segs).unwrap();
    assert_eq!(base, 0x100);
    assert_eq!(out, vec![1, 2, 0, 0, 3]);
}

#[test]
fn later_segments_overwrite_earlier_ones() {
    let segs = vec![seg(0x10, &[1, 1, 1, 1]), seg(0x11, &[2, 2])];
    let (base, out) = image_from_segments(&segs).unwrap();
    assert_eq!(base, 0x10);
    assert_eq!(out, vec![1, 2, 2, 1]);
}

#[test]
fn base_is_lowest_address_in_any_order() {
    let segs = vec![seg(0x20, &[9]), seg(0x1e, &[8])];
    let (base, out) = image_from_segments(&segs).unwrap();
    assert_eq!(base, 0x1e);
    assert_eq!(out, vec![8, 0, 9]);
}

#[test]
fn empty_segments_are_ignored() {
    let segs = vec![seg(0, &[]), seg(0x40, &[5]), seg(0x1000, &[])];
    let (base, out) = image_from_segments(&segs).unwrap();
    assert_eq!(base, 0x40);
    assert_eq!(out, vec![5]);
}

#[test]
fn no_loadable_segments_is_an_error() {
    assert_eq!(image_from_segments(&vec![]).unwrap_err(), ImageError::NoLoadableSegments);
    assert_eq!(image_from_segments(&vec![seg(5, &[])]).unwrap_err(), ImageError::NoLoadableSegments);
}

#[test]
fn end_beyond_u64_is_too_large() {
    let segs = vec![seg(u64::MAX - 1, &[1, 2, 3])];
    assert_eq!(image_from_segments(&segs).unwrap_err(), ImageError::TooLarge);
}

#[test]
fn garbage_is_not_an_elf() {
    assert!(matches!(elf_objectcopy(&[1, 2, 3, 4]).unwrap_err(), ImageError::Parse(_)));
    assert!(matches!(elf_objectcopy(&[]).unwrap_err(), ImageError::Parse(_)));
}

fn push16(v: &mut Vec<u8>, x: u16) {
    v.extend_from_slice(&x.to_le_bytes());
}

fn push32(v: &mut Vec<u8>, x: u32) {
    v.extend_from_slice(&x.to_le_bytes());
}

/// A minimal little-endian ELF32 executable with the given loadable
/// segments (physical address, bytes), followed by the segment data.
fn tiny_elf(segs: &[(u32, &[u8])]) -> Vec<u8> {
    let phoff = 52u32;
    let data_start = phoff + 32 * segs.len() as u32;
    let mut v = vec![0x7f, b'E', b'L', b'F', 1, 1, 1, 0, 0, 0, 0, 0, 0, 0, 0, 0];
    push16(&mut v, 2); // e_type
    push16(&mut v, 0x28); // e_machine
    push32(&mut v, 1); // e_version
    push32(&mut v, 0); // e_entry
    push32(&mut v, phoff); // e_phoff
    push32(&mut v, 0); // e_shoff
    push32(&mut v, 0); // e_flags
    push16(&mut v, 52); // e_ehsize
    push16(&mut v, 32); // e_phentsize
    push16(&mut v, segs.len() as u16); // e_phnum
    push16(&mut v, 40); // e_shentsize
    push16(&mut v, 0); // e_shnum
    push16(&mut v, 0); // e_shstrndx
    let mut off = data_start;
    for (paddr, data) in segs {
        push32(&mut v, 1); // PT_LOAD
        push32(&mut v, off);
        push32(&mut v, 0x2000_0000 + *paddr); // virtual address differs
        push32(&mut v, *paddr);
        push32(&mut v, data.len() as u32);
        push32(&mut v, data.len() as u32);
        push32(&mut v, 5);
        push32(&mut v, 4);
        off += data.len() as u32;
    }
    for (_, data) in segs {
        v.extend_from_slice(data);
    }
    v
}

#[test]
fn objectcopy_uses_physical_addresses() {
    let elf = tiny_elf(&[(0x0800_0000, &[1, 2, 3, 4]), (0x0800_0008, &[5, 6])]);
    let (base, out) = elf_objectcopy(&elf).unwrap();
    assert_eq!(base, 0x0800_0000);
    assert_eq!(out, vec![1, 2, 3, 4, 0, 0, 0, 0, 5, 6]);
}

#[test]
fn objectcopy_without_data_has_no_loadable_segments() {
    let elf = tiny_elf(&[(0x100, &[])]);
    assert_eq!(elf_objectcopy(&elf).unwrap_err(), ImageError::NoLoadableSegments);
}

#[test]
fn validate_accepts_matching_image() {
    assert_eq!(validate_object(0x0800_0000, 100, &conf(Some(0x0800_0000), Some(100))), Ok(()));
    assert_eq!(validate_object(5, 1 << 20, &conf(None, None)), Ok(()));
}

#[test]
fn validate_rejects_wrong_base() {
    assert_eq!(
        validate_object(0x100, 10, &conf(Some(0x200), Some(5))),
        Err(ImageError::BaseMismatch { was: 0x100, expected: 0x200 })
    );
}

#[test]
fn validate_rejects_too_large() {
    assert_eq!(
        validate_object(0x100, 101, &conf(Some(0x100), Some(100))),
        Err(ImageError::SizeTooLarge { size: 101, max: 100 })
    );
}

#[test]
fn parse_error_keeps_reader_message() {
    match elf_objectcopy(&[0x7f, b'E', b'L', b'F']) {
        Err(ImageError::Parse(msg)) => assert!(!msg.is_empty()),
        other => panic!("unexpected {:?}", other.map(|(b, _)| b)),
    }
}
