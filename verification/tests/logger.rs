use trex::logger::{FrameSink, TcpEncoder, MAX_FRAME_SIZE};

#[test]
fn sink_collects_bytes() {
    let mut s = FrameSink::new();
    s.ingress_bytes(&[1, 2]);
    s.ingress_bytes(&[3]);
    assert_eq!(s.bytes(), Some(vec![1, 2, 3]));
    assert_eq!(s.len(), 3);
}

#[test]
fn sink_breaks_when_full_and_stays_broken() {
    let mut s = FrameSink::new();
    s.ingress_bytes(&[0u8; MAX_FRAME_SIZE - 1]);
    assert!(!s.is_broken());
    s.ingress_bytes(&[1, 2]);
    assert!(s.is_broken());
    s.ingress_bytes(&[]);
    assert!(s.is_broken());
    assert_eq!(s.bytes(), None);
    s.reset();
    assert_eq!(s.bytes(), Some(vec![]));
}

#[test]
fn sink_takes_exactly_full_frame() {
    let mut s = FrameSink::new();
    s.ingress_bytes(&[7u8; MAX_FRAME_SIZE]);
    assert!(!s.is_broken());
    assert_eq!(s.len(), MAX_FRAME_SIZE);
}

#[test]
fn encoder_frames_are_released_whole() {
    let mut e = TcpEncoder::new();
    e.acquire();
    e.write(&[1, 2, 3]);
    let frame = e.release(1024).expect("frame fits");
    // the first frame starts with a separator and ends with one
    assert_eq!(frame.first(), Some(&0));
    assert_eq!(frame.last(), Some(&0));
    assert!(frame.len() > 3);
}

#[test]
fn encoder_drops_frame_without_room() {
    let mut e = TcpEncoder::new();
    e.acquire();
    e.write(&[1, 2, 3]);
    assert_eq!(e.release(2), None);
    e.acquire();
    e.write(&[4]);
    assert!(e.release(1024).is_some());
}

#[test]
fn encoder_drops_oversized_frame() {
    let mut e = TcpEncoder::new();
    e.acquire();
    e.write(&[0xaa; 600]);
    assert_eq!(e.release(4096), None);
}

#[test]
fn sink_pieces_equal_whole() {
    let mut a = FrameSink::new();
    a.ingress_bytes(&[1, 2, 3]);
    a.ingress_bytes(&[4, 5]);
    let mut b = FrameSink::new();
    b.ingress_bytes(&[1, 2, 3, 4, 5]);
    assert_eq!(a.bytes(), b.bytes());
    let mut c = FrameSink::new();
    c.ingress_bytes(&[0u8; 300]);
    c.ingress_bytes(&[0u8; 300]);
    let mut d = FrameSink::new();
    d.ingress_bytes(&[0u8; 600]);
    assert_eq!(c.bytes(), None);
    assert_eq!(d.bytes(), None);
}

#[test]
fn first_frame_starts_with_separator_only_once() {
    let mut e = TcpEncoder::new();
    e.acquire();
    let first = e.release(1024).unwrap();
    assert_eq!(first, vec![0, 0]);
    e.acquire();
    let second = e.release(1024).unwrap();
    assert_eq!(second, vec![0]);
}

#[test]
fn written_nonzero_bytes_reach_the_frame() {
    let mut e = TcpEncoder::new();
    e.acquire();
    e.write(&[5, 0, 6, 7]);
    let frame = e.release(1024).unwrap();
    assert_eq!(frame[0], 0);
    let body = &frame[1..frame.len() - 1];
    assert!(body.iter().all(|b| *b != 0));
    assert!(body.len() >= 3);
    assert_eq!(&body[..3], &[5, 6, 7]);
}

#[test]
fn dropped_frames_are_counted() {
    let mut e = TcpEncoder::new();
    assert_eq!(e.dropped_frames(), 0);
    e.acquire();
    e.write(&[1; 20]);
    assert!(e.release(3).is_none());
    assert_eq!(e.dropped_frames(), 1);
    e.acquire();
    e.write(&[1; 700]);
    assert!(e.release(4096).is_none());
    assert_eq!(e.dropped_frames(), 2);
    e.acquire();
    assert!(e.release(4096).is_some());
    assert_eq!(e.dropped_frames(), 2);
}

#[test]
fn frame_bytes_are_the_rzcobs_encoding() {
    let mut e = TcpEncoder::new();
    e.acquire();
    e.write(&[1, 2, 3]);
    // three literal bytes, then the pending code byte: no zeros, bits 3..6 set
    assert_eq!(e.release(1024).unwrap(), vec![0, 1, 2, 3, 0x78, 0]);
    e.acquire();
    e.write(&[0, 9]);
    // zero mask 0b01, then code byte with bits 2..6 set
    assert_eq!(e.release(1024).unwrap(), vec![9, 0x7d, 0]);
}
