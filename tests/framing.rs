use sccache_dist::frame::{decode_frame, encode_frame, Decoded, FrameError, MAX_FRAME_LEN};

#[test]
fn frame_round_trip() {
    let f = encode_frame(b"hello").unwrap();
    assert_eq!(f, vec![0, 0, 0, 5, b'h', b'e', b'l', b'l', b'o']);
    let mut buf = f.clone();
    buf.extend_from_slice(&[0, 0, 0, 1, b'x']);
    match decode_frame(&buf) {
        Decoded::Frame(p, used) => {
            assert_eq!(p, b"hello".to_vec());
            assert_eq!(used, 9);
            match decode_frame(&buf[used..]) {
                Decoded::Frame(q, n) => {
                    assert_eq!(q, b"x".to_vec());
                    assert_eq!(n, 5);
                }
                other => panic!("unexpected {:?}", other),
            }
        }
        other => panic!("unexpected {:?}", other),
    }
}

#[test]
fn partial_frames_wait() {
    assert!(matches!(decode_frame(&[0, 0]), Decoded::Incomplete));
    assert!(matches!(decode_frame(&[0, 0, 0, 3, 1, 2]), Decoded::Incomplete));
    let empty = encode_frame(b"").unwrap();
    assert!(matches!(decode_frame(&empty), Decoded::Frame(ref p, 4) if p.is_empty()));
}

#[test]
fn oversized_header_is_rejected() {
    assert_eq!(MAX_FRAME_LEN, 1 << 30);
    let over = (MAX_FRAME_LEN + 1).to_be_bytes();
    assert!(matches!(decode_frame(&over), Decoded::Oversized(n) if n == MAX_FRAME_LEN + 1));
    let at_limit = MAX_FRAME_LEN.to_be_bytes();
    assert!(matches!(decode_frame(&at_limit), Decoded::Incomplete));
}

#[test]
fn oversized_payload_is_refused() {
    let big = vec![0u8; MAX_FRAME_LEN as usize + 1];
    assert_eq!(encode_frame(&big).err(), Some(FrameError::TooLarge));
}
