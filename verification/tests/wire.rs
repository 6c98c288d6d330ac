//! Framing and envelope behavior on the wire.

use piteria::socket::message::{decode_message, PiteriaMessage};
use piteria::socket::{
    decode_request, encode_frame, read_frame, FrameRead, Header, PiteriaTag, HEADER_SIZE,
};

#[test]
fn header_announces_payload_length() {
    let h = Header::create(300);
    assert_eq!(h.len(), HEADER_SIZE);
    assert_eq!(Header::size(h.as_slice()), 300);
}

#[test]
fn header_zero_length() {
    let h = Header::create(0);
    assert_eq!(Header::size(h.as_slice()), 0);
}

#[test]
fn frame_round_trip() {
    let payload = vec![1u8, 2, 3, 4, 5];
    let frame = encode_frame(&payload);
    assert_eq!(frame.len(), HEADER_SIZE + 5);
    match read_frame(frame.as_slice(), 0) {
        FrameRead::Frame(p, end) => {
            assert_eq!(p, payload);
            assert_eq!(end, frame.len());
        },
        _ => panic!("expected a full frame"),
    }
}

#[test]
fn empty_buffer_is_clean_peer_close() {
    let buf: Vec<u8> = Vec::new();
    assert!(matches!(read_frame(buf.as_slice(), 0), FrameRead::PeerClosed));
}

#[test]
fn partial_header_is_incomplete_not_close() {
    let buf = vec![3u8, 0, 0];
    assert!(matches!(read_frame(buf.as_slice(), 0), FrameRead::Incomplete));
}

#[test]
fn partial_payload_is_incomplete() {
    let mut frame = encode_frame(&vec![9u8, 9, 9, 9]);
    frame.pop();
    assert!(matches!(read_frame(frame.as_slice(), 0), FrameRead::Incomplete));
}

#[test]
fn two_frames_back_to_back_stay_synchronized() {
    // A misbehaving peer writes two frames before reading any response:
    // length prefixing keeps the stream self-synchronizing.
    let a = vec![10u8, 20, 30];
    let b = vec![40u8, 50];
    let mut stream = encode_frame(&a);
    stream.extend_from_slice(encode_frame(&b).as_slice());
    let (first, after_first) = match read_frame(stream.as_slice(), 0) {
        FrameRead::Frame(p, end) => (p, end),
        _ => panic!("expected the first frame"),
    };
    assert_eq!(first, a);
    assert_eq!(after_first, HEADER_SIZE + a.len());
    let (second, after_second) = match read_frame(stream.as_slice(), after_first) {
        FrameRead::Frame(p, end) => (p, end),
        _ => panic!("expected the second frame"),
    };
    assert_eq!(second, b);
    assert_eq!(after_second, stream.len());
    assert!(matches!(read_frame(stream.as_slice(), after_second), FrameRead::PeerClosed));
}

#[test]
fn tag_bytes_round_trip() {
    for tag in [PiteriaTag::Hello, PiteriaTag::Overview, PiteriaTag::ViewDeployment] {
        assert_eq!(PiteriaTag::of_byte(tag.byte()), Some(tag));
    }
    assert_eq!(PiteriaTag::of_byte(9), None);
}

#[test]
fn request_round_trips_through_the_envelope() {
    for msg in [
        PiteriaMessage::Hello,
        PiteriaMessage::Overview,
        PiteriaMessage::ViewDeployment(5),
        PiteriaMessage::ViewDeployment(-7),
        PiteriaMessage::ViewDeployment(i64::MAX),
    ] {
        let encoded = msg.to_request().encode();
        let decoded = decode_request(encoded.as_slice()).expect("envelope decodes");
        assert_eq!(decode_message(&decoded), Ok(msg));
    }
}

#[test]
fn empty_envelope_is_truncated() {
    let empty: Vec<u8> = Vec::new();
    assert!(decode_request(empty.as_slice()).is_err());
}

#[test]
fn unknown_tag_is_refused() {
    let payload = vec![77u8, 0, 0];
    assert!(decode_request(payload.as_slice()).is_err());
}

#[test]
fn lookup_body_must_be_exactly_one_id() {
    let mut encoded = PiteriaMessage::ViewDeployment(1).to_request().encode();
    encoded.push(0);
    let decoded = decode_request(encoded.as_slice()).expect("envelope decodes");
    assert!(decode_message(&decoded).is_err());
}
