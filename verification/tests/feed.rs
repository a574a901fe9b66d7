use demo2::feed::{length_prefixed, next_frame_bounds, FeedStreamError};
use bincode::Options;
use demo2::feed::{
    frame_feed_payload, split_feed_frame, FeedFrameError, FEED_MAGIC, FEED_PROTOCOL_VERSION,
    MAX_FEED_FRAME_LEN, MAX_FEED_PAYLOAD_LEN,
};

fn feed_options() -> impl Options {
    bincode::DefaultOptions::new()
        .with_fixint_encoding()
        .with_limit(MAX_FEED_PAYLOAD_LEN)
        .reject_trailing_bytes()
}

/// The payload of a status message: its variant index, then the text.
fn status_payload(text: &str) -> bincode::Result<Vec<u8>> {
    feed_options().serialize(&(2u32, text))
}

#[test]
fn feed_frame_roundtrips_with_versioned_header() {
    let frame = frame_feed_payload(&status_payload("ready").unwrap());
    assert_eq!(&frame[..4], &FEED_MAGIC);
    assert_eq!(u16::from_be_bytes([frame[4], frame[5]]), FEED_PROTOCOL_VERSION);
    let payload = split_feed_frame(&frame).unwrap();
    let (variant, status): (u32, String) = feed_options().deserialize(payload).unwrap();
    assert_eq!((variant, status.as_str()), (2, "ready"));
}

#[test]
fn feed_frame_rejects_unknown_version() {
    let mut frame = frame_feed_payload(&status_payload("ready").unwrap());
    frame[4..6].copy_from_slice(&(FEED_PROTOCOL_VERSION + 1).to_be_bytes());
    assert_eq!(
        split_feed_frame(&frame),
        Err(FeedFrameError::UnsupportedVersion(FEED_PROTOCOL_VERSION + 1))
    );
}

#[test]
fn feed_frame_rejects_invalid_magic_and_truncated_header() {
    let mut frame = frame_feed_payload(&status_payload("ready").unwrap());
    frame[0] ^= 0xff;
    assert_eq!(split_feed_frame(&frame), Err(FeedFrameError::InvalidMagic));
    assert_eq!(split_feed_frame(&frame[..5]), Err(FeedFrameError::TruncatedHeader));
}

#[test]
fn feed_frame_enforces_the_shared_size_limit() {
    let oversized = status_payload(&"x".repeat(MAX_FEED_FRAME_LEN));
    assert!(matches!(oversized, Err(err) if matches!(*err, bincode::ErrorKind::SizeLimit)));

    let oversized_frame = vec![0; MAX_FEED_FRAME_LEN + 1];
    assert_eq!(
        split_feed_frame(&oversized_frame),
        Err(FeedFrameError::FrameTooLarge { actual: MAX_FEED_FRAME_LEN + 1, max: MAX_FEED_FRAME_LEN })
    );
    let largest = frame_feed_payload(&vec![7u8; MAX_FEED_FRAME_LEN - 6]);
    assert_eq!(split_feed_frame(&largest).map(|p| p.len()), Ok(MAX_FEED_FRAME_LEN - 6));
}

#[test]
fn feed_frame_rejects_trailing_bytes() {
    let mut frame = frame_feed_payload(&status_payload("ready").unwrap());
    frame.push(0);
    let payload = split_feed_frame(&frame).unwrap();
    assert!(feed_options().deserialize::<(u32, String)>(payload).is_err());
}

#[test]
fn frames_on_the_connection_carry_their_length() {
    let frame = frame_feed_payload(b"abc");
    let mut wire = length_prefixed(&frame).unwrap();
    assert_eq!(&wire[..4], &[0, 0, 0, 9]);
    assert_eq!(next_frame_bounds(&wire[..3]), Ok(None));
    assert_eq!(next_frame_bounds(&wire[..8]), Ok(None));
    wire.extend_from_slice(&[1, 2]);
    let (a, b) = next_frame_bounds(&wire).unwrap().unwrap();
    assert_eq!(&wire[a..b], &frame[..]);
    assert_eq!(
        next_frame_bounds(&[0xff, 0xff, 0xff, 0xff, 0]),
        Err(FeedStreamError::FrameTooLarge { len: u32::MAX })
    );
}

#[test]
fn feed_reader_counts_drops_and_decode_errors() {
    let mut stats = demo2::feed::FeedStats::new();
    stats.record_dropped();
    stats.record_dropped();
    stats.record_decode_error();
    assert_eq!((stats.dropped_samples, stats.decode_errors), (2, 1));
    stats.dropped_samples = u64::MAX;
    stats.record_dropped();
    assert_eq!(stats.dropped_samples, u64::MAX);
}
