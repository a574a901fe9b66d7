//! Framing of the collector-to-viewer feed: a fixed header (magic and
//! protocol version) in front of an encoded message, with a size limit.
use vstd::prelude::*;

verus! {

/// `"JJJF"`.
pub const FEED_MAGIC: [u8; 4] = [0x4A, 0x4A, 0x4A, 0x46];

pub const FEED_PROTOCOL_VERSION: u16 = 3;

/// Largest frame (header and payload), in bytes.
pub const MAX_FEED_FRAME_LEN: usize = 1048576;

/// Magic and version.
pub const FEED_HEADER_LEN: usize = 6;

/// Largest payload, in bytes.
pub const MAX_FEED_PAYLOAD_LEN: u64 = 1048570;

/// Why a frame was refused before its payload was looked at.
#[derive(Clone, Copy, Debug, PartialEq, Eq, Structural)]
pub enum FeedFrameError {
    TruncatedHeader,
    FrameTooLarge { actual: usize, max: usize },
    InvalidMagic,
    UnsupportedVersion(u16),
}

/// The header every frame starts with: the magic, then the version big-endian.
pub open spec fn feed_header() -> Seq<u8> {
    seq![0x4Au8, 0x4Au8, 0x4Au8, 0x46u8, 0x00u8, 0x03u8]
}

/// Checking a frame: the payload after a good header, or why it is refused,
/// the checks taken in this order: size, header length, magic, version.
pub open spec fn spec_split_feed_frame(frame: Seq<u8>) -> Result<Seq<u8>, FeedFrameError> {
    if frame.len() > MAX_FEED_FRAME_LEN {
        Err(FeedFrameError::FrameTooLarge { actual: frame.len() as usize, max: MAX_FEED_FRAME_LEN })
    } else if frame.len() < FEED_HEADER_LEN {
        Err(FeedFrameError::TruncatedHeader)
    } else if frame.subrange(0, 4) != feed_header().subrange(0, 4) {
        Err(FeedFrameError::InvalidMagic)
    } else if frame[4] as int * 256 + frame[5] as int != FEED_PROTOCOL_VERSION as int {
        Err(FeedFrameError::UnsupportedVersion((frame[4] as int * 256 + frame[5] as int) as u16))
    } else {
        Ok(frame.subrange(6, frame.len() as int))
    }
}

/// Puts the header in front of an encoded message.
pub fn frame_feed_payload(payload: &[u8]) -> (frame: Vec<u8>)
    ensures
        frame@ == feed_header() + payload@,
{
    let mut frame: Vec<u8> = Vec::new();
    frame.push(0x4A);
    frame.push(0x4A);
    frame.push(0x4A);
    frame.push(0x46);
    frame.push(0x00);
    frame.push(0x03);
    let mut i: usize = 0;
    while i < payload.len()
        invariant
            i <= payload@.len(),
            frame@ == feed_header() + payload@.take(i as int),
        decreases payload@.len() - i,
    {
        frame.push(payload[i]);
        i = i + 1;
        assert(frame@ =~= feed_header() + payload@.take(i as int));
    }
    assert(payload@.take(i as int) =~= payload@);
    frame
}

/// Checks a frame's size and header and returns its payload.
pub fn split_feed_frame(frame: &[u8]) -> (r: Result<&[u8], FeedFrameError>)
    ensures
        match r {
            Ok(p) => spec_split_feed_frame(frame@) == Ok::<Seq<u8>, FeedFrameError>(p@),
            Err(e) => spec_split_feed_frame(frame@) == Err::<Seq<u8>, FeedFrameError>(e),
        },
{
    let len = frame.len();
    if len > MAX_FEED_FRAME_LEN {
        return Err(FeedFrameError::FrameTooLarge { actual: len, max: MAX_FEED_FRAME_LEN });
    }
    if len < FEED_HEADER_LEN {
        return Err(FeedFrameError::TruncatedHeader);
    }
    if frame[0] != 0x4A || frame[1] != 0x4A || frame[2] != 0x4A || frame[3] != 0x46 {
        proof {
            if frame@.subrange(0, 4) == feed_header().subrange(0, 4) {
                assert(frame@[0] == frame@.subrange(0, 4)[0]);
                assert(frame@[1] == frame@.subrange(0, 4)[1]);
                assert(frame@[2] == frame@.subrange(0, 4)[2]);
                assert(frame@[3] == frame@.subrange(0, 4)[3]);
            }
        }
        return Err(FeedFrameError::InvalidMagic);
    }
    assert(frame@.subrange(0, 4) =~= feed_header().subrange(0, 4));
    let version: u16 = (frame[4] as u16) * 256 + (frame[5] as u16);
    if version != FEED_PROTOCOL_VERSION {
        return Err(FeedFrameError::UnsupportedVersion(version));
    }
    let (_, payload) = frame.split_at(FEED_HEADER_LEN);
    Ok(payload)
}

/// A payload within the size limit comes back unchanged from its frame.
pub proof fn lemma_feed_frame_roundtrip(payload: Seq<u8>)
    requires
        payload.len() <= MAX_FEED_PAYLOAD_LEN,
    ensures
        spec_split_feed_frame(feed_header() + payload) == Ok::<Seq<u8>, FeedFrameError>(payload),
{
    let frame = feed_header() + payload;
    assert(frame.subrange(0, 4) =~= feed_header().subrange(0, 4));
    assert(frame[4] == 0u8 && frame[5] == 3u8);
    assert(frame.subrange(6, frame.len() as int) =~= payload);
}

/// A payload over the size limit makes a frame that is refused as too large.
pub proof fn lemma_feed_frame_oversized(payload: Seq<u8>)
    requires
        payload.len() > MAX_FEED_PAYLOAD_LEN,
    ensures
        spec_split_feed_frame(feed_header() + payload) matches Err(
            FeedFrameError::FrameTooLarge { .. },
        ),
{
}

// ---------------------------------------------------------------------------
// Frames on the connection
// ---------------------------------------------------------------------------
/// The four big-endian bytes of `n`.
pub open spec fn be32(n: int) -> Seq<u8> {
    seq![
        ((n / 16777216) % 256) as u8,
        ((n / 65536) % 256) as u8,
        ((n / 256) % 256) as u8,
        (n % 256) as u8,
    ]
}

/// The number four bytes hold, big-endian.
pub open spec fn read_be32(b: Seq<u8>) -> int {
    b[0] as int * 16777216 + b[1] as int * 65536 + b[2] as int * 256 + b[3] as int
}

/// Why the connection's bytes cannot hold a frame.
#[derive(Clone, Copy, Debug, PartialEq, Eq, Structural)]
pub enum FeedStreamError {
    /// The announced length is over the frame size limit.
    FrameTooLarge { len: u32 },
}

/// A frame as sent on the connection: its length as four big-endian
/// bytes, then the frame; `None` for a frame whose length does not fit in
/// four bytes (the collector drops it).
pub fn length_prefixed(frame: &[u8]) -> (r: Option<Vec<u8>>)
    ensures
        frame@.len() > u32::MAX ==> r is None,
        frame@.len() <= u32::MAX ==> (r matches Some(out) && out@ == be32(frame@.len() as int) + frame@),
{
    if frame.len() > 0xffff_ffff {
        return None;
    }
    let n = frame.len() as u32;
    let mut out: Vec<u8> = Vec::new();
    out.push((n / 16777216) as u8);
    out.push(((n / 65536) % 256) as u8);
    out.push(((n / 256) % 256) as u8);
    out.push((n % 256) as u8);
    let mut i: usize = 0;
    while i < frame.len()
        invariant
            i <= frame@.len() <= u32::MAX,
            n == frame@.len(),
            out@ == be32(n as int) + frame@.take(i as int),
        decreases frame@.len() - i,
    {
        out.push(frame[i]);
        i = i + 1;
        assert(out@ =~= be32(n as int) + frame@.take(i as int));
    }
    assert(frame@.take(i as int) =~= frame@);
    Some(out)
}

/// Where the first frame of the bytes received lies: `None` while it has
/// not fully arrived, an error when its length is over the limit.
pub open spec fn spec_next_frame_bounds(buf: Seq<u8>) -> Result<Option<(int, int)>, FeedStreamError> {
    if buf.len() < 4 {
        Ok(None)
    } else if read_be32(buf) > MAX_FEED_FRAME_LEN {
        Err(FeedStreamError::FrameTooLarge { len: read_be32(buf) as u32 })
    } else if buf.len() < 4 + read_be32(buf) {
        Ok(None)
    } else {
        Ok(Some((4, 4 + read_be32(buf))))
    }
}

/// Finds the first frame in the bytes received from the collector.
pub fn next_frame_bounds(buf: &[u8]) -> (r: Result<Option<(usize, usize)>, FeedStreamError>)
    ensures
        match r {
            Ok(Some((a, b))) => spec_next_frame_bounds(buf@) == Ok::<
                Option<(int, int)>,
                FeedStreamError,
            >(Some((a as int, b as int))),
            Ok(None) => spec_next_frame_bounds(buf@) == Ok::<Option<(int, int)>, FeedStreamError>(
                None,
            ),
            Err(e) => spec_next_frame_bounds(buf@) == Err::<Option<(int, int)>, FeedStreamError>(e),
        },
{
    if buf.len() < 4 {
        return Ok(None);
    }
    let len: u32 = (buf[0] as u32) * 16777216 + (buf[1] as u32) * 65536 + (buf[2] as u32) * 256
        + (buf[3] as u32);
    if len as usize > MAX_FEED_FRAME_LEN {
        return Err(FeedStreamError::FrameTooLarge { len });
    }
    let end = 4 + len as usize;
    if buf.len() < end {
        return Ok(None);
    }
    Ok(Some((4, end)))
}

/// A frame sent on the connection is found again, whole, whatever follows
/// it.
pub proof fn lemma_length_prefix_roundtrip(frame: Seq<u8>, rest: Seq<u8>)
    requires
        frame.len() <= MAX_FEED_FRAME_LEN,
    ensures
        spec_next_frame_bounds(be32(frame.len() as int) + frame + rest) == Ok::<
            Option<(int, int)>,
            FeedStreamError,
        >(Some((4, 4 + frame.len() as int))),
        (be32(frame.len() as int) + frame + rest).subrange(4, 4 + frame.len() as int) == frame,
{
    let n = frame.len() as int;
    let buf = be32(n) + frame + rest;
    assert(read_be32(buf) == n) by {
        assert(buf[0] == ((n / 16777216) % 256) as u8);
        assert(buf[1] == ((n / 65536) % 256) as u8);
        assert(buf[2] == ((n / 256) % 256) as u8);
        assert(buf[3] == (n % 256) as u8);
        assert(0 <= n < 16777216);
    }
    assert(buf.subrange(4, 4 + n) =~= frame);
}

/// Counters of the viewer's feed reader: messages dropped because the
/// window's queue was full, and frames that did not decode.
#[derive(Clone, Copy, Debug)]
pub struct FeedStats {
    pub dropped_samples: u64,
    pub decode_errors: u64,
}

impl FeedStats {
    /// Nothing counted yet.
    pub fn new() -> (r: Self)
        ensures
            r.dropped_samples == 0 && r.decode_errors == 0,
    {
        FeedStats { dropped_samples: 0, decode_errors: 0 }
    }

    /// Counts a dropped message (held at the counter's limit).
    pub fn record_dropped(&mut self)
        ensures
            final(self).dropped_samples == if old(self).dropped_samples == u64::MAX {
                u64::MAX as int
            } else {
                old(self).dropped_samples + 1
            },
            final(self).decode_errors == old(self).decode_errors,
    {
        if self.dropped_samples < u64::MAX {
            self.dropped_samples = self.dropped_samples + 1;
        }
    }

    /// Counts a frame that did not decode (held at the counter's limit).
    pub fn record_decode_error(&mut self)
        ensures
            final(self).decode_errors == if old(self).decode_errors == u64::MAX {
                u64::MAX as int
            } else {
                old(self).decode_errors + 1
            },
            final(self).dropped_samples == old(self).dropped_samples,
    {
        if self.decode_errors < u64::MAX {
            self.decode_errors = self.decode_errors + 1;
        }
    }
}

} // verus!
