//! The frames that PotPlayer and its Whisper engine exchange over a named pipe:
//! a magic number, a code, the length of the body, each four bytes, and the body.
use crate::bytes::{four_bytes_read_back, le_bytes, le_value, push_bytes, push_le, read_u32};
use vstd::prelude::*;

verus! {

pub const FRAME_MAGIC: u32 = 0x11111111;

pub const FRAME_LOAD_MODEL: u32 = 0x10;

pub const FRAME_CONVERT: u32 = 0x20;

pub const FRAME_AUDIO: u32 = 0x21;

pub const FRAME_LOG: u32 = 0x10000;

pub const FRAME_READY: u32 = 0x11;

pub const FRAME_CONVERT_END: u32 = 0x22;

pub const FRAME_SEGMENT_TIMING: u32 = 0x20000;

pub const FRAME_SEGMENT_TEXT: u32 = 0x20001;

/// The length of a frame's header.
pub const HEADER_LEN: usize = 12;

/// A frame: its code and its body.
pub struct Frame {
    pub code: u32,
    pub body: Vec<u8>,
}

/// What a frame holds.
pub struct FrameView {
    pub code: u32,
    pub body: Seq<u8>,
}

impl View for Frame {
    type V = FrameView;

    open spec fn view(&self) -> FrameView {
        FrameView { code: self.code, body: self.body@ }
    }
}

/// The header of a frame. A length over 32 bits is cut to its low 32 bits.
pub open spec fn header_bytes(code: u32, body_len: nat) -> Seq<u8> {
    le_bytes(FRAME_MAGIC as nat, 4) + le_bytes(code as nat, 4) + le_bytes(body_len, 4)
}

/// A frame as it goes over the pipe.
pub open spec fn frame_bytes(frame: FrameView) -> Seq<u8> {
    header_bytes(frame.code, frame.body.len()) + frame.body
}

/// Frames, one behind the other.
pub open spec fn stream_bytes(frames: Seq<FrameView>) -> Seq<u8>
    decreases frames.len(),
{
    if frames.len() == 0 {
        seq![]
    } else {
        stream_bytes(frames.drop_last()) + frame_bytes(frames.last())
    }
}

/// The header that announces a body of the given length.
pub fn frame_header(code: u32, body_len: usize) -> (r: Vec<u8>)
    ensures
        r@ == header_bytes(code, body_len as nat),
{
    let mut r: Vec<u8> = Vec::with_capacity(HEADER_LEN);
    push_le(&mut r, FRAME_MAGIC as u64, 4);
    push_le(&mut r, code as u64, 4);
    push_le(&mut r, body_len as u64, 4);
    assert(r@ =~= header_bytes(code, body_len as nat));
    r
}

/// Appends a frame to a buffer.
pub fn push_frame(out: &mut Vec<u8>, code: u32, body: &[u8])
    ensures
        final(out)@ == old(out)@ + frame_bytes(FrameView { code, body: body@ }),
{
    let ghost start = out@;
    push_bytes(out, frame_header(code, body.len()).as_slice());
    push_bytes(out, body);
    assert(out@ =~= start + frame_bytes(FrameView { code, body: body@ }));
}

/// What a header announces: the code and the length of the body.
pub struct FrameHeader {
    pub code: u32,
    pub body_len: u32,
}

/// What twelve bytes announce, or the number that stands in the magic number's place.
pub open spec fn header_of(header: Seq<u8>) -> Result<FrameHeader, u32> {
    let magic = le_value(header.subrange(0, 4)) as u32;
    if magic == FRAME_MAGIC {
        Ok(
            FrameHeader {
                code: le_value(header.subrange(4, 8)) as u32,
                body_len: le_value(header.subrange(8, 12)) as u32,
            },
        )
    } else {
        Err(magic)
    }
}

/// Reads a header.
pub fn parse_header(header: &[u8]) -> (r: Result<FrameHeader, u32>)
    requires
        header@.len() == HEADER_LEN,
    ensures
        r == header_of(header@),
{
    let magic = read_u32(header, 0);
    let code = read_u32(header, 4);
    let body_len = read_u32(header, 8);
    if magic != FRAME_MAGIC {
        Err(magic)
    } else {
        Ok(FrameHeader { code, body_len })
    }
}

/// The first frame of a stream and what follows it, where the stream starts with a whole frame.
pub open spec fn first_frame(stream: Seq<u8>) -> Option<(FrameView, Seq<u8>)> {
    if stream.len() < HEADER_LEN {
        None
    } else {
        match header_of(stream.take(HEADER_LEN as int)) {
            Err(_) => None,
            Ok(h) => if stream.len() < HEADER_LEN + h.body_len {
                None
            } else {
                Some(
                    (
                        FrameView {
                            code: h.code,
                            body: stream.subrange(HEADER_LEN as int, HEADER_LEN + h.body_len),
                        },
                        stream.skip(HEADER_LEN + h.body_len),
                    ),
                )
            },
        }
    }
}

/// The frames of a stream, where it consists of whole frames.
pub open spec fn frames_of(stream: Seq<u8>) -> Option<Seq<FrameView>>
    decreases stream.len(),
{
    if stream.len() == 0 {
        Some(seq![])
    } else {
        match first_frame(stream) {
            None => None,
            Some((frame, rest)) => if rest.len() < stream.len() {
                match frames_of(rest) {
                    None => None,
                    Some(frames) => Some(seq![frame] + frames),
                }
            } else {
                None
            },
        }
    }
}

/// Reading a header gives back the code and the length that were written.
pub proof fn header_reads_back(code: u32, body_len: nat)
    ensures
        header_bytes(code, body_len).len() == HEADER_LEN,
        header_of(header_bytes(code, body_len)) == Ok::<FrameHeader, u32>(
            FrameHeader { code, body_len: (body_len % 0x1_0000_0000) as u32 },
        ),
{
    let h = header_bytes(code, body_len);
    four_bytes_read_back(FRAME_MAGIC as nat);
    four_bytes_read_back(code as nat);
    four_bytes_read_back(body_len);
    assert(h.subrange(0, 4) =~= le_bytes(FRAME_MAGIC as nat, 4));
    assert(h.subrange(4, 8) =~= le_bytes(code as nat, 4));
    assert(h.subrange(8, 12) =~= le_bytes(body_len, 4));
}

/// A frame at the head of a stream is read back whole, and what follows it is left.
pub proof fn frame_reads_back(frame: FrameView, rest: Seq<u8>)
    requires
        frame.body.len() <= u32::MAX,
    ensures
        first_frame(frame_bytes(frame) + rest) == Some((frame, rest)),
{
    let stream = frame_bytes(frame) + rest;
    header_reads_back(frame.code, frame.body.len());
    assert(stream.take(HEADER_LEN as int) =~= header_bytes(frame.code, frame.body.len()));
    assert(stream.subrange(HEADER_LEN as int, HEADER_LEN + frame.body.len()) =~= frame.body);
    assert(stream.skip(HEADER_LEN + frame.body.len()) =~= rest);
}

proof fn stream_bytes_from_the_front(frames: Seq<FrameView>)
    requires
        frames.len() > 0,
    ensures
        stream_bytes(frames) == frame_bytes(frames[0]) + stream_bytes(frames.drop_first()),
    decreases frames.len(),
{
    if frames.len() == 1 {
        assert(frames.drop_last() =~= Seq::<FrameView>::empty());
        assert(frames.drop_first() =~= Seq::<FrameView>::empty());
        assert(stream_bytes(frames) =~= frame_bytes(frames[0]) + stream_bytes(
            frames.drop_first(),
        ));
    } else {
        stream_bytes_from_the_front(frames.drop_last());
        assert(frames.drop_last().drop_first() =~= frames.drop_first().drop_last());
        assert(stream_bytes(frames) =~= frame_bytes(frames[0]) + stream_bytes(
            frames.drop_first(),
        ));
    }
}

/// A stream of frames is read back as the frames that were written, in their order.
pub proof fn stream_reads_back(frames: Seq<FrameView>)
    requires
        forall|i: int| 0 <= i < frames.len() ==> (#[trigger] frames[i]).body.len() <= u32::MAX,
    ensures
        frames_of(stream_bytes(frames)) == Some(frames),
    decreases frames.len(),
{
    if frames.len() == 0 {
        assert(frames =~= Seq::<FrameView>::empty());
    } else {
        stream_bytes_from_the_front(frames);
        let rest = stream_bytes(frames.drop_first());
        assert forall|i: int| 0 <= i < frames.drop_first().len() implies (
        #[trigger] frames.drop_first()[i]).body.len() <= u32::MAX by {
            assert(frames[i + 1].body.len() <= u32::MAX);
        }
        stream_reads_back(frames.drop_first());
        frame_reads_back(frames[0], rest);
        header_reads_back(frames[0].code, frames[0].body.len());
        assert(seq![frames[0]] + frames.drop_first() =~= frames);
    }
}

} // verus!
