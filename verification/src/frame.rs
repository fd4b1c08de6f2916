//! Frames: each message on a connection is preceded by its length.

use crate::error::{IoError, IoErrorKind, IoErrorView};
use crate::wire::{encode_request, encoded_request, request_view, RequestView};
use hermesmq_proto as proto;
use vstd::prelude::*;

verus! {

/// The longest message that a peer may send.
pub const MAX_FRAME: usize = 67_108_864;

/// The number of bytes of the length in front of a message.
pub const HEADER_LEN: usize = 4;

/// The four bytes of `n`, the highest first. Of a number that takes more than
/// 32 bits, the four lowest bytes.
pub open spec fn be_bytes(n: nat) -> Seq<u8> {
    seq![
        (n / 0x100_0000 % 0x100) as u8,
        (n / 0x1_0000 % 0x100) as u8,
        (n / 0x100 % 0x100) as u8,
        (n % 0x100) as u8,
    ]
}

/// The number that four bytes hold, the highest first.
pub open spec fn be_value(bytes: Seq<u8>) -> nat {
    (bytes[0] * 0x100_0000 + bytes[1] * 0x1_0000 + bytes[2] * 0x100 + bytes[3]) as nat
}

/// The frame of a message: its length in four bytes, then the message.
pub open spec fn framed(message: Seq<u8>) -> Seq<u8> {
    be_bytes(message.len()) + message
}

/// What is to be done after a number of bytes of a frame came in.
#[derive(Debug)]
pub enum FrameStep {
    /// Read this many more bytes.
    Need(usize),
    /// The frame is complete, and holds this message.
    Message(Vec<u8>),
    /// The frame is too long.
    Refused(IoError),
}

/// A [`FrameStep`] as a mathematical value.
pub enum FrameStepView {
    Need(nat),
    Message(Seq<u8>),
    Refused(IoErrorView),
}

impl View for FrameStep {
    type V = FrameStepView;

    open spec fn view(&self) -> FrameStepView {
        match self {
            FrameStep::Need(n) => FrameStepView::Need(*n as nat),
            FrameStep::Message(m) => FrameStepView::Message(m@),
            FrameStep::Refused(e) => FrameStepView::Refused(e@),
        }
    }
}

/// The failure of a frame that is too long.
pub open spec fn frame_too_long() -> IoErrorView {
    IoErrorView { kind: IoErrorKind::InvalidData, message: "frame exceeds 64 MiB limit"@ }
}

/// What `received`, the bytes that came in since the last frame ended, call
/// for: the rest of the header, then the rest of the message.
pub open spec fn frame_step(received: Seq<u8>) -> FrameStepView {
    if received.len() < HEADER_LEN {
        FrameStepView::Need((HEADER_LEN - received.len()) as nat)
    } else {
        let n = be_value(received.take(HEADER_LEN as int));
        if n > MAX_FRAME {
            FrameStepView::Refused(frame_too_long())
        } else if received.len() < HEADER_LEN + n {
            FrameStepView::Need((HEADER_LEN + n - received.len()) as nat)
        } else {
            FrameStepView::Message(received.subrange(HEADER_LEN as int, HEADER_LEN + n))
        }
    }
}

/// The frame of `bytes`, as it is written to a connection. The length is cut
/// to 32 bits.
pub fn write_frame(bytes: &[u8]) -> (out: Vec<u8>)
    ensures
        out@ == framed(bytes@),
{
    let n: u64 = bytes.len() as u64;
    let mut out: Vec<u8> = Vec::new();
    out.push((n / 0x100_0000 % 0x100) as u8);
    out.push((n / 0x1_0000 % 0x100) as u8);
    out.push((n / 0x100 % 0x100) as u8);
    out.push((n % 0x100) as u8);
    out.extend_from_slice(bytes);
    assert(out@ =~= framed(bytes@));
    out
}

/// Decides what comes next in reading a frame of which `received` has come in.
pub fn read_frame(received: &[u8]) -> (step: FrameStep)
    ensures
        step@ == frame_step(received@),
{
    if received.len() < HEADER_LEN {
        return FrameStep::Need(HEADER_LEN - received.len());
    }
    let n: u64 = received[0] as u64 * 0x100_0000 + received[1] as u64 * 0x1_0000
        + received[2] as u64 * 0x100 + received[3] as u64;
    assert(n == be_value(received@.take(HEADER_LEN as int)));
    if n > MAX_FRAME as u64 {
        return FrameStep::Refused(
            IoError::new(IoErrorKind::InvalidData, "frame exceeds 64 MiB limit"),
        );
    }
    let end: usize = HEADER_LEN + n as usize;
    if received.len() < end {
        return FrameStep::Need(end - received.len());
    }
    let mut message: Vec<u8> = Vec::new();
    message.extend_from_slice(vstd::slice::slice_subrange(received, HEADER_LEN, end));
    assert(message@ =~= received@.subrange(HEADER_LEN as int, HEADER_LEN + n));
    FrameStep::Message(message)
}

/// The bytes that are written to a connection for a request.
pub open spec fn request_bytes(req: RequestView) -> Seq<u8> {
    framed(encoded_request(req))
}

/// The frame of a request, as it is written to a connection.
pub fn request_frame(req: &proto::Request) -> (out: Vec<u8>)
    ensures
        out@ == framed(encoded_request(request_view(*req))),
        out@ == request_bytes(request_view(*req)),
{
    let bytes = encode_request(req);
    write_frame(bytes.as_slice())
}

/// The four bytes of a number below 2^32 hold it.
proof fn lemma_be_value_of_bytes(n: nat)
    requires
        n < 0x1_0000_0000,
    ensures
        be_value(be_bytes(n)) == n,
{
    assert(n / 0x100 / 0x100 == n / 0x1_0000);
    assert(n / 0x1_0000 / 0x100 == n / 0x100_0000);
}

/// A message that was framed is read back unchanged from the bytes of its
/// frame, and from no front part of them.
pub proof fn law_frame_reads_back(message: Seq<u8>, k: nat)
    requires
        message.len() <= MAX_FRAME,
        k <= framed(message).len(),
    ensures
        frame_step(framed(message)) == FrameStepView::Message(message),
        k < framed(message).len() ==> (frame_step(framed(message).take(k as int)) matches
            FrameStepView::Need(more) && 0 < more <= framed(message).len() - k),
{
    let frame = framed(message);
    lemma_be_value_of_bytes(message.len());
    assert(frame.take(HEADER_LEN as int) =~= be_bytes(message.len()));
    assert(frame.subrange(HEADER_LEN as int, frame.len() as int) =~= message);
    if HEADER_LEN <= k {
        assert(frame.take(k as int).take(HEADER_LEN as int) =~= frame.take(HEADER_LEN as int));
    }
}

/// A message over the limit whose length fits the header is refused by its
/// reader as soon as the header has come in.
pub proof fn law_long_frame_refused(message: Seq<u8>, k: nat)
    requires
        MAX_FRAME < message.len() < 0x1_0000_0000,
        HEADER_LEN <= k <= framed(message).len(),
    ensures
        frame_step(framed(message).take(k as int)) == FrameStepView::Refused(frame_too_long()),
{
    lemma_be_value_of_bytes(message.len());
    assert(framed(message).take(k as int).take(HEADER_LEN as int) =~= be_bytes(message.len()));
}

/// Whoever reads what is written for a request gets its encoding, whole and with
/// nothing behind it, if it is within the limit.
pub proof fn law_request_arrives_whole(req: RequestView)
    requires
        encoded_request(req).len() <= MAX_FRAME,
    ensures
        frame_step(request_bytes(req)) == FrameStepView::Message(encoded_request(req)),
        request_bytes(req).len() == 4 + encoded_request(req).len(),
{
    law_frame_reads_back(encoded_request(req), 0);
}

/// A frame is the message behind four bytes that hold its length, the highest
/// byte first.
pub proof fn law_frame_is_length_and_message(message: Seq<u8>, i: int)
    requires
        message.len() < 0x1_0000_0000,
    ensures
        framed(message).len() == 4 + message.len(),
        framed(message)[0] * 0x100_0000 + framed(message)[1] * 0x1_0000 + framed(message)[2] * 0x100
            + framed(message)[3] == message.len(),
        0 <= i < message.len() ==> framed(message)[4 + i] == message[i],
{
    lemma_be_value_of_bytes(message.len());
}

/// What is read of a frame: the four bytes of its length, then as many bytes as
/// they say and not one more. A frame of more than 64 MiB is refused before any
/// of its message is read, and no other is.
pub proof fn law_frame_is_read_as_its_length_says(received: Seq<u8>, step: FrameStep)
    requires
        step@ == frame_step(received),
    ensures
        received.len() < 4 ==> step == FrameStep::Need((4 - received.len()) as usize),
        received.len() >= 4 ==> ({
            let n = received[0] * 0x100_0000 + received[1] * 0x1_0000 + received[2] * 0x100
                + received[3];
            match step {
                FrameStep::Refused(e) => n > 64 * 1024 * 1024 && e.kind == IoErrorKind::InvalidData
                    && e.message@ == "frame exceeds 64 MiB limit"@,
                FrameStep::Need(more) => n <= 64 * 1024 * 1024 && more > 0 && received.len() + more
                    == 4 + n,
                FrameStep::Message(message) => n <= 64 * 1024 * 1024 && received.len() >= 4 + n
                    && message@ == received.subrange(4, 4 + n),
            }
        }),
{
}

} // verus!
