//! Reassembly of frames from a byte stream.
//!
//! A transport delivers the bytes of a stream in pieces of any size: one
//! frame may arrive over many reads, and one read may bring many frames. A
//! `Framer` keeps what has arrived and has not been handed out yet, and cuts
//! it at the boundaries that the headers give.
//!
//! The framer never touches the transport. Whoever drives it reads from the
//! stream and tells the framer what came; the framer answers with a frame,
//! with a request for more bytes, or with the end of the stream.

use crate::buffer::{buffer_advance, buffer_bytes, buffer_slice};
use crate::error::Error;
use crate::frame::FrameHeader;
use bytes::BytesMut;
use vstd::prelude::*;

verus! {

/// The capacity that `Framer::new` asks for.
pub const DEFAULT_CAPACITY: usize = 4096;

/// The free capacity below which the framer reserves more before a read.
pub const LOW_WATER_MARK: usize = 1024;

/// The capacity that the framer reserves when it is below the low-water mark.
pub const RESERVE_STEP: usize = 4096;

/// Why a stream could not be cut into frames.
#[derive(Debug, Clone, Copy, PartialEq, Eq, Structural)]
pub enum FramerError {
    /// The stream ended in the middle of a frame.
    PartialFrame,
    /// The header codec failed with something other than incomplete input.
    /// No input makes it do so.
    Header(Error),
}

/// What the driver of a framer reports to it.
#[derive(Debug, Clone, PartialEq, Eq)]
pub enum ReadEvent {
    /// Nothing was read: the framer works from what it holds.
    Buffered,
    /// The stream delivered these bytes. No bytes at all count as the end of
    /// the stream.
    Data(Vec<u8>),
    /// The stream ended cleanly.
    End,
}

/// What a framer answers to an event.
pub enum ReadStep {
    /// The next frame: its header and its payload.
    Frame(FrameHeader, BytesMut),
    /// No whole frame is buffered: read from the stream and report.
    NeedData,
    /// The stream has ended between two frames.
    Finished,
}

/// The answer of a framer to an event, over plain bytes.
pub enum ReadOutcome {
    Frame(FrameHeader, Seq<u8>),
    NeedData,
    Finished,
    PartialFrame,
}

impl ReadEvent {
    /// The bytes that the event brings.
    pub open spec fn incoming(self) -> Seq<u8> {
        match self {
            ReadEvent::Data(bytes) => bytes@,
            _ => Seq::empty(),
        }
    }

    /// Whether the event says that the stream has ended.
    pub open spec fn ends_stream(self) -> bool {
        match self {
            ReadEvent::Buffered => false,
            ReadEvent::Data(bytes) => bytes@.len() == 0,
            ReadEvent::End => true,
        }
    }
}

/// The first frame in `buf`, if `buf` holds all of it: its header, its
/// payload, and the bytes behind it.
pub open spec fn parse_spec(buf: Seq<u8>) -> Option<(FrameHeader, Seq<u8>, Seq<u8>)> {
    match FrameHeader::decode_spec(buf) {
        Ok((header, head_len)) => if header.length <= buf.len() - head_len {
            Some(
                (
                    header,
                    buf.subrange(head_len as int, head_len + header.length),
                    buf.skip(head_len + header.length),
                ),
            )
        } else {
            None
        },
        Err(_) => None,
    }
}

/// What a framer that holds `buf` answers when `incoming` arrives and the
/// stream has or has not `ended`, and what it holds afterwards.
///
/// The new bytes join the buffer first. A whole frame at the front of the
/// buffer is handed out, whether or not the stream has ended. Without one,
/// an open stream is asked for more, and a stream that has ended is finished
/// if nothing is left over and broken if anything is.
pub open spec fn read_spec(buf: Seq<u8>, incoming: Seq<u8>, ended: bool) -> (ReadOutcome, Seq<u8>) {
    let all = buf + incoming;
    match parse_spec(all) {
        Some((header, payload, rest)) => (ReadOutcome::Frame(header, payload), rest),
        None => if !ended {
            (ReadOutcome::NeedData, all)
        } else if all.len() == 0 {
            (ReadOutcome::Finished, all)
        } else {
            (ReadOutcome::PartialFrame, all)
        },
    }
}

/// Whether `header` and `payload` make a frame that can go on the wire: the
/// header is encodable and announces the payload's length.
pub open spec fn is_frame(header: FrameHeader, payload: Seq<u8>) -> bool {
    header.encodable() && header.length == payload.len()
}

/// A frame on the wire: the header's wire form, then the payload.
pub open spec fn frame_bytes(header: FrameHeader, payload: Seq<u8>) -> Seq<u8> {
    header.wire_bytes() + payload
}

/// The answers of a framer that holds `buf` to a stream that delivers
/// `chunks`, one read each, and what the framer holds after the last.
pub open spec fn feed(buf: Seq<u8>, chunks: Seq<Seq<u8>>) -> (Seq<ReadOutcome>, Seq<u8>)
    decreases chunks.len(),
{
    if chunks.len() == 0 {
        (Seq::empty(), buf)
    } else {
        let step = read_spec(buf, chunks.first(), chunks.first().len() == 0);
        let later = feed(step.1, chunks.drop_first());
        (seq![step.0] + later.0, later.1)
    }
}

/// `reads` answers of which all but the last ask for more bytes and the last
/// is the frame.
pub open spec fn one_frame_after(reads: nat, header: FrameHeader, payload: Seq<u8>) -> Seq<
    ReadOutcome,
> {
    Seq::new(
        reads,
        |i: int|
            if i + 1 < reads {
                ReadOutcome::NeedData
            } else {
                ReadOutcome::Frame(header, payload)
            },
    )
}

/// A buffer that starts with a whole frame parses to that frame, and what
/// follows the frame is left over.
pub proof fn lemma_whole_frame(header: FrameHeader, payload: Seq<u8>, following: Seq<u8>)
    requires
        is_frame(header, payload),
    ensures
        parse_spec(frame_bytes(header, payload) + following) == Some(
            (header, payload, following),
        ),
{
    let all = frame_bytes(header, payload) + following;
    let n = header.wire_bytes().len();
    header.lemma_wire_len();
    header.lemma_round_trip(payload + following);
    assert(all =~= header.wire_bytes() + (payload + following));
    assert(all.subrange(n as int, n + header.length) =~= payload);
    assert(all.skip(n + header.length) =~= following);
}

/// A buffer that holds only the first `k` bytes of a frame, with at least
/// one byte missing, parses to nothing: the framer waits.
pub proof fn lemma_part_of_frame(header: FrameHeader, payload: Seq<u8>, k: int)
    requires
        is_frame(header, payload),
        0 <= k < frame_bytes(header, payload).len(),
    ensures
        parse_spec(frame_bytes(header, payload).take(k)) is None,
{
    let all = frame_bytes(header, payload);
    header.lemma_wire_len();
    header.lemma_round_trip(payload);
    FrameHeader::lemma_decode_prefix(all, k);
}

/// One frame that arrives in pieces is handed out once, when its last byte
/// has arrived: however a stream cuts a frame into non-empty reads, a framer
/// that holds the frame's first bytes in `buf` and gets the rest in `chunks`
/// asks for more after every read but the last, answers the last with the
/// frame, and holds nothing afterwards.
pub proof fn lemma_fragmented_frame(
    header: FrameHeader,
    payload: Seq<u8>,
    buf: Seq<u8>,
    chunks: Seq<Seq<u8>>,
)
    requires
        is_frame(header, payload),
        chunks.len() >= 1,
        forall|i: int| 0 <= i < chunks.len() ==> (#[trigger] chunks[i]).len() > 0,
        buf + chunks.flatten() == frame_bytes(header, payload),
    ensures
        feed(buf, chunks) == (one_frame_after(chunks.len(), header, payload), Seq::<u8>::empty()),
    decreases chunks.len(),
{
    let whole = frame_bytes(header, payload);
    let first = chunks.first();
    let rest = chunks.drop_first();
    let all = buf + first;
    let step = read_spec(buf, first, false);
    assert(chunks.flatten() == first + rest.flatten());
    assert(whole =~= all + rest.flatten());
    if chunks.len() == 1 {
        assert(rest.flatten() =~= Seq::<u8>::empty());
        assert(all =~= whole + Seq::<u8>::empty());
        lemma_whole_frame(header, payload, Seq::empty());
        assert(feed(step.1, rest).0 =~= Seq::<ReadOutcome>::empty());
        assert(seq![step.0] + feed(step.1, rest).0 =~= one_frame_after(1, header, payload));
    } else {
        assert(rest.flatten() == rest.first() + rest.drop_first().flatten());
        assert(rest.first() == chunks[1]);
        assert(all =~= whole.take(all.len() as int));
        lemma_part_of_frame(header, payload, all.len() as int);
        assert forall|i: int| 0 <= i < rest.len() implies (#[trigger] rest[i]).len() > 0 by {
            assert(rest[i] == chunks[i + 1]);
        }
        lemma_fragmented_frame(header, payload, all, rest);
        assert(seq![step.0] + one_frame_after(rest.len(), header, payload) =~= one_frame_after(
            chunks.len(),
            header,
            payload,
        ));
    }
}

/// A frame that arrives in pieces is the frame that arrives in one read.
pub proof fn lemma_fragments_as_one_read(
    header: FrameHeader,
    payload: Seq<u8>,
    chunks: Seq<Seq<u8>>,
)
    requires
        is_frame(header, payload),
        chunks.len() >= 1,
        forall|i: int| 0 <= i < chunks.len() ==> (#[trigger] chunks[i]).len() > 0,
        chunks.flatten() == frame_bytes(header, payload),
    ensures
        feed(Seq::empty(), chunks).0.last() == read_spec(
            Seq::empty(),
            frame_bytes(header, payload),
            false,
        ).0,
        feed(Seq::empty(), chunks).1 == read_spec(
            Seq::empty(),
            frame_bytes(header, payload),
            false,
        ).1,
        read_spec(Seq::empty(), frame_bytes(header, payload), false) == (
            ReadOutcome::Frame(header, payload),
            Seq::<u8>::empty(),
        ),
{
    let whole = frame_bytes(header, payload);
    assert(Seq::<u8>::empty() + chunks.flatten() =~= whole);
    lemma_fragmented_frame(header, payload, Seq::empty(), chunks);
    lemma_whole_frame(header, payload, Seq::empty());
    assert(Seq::<u8>::empty() + whole =~= whole + Seq::<u8>::empty());
}

/// Two frames that arrive in one read are handed out one after the other,
/// and the second needs no further read: the read that brings both is
/// answered with the first, and the next call, which brings nothing, with
/// the second.
pub proof fn lemma_coalesced_frames(
    first: FrameHeader,
    first_payload: Seq<u8>,
    second: FrameHeader,
    second_payload: Seq<u8>,
)
    requires
        is_frame(first, first_payload),
        is_frame(second, second_payload),
    ensures
        read_spec(
            Seq::empty(),
            frame_bytes(first, first_payload) + frame_bytes(second, second_payload),
            false,
        ) == (ReadOutcome::Frame(first, first_payload), frame_bytes(second, second_payload)),
        read_spec(frame_bytes(second, second_payload), Seq::empty(), false) == (
            ReadOutcome::Frame(second, second_payload),
            Seq::<u8>::empty(),
        ),
        frame_bytes(first, first_payload).len() > 0,
{
    let a = frame_bytes(first, first_payload);
    let b = frame_bytes(second, second_payload);
    first.lemma_wire_len();
    lemma_whole_frame(first, first_payload, b);
    lemma_whole_frame(second, second_payload, Seq::empty());
    assert(Seq::<u8>::empty() + (a + b) =~= a + b);
    assert(b + Seq::<u8>::empty() =~= b);
}

/// A stream that ends before it has delivered a byte is finished; one that
/// ends after some but not all bytes of a frame is broken. The second holds
/// in particular of a stream that ends behind the header of a frame whose
/// payload is not empty.
pub proof fn lemma_end_of_stream(header: FrameHeader, payload: Seq<u8>, k: int)
    requires
        is_frame(header, payload),
        0 < k < frame_bytes(header, payload).len(),
    ensures
        read_spec(Seq::empty(), Seq::empty(), true) == (ReadOutcome::Finished, Seq::<u8>::empty()),
        read_spec(frame_bytes(header, payload).take(k), Seq::empty(), true).0
            == ReadOutcome::PartialFrame,
        payload.len() > 0 ==> read_spec(header.wire_bytes(), Seq::empty(), true).0
            == ReadOutcome::PartialFrame,
{
    let whole = frame_bytes(header, payload);
    assert(Seq::<u8>::empty() + Seq::<u8>::empty() =~= Seq::<u8>::empty());
    lemma_part_of_frame(header, payload, k);
    assert(whole.take(k) + Seq::<u8>::empty() =~= whole.take(k));
    if payload.len() > 0 {
        let n = header.wire_bytes().len() as int;
        header.lemma_wire_len();
        lemma_part_of_frame(header, payload, n);
        assert(whole.take(n) =~= header.wire_bytes());
        assert(header.wire_bytes() + Seq::<u8>::empty() =~= header.wire_bytes());
    }
}

/// The state of one stream's reassembly: the bytes that have arrived and
/// have not been handed out in a frame yet.
pub struct Framer {
    buffer: BytesMut,
}

impl View for Framer {
    type V = Seq<u8>;

    /// The bytes waiting to be parsed.
    closed spec fn view(&self) -> Seq<u8> {
        buffer_bytes(self.buffer)
    }
}

impl Framer {
    /// A framer that holds no bytes, with the default capacity.
    pub fn new() -> (framer: Framer)
        ensures
            framer@ == Seq::<u8>::empty(),
    {
        Framer { buffer: BytesMut::with_capacity(DEFAULT_CAPACITY) }
    }

    /// A framer that holds no bytes, with room for `capacity` bytes.
    pub fn with_capacity(capacity: usize) -> (framer: Framer)
        requires
            capacity <= isize::MAX,
        ensures
            framer@ == Seq::<u8>::empty(),
    {
        Framer { buffer: BytesMut::with_capacity(capacity) }
    }

    /// The number of bytes that the buffer can hold without allocating
    /// again.
    pub fn buffer_capacity(&self) -> (capacity: usize)
        ensures
            capacity >= self@.len(),
    {
        self.buffer.capacity()
    }

    /// The number of bytes waiting to be parsed.
    pub fn buffer_len(&self) -> (len: usize)
        ensures
            len == self@.len(),
    {
        self.buffer.len()
    }

    /// Takes the first frame out of the buffer, if the buffer holds all of
    /// it.
    ///
    /// A header that is not complete yet, or a payload that is shorter than
    /// its header says, is no error: the answer is `None` and the buffer
    /// stays as it is. This never fails.
    pub fn parse_frame(&mut self) -> (r: Result<Option<(FrameHeader, BytesMut)>, FramerError>)
        ensures
            match parse_spec(old(self)@) {
                Some((header, payload, rest)) => {
                    &&& r matches Ok(Some((h, p)))
                    &&& h == header
                    &&& buffer_bytes(p) == payload
                    &&& final(self)@ == rest
                },
                None => r matches Ok(None) && final(self)@ == old(self)@,
            },
    {
        if self.buffer.is_empty() {
            return Ok(None);
        }
        match FrameHeader::decode(buffer_slice(&self.buffer)) {
            Ok((header, head_len)) => {
                let available = (self.buffer.len() - head_len) as u64;
                if header.length <= available {
                    let payload_len = header.length as usize;
                    let ghost before = self@;
                    buffer_advance(&mut self.buffer, head_len);
                    let payload = self.buffer.split_to(payload_len);
                    proof {
                        assert(buffer_bytes(payload) =~= before.subrange(
                            head_len as int,
                            head_len + header.length,
                        ));
                        assert(self@ =~= before.skip(head_len + header.length));
                    }
                    Ok(Some((header, payload)))
                } else {
                    Ok(None)
                }
            },
            Err(Error::IncompleteInput { .. }) => Ok(None),
            Err(e) => Err(FramerError::Header(e)),
        }
    }

    /// Takes in what the driver reports and answers with the next step of
    /// reading one frame.
    ///
    /// Bytes that the event brings are appended to the buffer. If the buffer
    /// then starts with a whole frame, the frame is taken out and returned;
    /// what follows it stays for the next call, which needs no new bytes to
    /// return a second frame that arrived with the first. Otherwise the
    /// answer is `NeedData` while the stream is open. Once it has ended the
    /// answer is `Finished` if the buffer is empty, and the error
    /// `PartialFrame` if it is not: the peer stopped in the middle of a
    /// frame.
    pub fn read_frame(&mut self, event: ReadEvent) -> (r: Result<ReadStep, FramerError>)
        requires
            old(self)@.len() + event.incoming().len() <= isize::MAX,
        ensures
            final(self)@ == read_spec(old(self)@, event.incoming(), event.ends_stream()).1,
            match read_spec(old(self)@, event.incoming(), event.ends_stream()).0 {
                ReadOutcome::Frame(header, payload) => {
                    &&& r matches Ok(ReadStep::Frame(h, p))
                    &&& h == header
                    &&& buffer_bytes(p) == payload
                },
                ReadOutcome::NeedData => r matches Ok(ReadStep::NeedData),
                ReadOutcome::Finished => r matches Ok(ReadStep::Finished),
                ReadOutcome::PartialFrame => r == Err::<ReadStep, FramerError>(
                    FramerError::PartialFrame,
                ),
            },
    {
        let ended = match &event {
            ReadEvent::Buffered => false,
            ReadEvent::Data(bytes) => {
                if bytes.len() == 0 {
                    true
                } else {
                    self.buffer.extend_from_slice(bytes.as_slice());
                    false
                }
            },
            ReadEvent::End => true,
        };
        proof {
            assert(self@ =~= old(self)@ + event.incoming());
        }
        match self.parse_frame()? {
            Some((header, payload)) => Ok(ReadStep::Frame(header, payload)),
            None => {
                if !ended {
                    self.make_room();
                    Ok(ReadStep::NeedData)
                } else if self.buffer.is_empty() {
                    Ok(ReadStep::Finished)
                } else {
                    Err(FramerError::PartialFrame)
                }
            },
        }
    }

    /// Reserves capacity ahead of a read when little is free, so that many
    /// small reads do not each allocate. The bytes held are not changed.
    fn make_room(&mut self)
        ensures
            final(self)@ == old(self)@,
    {
        let len = self.buffer.len();
        let capacity = self.buffer.capacity();
        if reserve_wanted(len, capacity) {
            self.buffer.reserve(RESERVE_STEP);
        }
    }
}

impl Default for Framer {
    fn default() -> (framer: Framer)
        ensures
            framer@ == Seq::<u8>::empty(),
    {
        Framer::new()
    }
}

/// Whether a buffer that holds `len` bytes and can hold `capacity` without
/// allocating again is to reserve more before the next read: its free
/// capacity is below the low-water mark, and another step still fits the
/// largest buffer there can be.
pub open spec fn reserve_wanted_spec(len: usize, capacity: usize) -> bool {
    capacity - len < LOW_WATER_MARK && len + RESERVE_STEP <= isize::MAX
}

/// Whether a buffer that holds `len` bytes and can hold `capacity` without
/// allocating again is to reserve more before the next read.
fn reserve_wanted(len: usize, capacity: usize) -> (wanted: bool)
    requires
        len <= capacity,
    ensures
        wanted == reserve_wanted_spec(len, capacity),
{
    capacity - len < LOW_WATER_MARK && len <= isize::MAX as usize - RESERVE_STEP
}

} // verus!
