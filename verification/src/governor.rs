//! The decisions of the two actors that run one connection.
//!
//! The writer actor alone owns the send half of the session stream. It takes
//! messages from a bounded queue, in the order in which they were put there,
//! and writes each as one frame. The reader actor alone owns the receive
//! half. It cuts the stream into frames and hands each payload to the handler
//! that is registered for the frame's channel.
//!
//! Waiting on the queue, on the stream and on the table's lock is the work of
//! whoever runs the actors. What they decide between two waits is here: which
//! bytes a message becomes, when the writer stops, and which handler a frame
//! goes to.

use crate::frame::{FrameFlags, FrameHeader, FrameType};
use crate::framer::{frame_bytes, is_frame, lemma_whole_frame, parse_spec};
use crate::varint::VARINT_MAX;
use std::collections::HashMap;
use vstd::prelude::*;

verus! {

/// The number of messages that the hand-off queue holds before a sender has
/// to wait: few enough for a slow network to slow the application promptly,
/// enough to smooth a burst.
pub const QUEUE_CAPACITY: usize = 64;

/// A message on its way from the application to the writer actor.
#[derive(Debug, Clone, PartialEq, Eq)]
pub struct OutboundMessage {
    pub channel_id: u32,
    pub data: Vec<u8>,
}

/// The header under which a payload of `length` bytes goes out on `channel_id`
/// over the transport stream `stream_id`.
pub open spec fn outbound_header(channel_id: u32, stream_id: u64, length: nat) -> FrameHeader {
    FrameHeader {
        flags: FrameFlags { control: false, priority: false },
        frame_type: FrameType::RawBinary,
        channel_id,
        stream_id,
        length: length as u64,
    }
}

impl OutboundMessage {
    /// The header that the writer puts before this message.
    pub open spec fn header_spec(&self, stream_id: u64) -> FrameHeader {
        outbound_header(self.channel_id, stream_id, self.data@.len())
    }

    /// The header that the writer puts before this message: application
    /// data without flags, on the message's channel, as long as the
    /// message's payload.
    pub fn header(&self, stream_id: u64) -> (header: FrameHeader)
        ensures
            header == self.header_spec(stream_id),
    {
        FrameHeader {
            flags: FrameFlags::empty(),
            frame_type: FrameType::RawBinary,
            channel_id: self.channel_id,
            stream_id,
            length: self.data.len() as u64,
        }
    }
}

/// What the writer actor learns between two decisions.
#[derive(Debug, Clone, PartialEq, Eq)]
pub enum WriterEvent {
    /// The queue handed over its next message.
    Message(OutboundMessage),
    /// The queue is closed for good: no sender is left.
    QueueClosed,
    /// The last write to the stream failed.
    WriteFailed,
}

/// What the writer actor does next.
#[derive(Debug, Clone, PartialEq, Eq)]
pub enum WriterAction {
    /// Write `header`, then `payload`, then wait for the next message.
    Write { header: Vec<u8>, payload: Vec<u8> },
    /// Drop the message and wait for the next one.
    Skip,
    /// Finish the send half and stop.
    Finish,
}

/// The next action of the writer actor on the stream `stream_id`.
///
/// A message becomes one frame: the wire form of its header, then its
/// payload as it is. A message whose header cannot be encoded, because the
/// stream id or the payload's length exceeds `VARINT_MAX`, is dropped. The
/// writer stops when the queue is closed and when a write has failed; it
/// never tries a failed write again.
pub fn writer_step(stream_id: u64, event: WriterEvent) -> (action: WriterAction)
    ensures
        match event {
            WriterEvent::Message(message) => if message.header_spec(stream_id).encodable() {
                &&& action matches WriterAction::Write { header, payload }
                &&& header@ == message.header_spec(stream_id).wire_bytes()
                &&& payload@ == message.data@
            } else {
                action == WriterAction::Skip
            },
            WriterEvent::QueueClosed => action == WriterAction::Finish,
            WriterEvent::WriteFailed => action == WriterAction::Finish,
        },
{
    match event {
        WriterEvent::Message(message) => {
            match message.header(stream_id).to_bytes() {
                Ok(header) => WriterAction::Write { header, payload: message.data },
                Err(_) => WriterAction::Skip,
            }
        },
        WriterEvent::QueueClosed => WriterAction::Finish,
        WriterEvent::WriteFailed => WriterAction::Finish,
    }
}

/// The bytes that the writer puts on the stream `stream_id` for `messages`,
/// given by channel and payload in the order in which the queue hands them
/// over.
pub open spec fn wire_of(stream_id: u64, messages: Seq<(u32, Seq<u8>)>) -> Seq<u8>
    decreases messages.len(),
{
    if messages.len() == 0 {
        Seq::empty()
    } else {
        frame_bytes(
            outbound_header(messages.first().0, stream_id, messages.first().1.len()),
            messages.first().1,
        ) + wire_of(stream_id, messages.drop_first())
    }
}

/// What the reader dispatches from the bytes `wire`, by channel and payload:
/// one frame after the other, for as long as a whole frame is left.
pub open spec fn dispatched(wire: Seq<u8>) -> Seq<(u32, Seq<u8>)>
    decreases wire.len(),
{
    match parse_spec(wire) {
        Some((header, payload, rest)) => if rest.len() < wire.len() {
            seq![(header.channel_id, payload)] + dispatched(rest)
        } else {
            Seq::empty()
        },
        None => Seq::empty(),
    }
}

/// What goes into the writer comes out of the reader, in the same order:
/// the frames that the reader cuts from the bytes that the writer wrote for
/// a run of messages carry the channels and payloads of those messages, one
/// frame for each and none swapped. So, for every channel, the handler of
/// that channel sees the channel's payloads in the order in which they were
/// queued.
///
/// Every message must be one that the writer does not drop.
pub proof fn lemma_wire_order(stream_id: u64, messages: Seq<(u32, Seq<u8>)>, channel: u32)
    requires
        stream_id <= VARINT_MAX,
        forall|i: int| 0 <= i < messages.len() ==> (#[trigger] messages[i]).1.len() <= VARINT_MAX,
    ensures
        dispatched(wire_of(stream_id, messages)) == messages,
        dispatched(wire_of(stream_id, messages)).filter(|m: (u32, Seq<u8>)| m.0 == channel)
            == messages.filter(|m: (u32, Seq<u8>)| m.0 == channel),
    decreases messages.len(),
{
    if messages.len() == 0 {
        assert(FrameHeader::decode_spec(Seq::<u8>::empty()) is Err);
        assert(dispatched(wire_of(stream_id, messages)) =~= messages);
    } else {
        let first = messages.first();
        let later = messages.drop_first();
        let header = outbound_header(first.0, stream_id, first.1.len());
        let rest = wire_of(stream_id, later);
        assert(is_frame(header, first.1));
        header.lemma_wire_len();
        lemma_whole_frame(header, first.1, rest);
        assert forall|i: int| 0 <= i < later.len() implies (#[trigger] later[i]).1.len()
            <= VARINT_MAX by {
            assert(later[i] == messages[i + 1]);
        }
        lemma_wire_order(stream_id, later, channel);
        assert(seq![first] + later =~= messages);
    }
}

/// The dispatch table of a connection: a handler for each channel that has
/// one, and at most one handler for all the others.
pub struct Router<H> {
    handlers: HashMap<u32, H>,
    default_handler: Option<H>,
}

impl<H> Router<H> {
    /// The handlers registered by channel.
    pub closed spec fn handlers(&self) -> Map<u32, H> {
        self.handlers@
    }

    /// The handler for the channels that have none of their own.
    pub closed spec fn default_handler(&self) -> Option<H> {
        self.default_handler
    }

    /// The handler that a frame on `channel_id` goes to: the channel's own,
    /// else the default; without either the frame is dropped.
    pub open spec fn route_spec(&self, channel_id: u32) -> Option<H> {
        if self.handlers().contains_key(channel_id) {
            Some(self.handlers()[channel_id])
        } else {
            self.default_handler()
        }
    }

    /// A table without handlers.
    pub fn new() -> (router: Router<H>)
        ensures
            router.handlers() == Map::<u32, H>::empty(),
            router.default_handler() is None,
    {
        Router { handlers: HashMap::new(), default_handler: None }
    }

    /// Registers `handler` for `channel_id`, in place of the one that was
    /// registered for it before, if any.
    pub fn on(&mut self, channel_id: u32, handler: H)
        ensures
            final(self).handlers() == old(self).handlers().insert(channel_id, handler),
            final(self).default_handler() == old(self).default_handler(),
    {
        broadcast use vstd::std_specs::hash::group_hash_axioms;

        self.handlers.insert(channel_id, handler);
    }

    /// Registers `handler` for every channel that has no handler of its own,
    /// in place of the one that was registered so before, if any.
    pub fn on_any(&mut self, handler: H)
        ensures
            final(self).handlers() == old(self).handlers(),
            final(self).default_handler() == Some(handler),
    {
        self.default_handler = Some(handler);
    }

    /// The handler that a frame on `channel_id` goes to, if there is one.
    pub fn route(&self, channel_id: u32) -> (handler: Option<&H>)
        ensures
            match self.route_spec(channel_id) {
                Some(h) => handler matches Some(found) && *found == h,
                None => handler is None,
            },
    {
        broadcast use vstd::std_specs::hash::group_hash_axioms;

        match self.handlers.get(&channel_id) {
            Some(handler) => Some(handler),
            None => match &self.default_handler {
                Some(handler) => Some(handler),
                None => None,
            },
        }
    }
}

} // verus!
