//! Frame headers and their wire form.
//!
//! A header is one byte that carries the flags in its two highest bits and
//! the payload type in its five lowest, followed by three varints: channel
//! id, stream id and payload length. Exactly `length` payload bytes follow
//! the header on the wire; nothing else delimits a frame.

use crate::error::Error;
use crate::varint::{
    decode_varint, decode_varint_spec, encode_varint, encode_varint_spec,
    lemma_decode_varint_bounds, lemma_decode_varint_prefix, lemma_varint_bytes,
    lemma_varint_round_trip, minimal_width, varint_bytes, VARINT_MAX,
};
use vstd::prelude::*;

verus! {

/// What the payload of a frame holds.
#[derive(Debug, Clone, Copy, PartialEq, Eq, Structural)]
pub enum FrameType {
    /// Bytes that are passed through as they are.
    RawBinary,
    /// An archived value that can be read in place.
    RkyvAligned,
    /// UTF-8 text.
    Utf8Text,
    /// Any type this version does not know.
    Unknown,
}

impl FrameType {
    /// The number that stands for this type.
    pub open spec fn tag_spec(self) -> u8 {
        match self {
            FrameType::RawBinary => 0x00,
            FrameType::RkyvAligned => 0x01,
            FrameType::Utf8Text => 0x02,
            FrameType::Unknown => 0xFF,
        }
    }

    /// The type that `value` stands for; every unassigned number is `Unknown`.
    pub open spec fn from_tag(value: u8) -> FrameType {
        if value == 0x00 {
            FrameType::RawBinary
        } else if value == 0x01 {
            FrameType::RkyvAligned
        } else if value == 0x02 {
            FrameType::Utf8Text
        } else {
            FrameType::Unknown
        }
    }

    /// The number that stands for this type.
    pub fn tag(self) -> (t: u8)
        ensures
            t == self.tag_spec(),
    {
        match self {
            FrameType::RawBinary => 0x00,
            FrameType::RkyvAligned => 0x01,
            FrameType::Utf8Text => 0x02,
            FrameType::Unknown => 0xFF,
        }
    }
}

impl From<u8> for FrameType {
    fn from(value: u8) -> (t: FrameType) {
        match value {
            0x00 => FrameType::RawBinary,
            0x01 => FrameType::RkyvAligned,
            0x02 => FrameType::Utf8Text,
            _ => FrameType::Unknown,
        }
    }
}

impl vstd::std_specs::convert::FromSpecImpl<u8> for FrameType {
    open spec fn obeys_from_spec() -> bool {
        true
    }

    open spec fn from_spec(value: u8) -> FrameType {
        FrameType::from_tag(value)
    }
}

/// The flags of a frame header.
///
/// On the wire the control flag is bit 7 and the priority flag bit 6 of the
/// first header byte. Bit 5 is reserved and always written as zero.
#[derive(Debug, Clone, Copy, PartialEq, Eq, PartialOrd, Ord, Hash, Structural)]
pub struct FrameFlags {
    /// The frame is a control message, not application data.
    pub control: bool,
    /// The frame asks for expedited handling.
    pub priority: bool,
}

impl FrameFlags {
    /// The flags as they stand in the first header byte.
    pub open spec fn bits_spec(self) -> u8 {
        if self.control && self.priority {
            0xC0
        } else if self.control {
            0x80
        } else if self.priority {
            0x40
        } else {
            0x00
        }
    }

    /// The flags that the first header byte `byte` carries. Its other bits
    /// are ignored.
    pub open spec fn from_byte(byte: u8) -> FrameFlags {
        FrameFlags { control: byte & 0x80 != 0, priority: byte & 0x40 != 0 }
    }

    /// No flag set.
    pub fn empty() -> (f: FrameFlags)
        ensures
            f == (FrameFlags { control: false, priority: false }),
    {
        FrameFlags { control: false, priority: false }
    }

    /// The control flag alone.
    pub fn control() -> (f: FrameFlags)
        ensures
            f == (FrameFlags { control: true, priority: false }),
    {
        FrameFlags { control: true, priority: false }
    }

    /// The priority flag alone.
    pub fn priority() -> (f: FrameFlags)
        ensures
            f == (FrameFlags { control: false, priority: true }),
    {
        FrameFlags { control: false, priority: true }
    }

    /// The flags as they stand in the first header byte.
    pub fn bits(&self) -> (b: u8)
        ensures
            b == self.bits_spec(),
    {
        if self.control && self.priority {
            0xC0
        } else if self.control {
            0x80
        } else if self.priority {
            0x40
        } else {
            0x00
        }
    }

    /// Whether every flag of `other` is set in `self`.
    pub fn contains(&self, other: FrameFlags) -> (b: bool)
        ensures
            b == ((other.control ==> self.control) && (other.priority ==> self.priority)),
    {
        (!other.control || self.control) && (!other.priority || self.priority)
    }

    /// The flags set in `self` or in `other`.
    pub fn union(self, other: FrameFlags) -> (f: FrameFlags)
        ensures
            f == self.union_spec(other),
    {
        FrameFlags {
            control: self.control || other.control,
            priority: self.priority || other.priority,
        }
    }

    /// Sets every flag of `other` in `self`.
    pub fn insert(&mut self, other: FrameFlags)
        ensures
            *final(self) == old(self).union_spec(other),
    {
        self.control = self.control || other.control;
        self.priority = self.priority || other.priority;
    }

    /// The flags set in `self` or in `other`.
    pub open spec fn union_spec(self, other: FrameFlags) -> FrameFlags {
        FrameFlags {
            control: self.control || other.control,
            priority: self.priority || other.priority,
        }
    }
}

impl core::ops::BitOr for FrameFlags {
    type Output = FrameFlags;

    fn bitor(self, other: FrameFlags) -> (f: FrameFlags) {
        self.union(other)
    }
}

impl vstd::std_specs::ops::BitOrSpecImpl for FrameFlags {
    open spec fn obeys_bitor_spec() -> bool {
        true
    }

    open spec fn bitor_req(self, other: FrameFlags) -> bool {
        true
    }

    open spec fn bitor_spec(self, other: FrameFlags) -> FrameFlags {
        self.union_spec(other)
    }
}

/// The length of the scratch buffer that a header is encoded in before it is
/// sent. The longest wire form takes 25 bytes.
pub const SCRATCH_LEN: usize = 32;

/// The header that precedes every payload on the wire.
#[derive(Debug, Clone, Copy, PartialEq, Eq, Structural)]
pub struct FrameHeader {
    pub flags: FrameFlags,
    pub frame_type: FrameType,
    /// The application's multiplexing key; it has nothing to do with the
    /// transport's stream identifiers.
    pub channel_id: u32,
    /// The transport stream that the frame was sent on. Informational.
    pub stream_id: u64,
    /// The number of payload bytes that follow the header.
    pub length: u64,
}

/// Encodes `v` as a varint into `buf` from `offset` on.
fn encode_varint_at(v: u64, buf: &mut [u8], offset: usize) -> (r: Result<usize, Error>)
    requires
        offset <= old(buf)@.len(),
    ensures
        r == encode_varint_spec(v, (old(buf)@.len() - offset) as usize),
        final(buf)@.len() == old(buf)@.len(),
        r is Ok ==> varint_bytes(v).len() == minimal_width(v) && final(buf)@ == old(buf)@.subrange(
            0,
            offset as int,
        ) + varint_bytes(v) + old(buf)@.skip(offset + minimal_width(v)),
        r is Err ==> final(buf)@ == old(buf)@,
{
    let ghost before = buf@;
    let (_, tail) = buf.split_at_mut(offset);
    let r = encode_varint(v, tail);
    proof {
        if r is Ok {
            lemma_varint_bytes(v);
            assert(buf@ =~= before.subrange(0, offset as int) + varint_bytes(v) + before.skip(
                offset + minimal_width(v),
            ));
        } else {
            assert(buf@ =~= before);
        }
    }
    r
}

/// Overwriting the bytes behind what has been written leaves a buffer that
/// starts with both and goes on as before.
proof fn lemma_splice(
    before: Seq<u8>,
    written: Seq<u8>,
    piece: Seq<u8>,
    was: Seq<u8>,
    now: Seq<u8>,
)
    requires
        written.len() + piece.len() <= before.len(),
        was == written + before.skip(written.len() as int),
        now == was.subrange(0, written.len() as int) + piece + was.skip(
            (written.len() + piece.len()) as int,
        ),
    ensures
        now == (written + piece) + before.skip((written.len() + piece.len()) as int),
{
    assert(now =~= (written + piece) + before.skip((written.len() + piece.len()) as int));
}

impl FrameHeader {
    /// The first byte of the wire form: the flags in the two highest bits,
    /// the low five bits of the type's number below them.
    pub open spec fn first_byte(self) -> u8 {
        self.flags.bits_spec() | (self.frame_type.tag_spec() & 0x1F)
    }

    /// Whether every field fits the varint that carries it.
    pub open spec fn encodable(self) -> bool {
        self.stream_id <= VARINT_MAX && self.length <= VARINT_MAX
    }

    /// The wire form of an encodable header.
    pub open spec fn wire_bytes(self) -> Seq<u8>
        recommends
            self.encodable(),
    {
        seq![self.first_byte()] + varint_bytes(self.channel_id as u64) + varint_bytes(
            self.stream_id,
        ) + varint_bytes(self.length)
    }

    /// What encoding into a buffer of `available` bytes returns, and the
    /// bytes that it has put at the front of the buffer by then: the fields
    /// are written in order, and the first one that does not fit or cannot
    /// be encoded ends the attempt.
    pub open spec fn encode_spec(self, available: usize) -> (Result<usize, Error>, Seq<u8>) {
        let first = seq![self.first_byte()];
        let channel = varint_bytes(self.channel_id as u64);
        let stream = varint_bytes(self.stream_id);
        let length = varint_bytes(self.length);
        if available < 1 {
            (Err(Error::BufferTooSmall { needed: 1, available }), Seq::empty())
        } else {
            match encode_varint_spec(self.channel_id as u64, (available - 1) as usize) {
                Err(e) => (Err(e), first),
                Ok(wc) => match encode_varint_spec(self.stream_id, (available - 1 - wc) as usize) {
                    Err(e) => (Err(e), first + channel),
                    Ok(ws) => match encode_varint_spec(
                        self.length,
                        (available - 1 - wc - ws) as usize,
                    ) {
                        Err(e) => (Err(e), first + channel + stream),
                        Ok(wl) => (
                            Ok((1 + wc + ws + wl) as usize),
                            first + channel + stream + length,
                        ),
                    },
                },
            }
        }
    }

    /// Writes the wire form of the header to the front of `buf` and returns
    /// its length.
    ///
    /// The fields are written one after the other. The attempt ends at the
    /// first field that `buf` has no room for (`BufferTooSmall`, with the
    /// bytes that field needs and the bytes that were left for it) or whose
    /// value exceeds `VARINT_MAX` (`InvalidVarInt`); the fields before it
    /// have been written by then. Bytes behind what was written are not
    /// touched.
    pub fn encode(&self, buf: &mut [u8]) -> (r: Result<usize, Error>)
        ensures
            r == self.encode_spec(old(buf)@.len() as usize).0,
            final(buf)@ == self.encode_spec(old(buf)@.len() as usize).1 + old(buf)@.skip(
                self.encode_spec(old(buf)@.len() as usize).1.len() as int,
            ),
    {
        let ghost before = buf@;
        if buf.len() < 1 {
            assert(buf@ =~= Seq::<u8>::empty() + before.skip(0));
            return Err(Error::BufferTooSmall { needed: 1, available: buf.len() });
        }
        let type_bits: u8 = self.frame_type.tag() & 0x1F;
        let mut first_byte: u8 = type_bits;
        if self.flags.contains(FrameFlags::control()) {
            first_byte |= 0b1000_0000;
        }
        if self.flags.contains(FrameFlags::priority()) {
            first_byte |= 0b0100_0000;
        }
        proof {
            assert((type_bits | 0x80) | 0x40 == 0xC0 | type_bits) by (bit_vector);
            assert(type_bits | 0x80 == 0x80 | type_bits) by (bit_vector);
            assert(type_bits | 0x40 == 0x40 | type_bits) by (bit_vector);
            assert(type_bits == 0x00 | type_bits) by (bit_vector);
            assert(first_byte == self.first_byte());
        }
        buf[0] = first_byte;
        let mut offset: usize = 1;
        let ghost first = seq![first_byte];
        let ghost channel = varint_bytes(self.channel_id as u64);
        let ghost stream = varint_bytes(self.stream_id);
        let ghost length = varint_bytes(self.length);
        let ghost after_first = buf@;
        proof {
            assert(after_first =~= first + before.skip(1));
        }
        offset += encode_varint_at(self.channel_id as u64, buf, offset)?;
        let ghost after_channel = buf@;
        proof {
            lemma_splice(before, first, channel, after_first, after_channel);
        }
        offset += encode_varint_at(self.stream_id, buf, offset)?;
        let ghost after_stream = buf@;
        proof {
            lemma_splice(before, first + channel, stream, after_channel, after_stream);
        }
        offset += encode_varint_at(self.length, buf, offset)?;
        proof {
            lemma_splice(before, first + channel + stream, length, after_stream, buf@);
        }

        Ok(offset)
    }

    /// What decoding a header from the front of `buf` gives: the first byte
    /// holds flags and type, then the three varints are decoded in order,
    /// each from where the one before it ended. A channel id above 32 bits
    /// keeps its low 32 bits.
    pub open spec fn decode_spec(buf: Seq<u8>) -> Result<(FrameHeader, usize), Error> {
        if buf.len() == 0 {
            Err(Error::IncompleteInput { needed_min: 1, available: 0 })
        } else {
            match decode_varint_spec(buf.skip(1)) {
                Err(e) => Err(e),
                Ok((channel, wc)) => match decode_varint_spec(buf.skip(1 + wc)) {
                    Err(e) => Err(e),
                    Ok((stream, ws)) => match decode_varint_spec(buf.skip(1 + wc + ws)) {
                        Err(e) => Err(e),
                        Ok((length, wl)) => Ok(
                            (
                                FrameHeader {
                                    flags: FrameFlags::from_byte(buf[0]),
                                    frame_type: FrameType::from_tag(buf[0] & 0x1F),
                                    channel_id: (channel % 0x1_0000_0000) as u32,
                                    stream_id: stream,
                                    length,
                                },
                                (1 + wc + ws + wl) as usize,
                            ),
                        ),
                    },
                },
            }
        }
    }

    /// The wire form of the header in a vector of its own.
    ///
    /// Fails with `InvalidVarInt`, and on no other ground, where the stream
    /// id or the length exceeds `VARINT_MAX`.
    pub fn to_bytes(&self) -> (r: Result<Vec<u8>, Error>)
        ensures
            self.encodable() ==> (r matches Ok(bytes) && bytes@ == self.wire_bytes()),
            !self.encodable() ==> r == Err::<Vec<u8>, Error>(Error::InvalidVarInt),
    {
        let mut scratch: Vec<u8> = vec![0u8; SCRATCH_LEN];
        let ghost zeros = scratch@;
        proof {
            self.lemma_encode_spec(SCRATCH_LEN);
            lemma_varint_bytes(self.channel_id as u64);
            if self.stream_id <= VARINT_MAX {
                lemma_varint_bytes(self.stream_id);
            }
            if self.encodable() {
                self.lemma_wire_len();
            }
        }
        let written = self.encode(scratch.as_mut_slice())?;
        scratch.truncate(written);
        proof {
            assert(scratch@ =~= self.wire_bytes());
        }
        Ok(scratch)
    }

    /// The first byte gives back the flags and the type it was made from.
    pub proof fn lemma_first_byte(self)
        ensures
            FrameFlags::from_byte(self.first_byte()) == self.flags,
            FrameType::from_tag(self.first_byte() & 0x1F) == self.frame_type,
    {
        let bits = self.flags.bits_spec();
        let tag = self.frame_type.tag_spec();
        let byte = self.first_byte();
        assert(0x00u8 & 0x3F == 0 && 0x40u8 & 0x3F == 0 && 0x80u8 & 0x3F == 0 && 0xC0u8 & 0x3F
            == 0) by (bit_vector);
        assert(0x00u8 & 0x80 == 0 && 0x40u8 & 0x80 == 0 && 0x80u8 & 0x80 != 0 && 0xC0u8 & 0x80
            != 0) by (bit_vector);
        assert(0x00u8 & 0x40 == 0 && 0x40u8 & 0x40 != 0 && 0x80u8 & 0x40 == 0 && 0xC0u8 & 0x40
            != 0) by (bit_vector);
        assert(0x00u8 & 0x1F == 0x00 && 0x01u8 & 0x1F == 0x01 && 0x02u8 & 0x1F == 0x02 && 0xFFu8
            & 0x1F == 0x1F) by (bit_vector);
        assert(byte & 0x80 == bits & 0x80 && byte & 0x40 == bits & 0x40 && byte & 0x1F == tag
            & 0x1F) by (bit_vector)
            requires
                byte == bits | (tag & 0x1F),
                bits & 0x3F == 0,
        ;
    }

    /// The wire form of an encodable header is the first byte and three
    /// varints of minimal width: between 4 and 25 bytes.
    pub proof fn lemma_wire_len(self)
        requires
            self.encodable(),
        ensures
            self.wire_bytes().len() == 1 + minimal_width(self.channel_id as u64) + minimal_width(
                self.stream_id,
            ) + minimal_width(self.length),
            4 <= self.wire_bytes().len() <= 25,
            self.wire_bytes()[0] == self.first_byte(),
    {
        lemma_varint_bytes(self.channel_id as u64);
        lemma_varint_bytes(self.stream_id);
        lemma_varint_bytes(self.length);
    }

    /// Encoding succeeds exactly when the header is encodable and the
    /// buffer holds its wire form; it then writes the wire form and returns
    /// its length.
    pub proof fn lemma_encode_spec(self, available: usize)
        ensures
            self.encode_spec(available).0 is Ok <==> self.encodable() && self.wire_bytes().len()
                <= available,
            self.encode_spec(available).0 matches Ok(n) ==> n == self.wire_bytes().len()
                && self.encode_spec(available).1 == self.wire_bytes(),
            self.encode_spec(available).1.len() <= available,
    {
        lemma_varint_bytes(self.channel_id as u64);
        if self.stream_id <= VARINT_MAX {
            lemma_varint_bytes(self.stream_id);
        }
        if self.length <= VARINT_MAX {
            lemma_varint_bytes(self.length);
        }
    }

    /// Decoding the wire form of a header gives the header back and consumes
    /// exactly the wire form, whatever follows it.
    pub proof fn lemma_round_trip(self, following: Seq<u8>)
        requires
            self.encodable(),
        ensures
            Self::decode_spec(self.wire_bytes() + following) == Ok::<(FrameHeader, usize), Error>(
                (self, self.wire_bytes().len() as usize),
            ),
    {
        let first = seq![self.first_byte()];
        let channel = varint_bytes(self.channel_id as u64);
        let stream = varint_bytes(self.stream_id);
        let length = varint_bytes(self.length);
        let all = self.wire_bytes() + following;
        let wc = minimal_width(self.channel_id as u64);
        let ws = minimal_width(self.stream_id);
        self.lemma_first_byte();
        self.lemma_wire_len();
        lemma_varint_bytes(self.channel_id as u64);
        lemma_varint_bytes(self.stream_id);
        lemma_varint_bytes(self.length);
        lemma_varint_round_trip(self.channel_id as u64, stream + length + following);
        lemma_varint_round_trip(self.stream_id, length + following);
        lemma_varint_round_trip(self.length, following);
        assert(all[0] == self.first_byte());
        assert(all.skip(1) =~= channel + (stream + length + following));
        assert(all.skip(1 + wc) =~= stream + (length + following));
        assert(all.skip(1 + wc + ws) =~= length + following);
    }

    /// Decoding what `encode` has written gives the header back, and consumes
    /// as many bytes as `encode` returned, whatever lies behind them in the
    /// buffer.
    pub proof fn lemma_encode_decode(self, available: usize, following: Seq<u8>)
        requires
            self.encode_spec(available).0 is Ok,
        ensures
            Self::decode_spec(self.encode_spec(available).1 + following) == Ok::<
                (FrameHeader, usize),
                Error,
            >((self, self.encode_spec(available).0->Ok_0)),
    {
        self.lemma_encode_spec(available);
        self.lemma_round_trip(following);
    }

    /// Decoding looks at no byte behind the header: the first `k` bytes of
    /// `buf` decode as `buf` does if they hold the whole header, and fail if
    /// they do not.
    pub proof fn lemma_decode_prefix(buf: Seq<u8>, k: int)
        requires
            0 <= k <= buf.len(),
        ensures
            match Self::decode_spec(buf) {
                Ok((h, n)) => if k >= n {
                    Self::decode_spec(buf.take(k)) == Ok::<(FrameHeader, usize), Error>((h, n))
                } else {
                    Self::decode_spec(buf.take(k)) is Err
                },
                Err(_) => Self::decode_spec(buf.take(k)) is Err,
            },
    {
        if k > 0 {
            let front = buf.take(k);
            assert(front[0] == buf[0]);
            assert(front.skip(1) =~= buf.skip(1).take(k - 1));
            lemma_decode_varint_prefix(buf.skip(1), k - 1);
            lemma_decode_varint_bounds(buf.skip(1));
            if let Ok((_, wc)) = decode_varint_spec(buf.skip(1)) {
                if k - 1 >= wc {
                    assert(front.skip(1 + wc) =~= buf.skip(1 + wc).take(k - 1 - wc));
                    lemma_decode_varint_prefix(buf.skip(1 + wc), k - 1 - wc);
                    lemma_decode_varint_bounds(buf.skip(1 + wc));
                    if let Ok((_, ws)) = decode_varint_spec(buf.skip(1 + wc)) {
                        if k - 1 - wc >= ws {
                            assert(front.skip(1 + wc + ws) =~= buf.skip(1 + wc + ws).take(
                                k - 1 - wc - ws,
                            ));
                            lemma_decode_varint_prefix(buf.skip(1 + wc + ws), k - 1 - wc - ws);
                            lemma_decode_varint_bounds(buf.skip(1 + wc + ws));
                        }
                    }
                }
            }
        }
    }

    /// Decodes a header from the front of `buf`.
    ///
    /// Returns the header and the number of bytes it took. The only failure
    /// is `IncompleteInput`, when `buf` ends before the header does; it holds
    /// the width of the field that was cut short and the bytes that were left
    /// for it. No byte behind the header is looked at, and a type number that
    /// is not assigned decodes as `Unknown`.
    pub fn decode(buf: &[u8]) -> (r: Result<(FrameHeader, usize), Error>)
        ensures
            r == Self::decode_spec(buf@),
            r matches Ok((_, consumed)) ==> 4 <= consumed <= 25 && consumed <= buf@.len(),
            r matches Err(e) ==> e is IncompleteInput,
    {
        let total = buf.len();
        if total == 0 {
            return Err(Error::IncompleteInput { needed_min: 1, available: 0 });
        }
        let first_byte: u8 = buf[0];
        let mut flags = FrameFlags::empty();
        if first_byte & 0b1000_0000 != 0 {
            flags.insert(FrameFlags::control());
        }
        if first_byte & 0b0100_0000 != 0 {
            flags.insert(FrameFlags::priority());
        }
        let frame_type = FrameType::from(first_byte & 0x1F);

        let mut offset: usize = 1;

        let (channel_id_raw, len_c) = decode_varint(&buf[offset..total])?;
        offset += len_c;
        let channel_id = (channel_id_raw % 0x1_0000_0000) as u32;

        let (stream_id, len_s) = decode_varint(&buf[offset..total])?;
        offset += len_s;

        let (length, len_l) = decode_varint(&buf[offset..total])?;
        offset += len_l;

        Ok((FrameHeader { flags, frame_type, channel_id, stream_id, length }, offset))
    }
}

} // verus!
