//! Incremental packet reception: one byte at a time, with the interrupt byte
//! recognised wherever it arrives.

use crate::packet::{
    lemma_encoded_shape, spec_checksum_matches, spec_decode_packet, spec_encode_packet,
    spec_frame_body, spec_valid_payload, spec_well_framed, verify_checksum, ProtocolError,
    INTERRUPT, PACKET_END, PACKET_START,
};
use vstd::prelude::*;

verus! {

/// Where in a packet the receiver is.
#[derive(Clone, Copy, Debug, PartialEq, Eq, Structural)]
pub enum FramePhase {
    /// Between packets: waiting for the opening byte.
    Ready,
    /// Collecting the payload.
    Body,
    /// The payload is closed; the first checksum digit comes next.
    ChecksumHigh,
    /// The first checksum digit is held; the second comes next.
    ChecksumLow(u8),
}

/// What one received byte amounted to.
#[derive(Debug, PartialEq, Eq)]
pub enum CodecEvent {
    /// Nothing to act on yet.
    Pending,
    /// A packet arrived whole and its checksum matched: this is its payload.
    Packet(Vec<u8>),
    /// A packet arrived and its checksum did not match; it was discarded.
    Rejected,
    /// The interrupt byte arrived.
    Interrupt,
    /// The stream cannot be followed any further.
    Fatal(ProtocolError),
}

/// A [`CodecEvent`] with its payload as a sequence.
pub ghost enum EventModel {
    Pending,
    Packet(Seq<u8>),
    Rejected,
    Interrupt,
    Fatal(ProtocolError),
}

impl View for CodecEvent {
    type V = EventModel;

    open spec fn view(&self) -> EventModel {
        match self {
            CodecEvent::Pending => EventModel::Pending,
            CodecEvent::Packet(payload) => EventModel::Packet(payload@),
            CodecEvent::Rejected => EventModel::Rejected,
            CodecEvent::Interrupt => EventModel::Interrupt,
            CodecEvent::Fatal(e) => EventModel::Fatal(*e),
        }
    }
}

/// The receiver's state as plain mathematics.
pub ghost struct CodecModel {
    pub phase: FramePhase,
    /// The payload bytes collected so far.
    pub body: Seq<u8>,
    /// The largest frame, framing bytes included, that is accepted.
    pub limit: nat,
}

impl CodecModel {
    /// The state between packets.
    pub open spec fn idle(limit: nat) -> CodecModel {
        CodecModel { phase: FramePhase::Ready, body: Seq::empty(), limit }
    }

    /// Nothing is held between packets, and what is held fits the limit
    /// together with the four framing bytes.
    pub open spec fn wf(self) -> bool {
        if self.phase is Ready {
            self.body.len() == 0
        } else {
            self.body.len() + 4 <= self.limit
        }
    }
}

/// The receiver's step: the state after `byte`, and what the byte amounted to.
pub open spec fn spec_feed(m: CodecModel, byte: u8) -> (CodecModel, EventModel) {
    if byte == INTERRUPT {
        (m, EventModel::Interrupt)
    } else {
        match m.phase {
            FramePhase::Ready => if byte != PACKET_START {
                (m, EventModel::Pending)
            } else if m.limit < 4 {
                (m, EventModel::Fatal(ProtocolError::Oversized))
            } else {
                (CodecModel { phase: FramePhase::Body, ..m }, EventModel::Pending)
            },
            FramePhase::Body => if byte == PACKET_END {
                (CodecModel { phase: FramePhase::ChecksumHigh, ..m }, EventModel::Pending)
            } else if m.body.len() + 4 >= m.limit {
                (CodecModel::idle(m.limit), EventModel::Fatal(ProtocolError::Oversized))
            } else {
                (CodecModel { body: m.body.push(byte), ..m }, EventModel::Pending)
            },
            FramePhase::ChecksumHigh => (
                CodecModel { phase: FramePhase::ChecksumLow(byte), ..m },
                EventModel::Pending,
            ),
            FramePhase::ChecksumLow(hi) => if spec_checksum_matches(m.body, hi, byte) {
                (CodecModel::idle(m.limit), EventModel::Packet(m.body))
            } else {
                (CodecModel::idle(m.limit), EventModel::Rejected)
            },
        }
    }
}

/// The receiver's state after all of `bytes`, and the event of each byte in order.
pub open spec fn spec_feed_all(m: CodecModel, bytes: Seq<u8>) -> (CodecModel, Seq<EventModel>)
    decreases bytes.len(),
{
    if bytes.len() == 0 {
        (m, Seq::empty())
    } else {
        let (before, events) = spec_feed_all(m, bytes.drop_last());
        let (after, event) = spec_feed(before, bytes.last());
        (after, events.push(event))
    }
}

/// The packet receiver.
#[derive(Debug)]
pub struct PacketCodec {
    phase: FramePhase,
    body: Vec<u8>,
    max_packet_size: usize,
}

impl View for PacketCodec {
    type V = CodecModel;

    closed spec fn view(&self) -> CodecModel {
        CodecModel { phase: self.phase, body: self.body@, limit: self.max_packet_size as nat }
    }
}

impl PacketCodec {
    /// A receiver between packets that accepts frames of up to
    /// `max_packet_size` bytes, framing included.
    pub fn new(max_packet_size: usize) -> (codec: PacketCodec)
        ensures
            codec@ == CodecModel::idle(max_packet_size as nat),
            codec@.wf(),
    {
        PacketCodec { phase: FramePhase::Ready, body: Vec::new(), max_packet_size }
    }

    /// The largest frame that is accepted.
    pub fn max_packet_size(&self) -> (limit: usize)
        ensures
            limit == self@.limit,
    {
        self.max_packet_size
    }

    /// Where in a packet the receiver is.
    pub fn phase(&self) -> (phase: FramePhase)
        ensures
            phase == self@.phase,
    {
        self.phase
    }

    /// Takes one received byte.
    ///
    /// Between packets every byte but the opening byte is skipped, the
    /// host's own `+` and `-` among them. From the opening byte on, bytes
    /// are collected up to the closing byte, and the two bytes after that
    /// are held against the checksum of what was collected. The interrupt
    /// byte is reported wherever it arrives and is no part of a packet. A
    /// payload that outgrows the limit ends the reception for good.
    pub fn feed(&mut self, byte: u8) -> (event: CodecEvent)
        requires
            old(self)@.wf(),
        ensures
            (final(self)@, event@) == spec_feed(old(self)@, byte),
            final(self)@.wf(),
    {
        if byte == INTERRUPT {
            return CodecEvent::Interrupt;
        }
        match self.phase {
            FramePhase::Ready => {
                if byte != PACKET_START {
                    CodecEvent::Pending
                } else if self.max_packet_size < 4 {
                    CodecEvent::Fatal(ProtocolError::Oversized)
                } else {
                    self.phase = FramePhase::Body;
                    CodecEvent::Pending
                }
            },
            FramePhase::Body => {
                if byte == PACKET_END {
                    self.phase = FramePhase::ChecksumHigh;
                    CodecEvent::Pending
                } else if self.body.len() >= self.max_packet_size - 4 {
                    self.phase = FramePhase::Ready;
                    self.body = Vec::new();
                    CodecEvent::Fatal(ProtocolError::Oversized)
                } else {
                    self.body.push(byte);
                    CodecEvent::Pending
                }
            },
            FramePhase::ChecksumHigh => {
                self.phase = FramePhase::ChecksumLow(byte);
                CodecEvent::Pending
            },
            FramePhase::ChecksumLow(hi) => {
                let matches = verify_checksum(self.body.as_slice(), hi, byte);
                let mut payload: Vec<u8> = Vec::new();
                core::mem::swap(&mut payload, &mut self.body);
                self.phase = FramePhase::Ready;
                if matches {
                    CodecEvent::Packet(payload)
                } else {
                    CodecEvent::Rejected
                }
            },
        }
    }
}

/// Every event of `events` is [`EventModel::Pending`].
pub open spec fn spec_all_pending(events: Seq<EventModel>) -> bool {
    forall|i: int| 0 <= i < events.len() ==> #[trigger] events[i] == EventModel::Pending
}

/// While a payload is being collected, valid payload bytes that fit are
/// appended one by one and nothing is reported.
pub proof fn lemma_feed_payload(m: CodecModel, payload: Seq<u8>)
    requires
        m.phase is Body,
        spec_valid_payload(payload),
        m.body.len() + payload.len() + 4 <= m.limit,
    ensures
        spec_feed_all(m, payload).0 == (CodecModel { body: m.body + payload, ..m }),
        spec_feed_all(m, payload).1.len() == payload.len(),
        spec_all_pending(spec_feed_all(m, payload).1),
    decreases payload.len(),
{
    if payload.len() == 0 {
        assert(m.body + payload =~= m.body);
    } else {
        let front = payload.drop_last();
        assert(spec_valid_payload(front)) by {
            assert forall|i: int| 0 <= i < front.len() implies #[trigger] front[i] != PACKET_END
                && front[i] != INTERRUPT by {
                assert(front[i] == payload[i]);
            }
        }
        lemma_feed_payload(m, front);
        assert(payload[payload.len() - 1] != PACKET_END);
        assert((m.body + front).push(payload.last()) =~= m.body + payload);
    }
}

/// Feeding two runs of bytes one after the other is feeding their concatenation.
pub proof fn lemma_feed_all_concat(m: CodecModel, first: Seq<u8>, second: Seq<u8>)
    ensures
        spec_feed_all(m, first + second).0 == spec_feed_all(
            spec_feed_all(m, first).0,
            second,
        ).0,
        spec_feed_all(m, first + second).1 == spec_feed_all(m, first).1 + spec_feed_all(
            spec_feed_all(m, first).0,
            second,
        ).1,
    decreases second.len(),
{
    if second.len() == 0 {
        assert(first + second =~= first);
        assert(spec_feed_all(m, first).1 + Seq::<EventModel>::empty() =~= spec_feed_all(
            m,
            first,
        ).1);
    } else {
        lemma_feed_all_concat(m, first, second.drop_last());
        assert((first + second).drop_last() =~= first + second.drop_last());
        let mid = spec_feed_all(m, first).0;
        let (before, events) = spec_feed_all(mid, second.drop_last());
        let (after, event) = spec_feed(before, second.last());
        assert(spec_feed_all(m, first).1 + events.push(event) =~= (spec_feed_all(m, first).1
            + events).push(event));
    }
}

/// A frame with the checksum digits `hi` and `lo`, whatever they are.
pub open spec fn spec_frame(payload: Seq<u8>, hi: u8, lo: u8) -> Seq<u8> {
    seq![PACKET_START] + payload + seq![PACKET_END, hi, lo]
}

/// A frame with a valid payload that fits the limit, fed byte by byte to a
/// receiver between packets, is reported at its last byte and as nothing
/// before: as its payload if the two bytes after the closing byte spell the
/// payload's checksum, as rejected if they do not. The receiver is then
/// between packets again.
pub proof fn lemma_feed_frame(limit: nat, payload: Seq<u8>, hi: u8, lo: u8)
    requires
        spec_valid_payload(payload),
        payload.len() + 4 <= limit,
        hi != INTERRUPT,
        lo != INTERRUPT,
    ensures
        ({
            let (after, events) = spec_feed_all(
                CodecModel::idle(limit),
                spec_frame(payload, hi, lo),
            );
            &&& after == CodecModel::idle(limit)
            &&& events.len() == payload.len() + 4
            &&& events.last() == if spec_checksum_matches(payload, hi, lo) {
                EventModel::Packet(payload)
            } else {
                EventModel::Rejected
            }
            &&& spec_all_pending(events.drop_last())
        }),
{
    let idle = CodecModel::idle(limit);
    let frame = spec_frame(payload, hi, lo);
    let head = seq![PACKET_START];
    let tail = seq![PACKET_END, hi, lo];
    let verdict = if spec_checksum_matches(payload, hi, lo) {
        EventModel::Packet(payload)
    } else {
        EventModel::Rejected
    };

    let opened = CodecModel { phase: FramePhase::Body, ..idle };
    assert(spec_feed_all(idle, head) == (opened, seq![EventModel::Pending])) by {
        assert(head.drop_last() =~= Seq::<u8>::empty());
        assert(spec_feed_all(idle, head.drop_last()) == (idle, Seq::<EventModel>::empty()));
        assert(Seq::<EventModel>::empty().push(EventModel::Pending) =~= seq![EventModel::Pending]);
    }
    lemma_feed_payload(opened, payload);
    let filled = CodecModel { body: payload, ..opened };
    assert(opened.body + payload =~= payload);

    let closed = CodecModel { phase: FramePhase::ChecksumHigh, ..filled };
    let half = CodecModel { phase: FramePhase::ChecksumLow(hi), ..filled };
    assert(spec_feed_all(filled, tail) == (
        idle,
        seq![EventModel::Pending, EventModel::Pending, verdict],
    )) by {
        let t2 = tail.drop_last();
        let t1 = t2.drop_last();
        assert(t2 =~= seq![PACKET_END, hi]);
        assert(t1 =~= seq![PACKET_END]);
        assert(t1.drop_last() =~= Seq::<u8>::empty());
        assert(spec_feed_all(filled, t1.drop_last()) == (filled, Seq::<EventModel>::empty()));
        assert(spec_feed(filled, PACKET_END) == (closed, EventModel::Pending));
        assert(spec_feed_all(filled, t1).0 == closed);
        assert(spec_feed_all(filled, t1).1 =~= seq![EventModel::Pending]);
        assert(spec_feed(closed, hi) == (half, EventModel::Pending));
        assert(spec_feed_all(filled, t2).0 == half);
        assert(spec_feed_all(filled, t2).1 =~= seq![EventModel::Pending, EventModel::Pending]);
        assert(spec_feed(half, lo) == (idle, verdict));
        assert(spec_feed_all(filled, tail).1 =~= seq![
            EventModel::Pending,
            EventModel::Pending,
            verdict,
        ]);
    }
    lemma_feed_all_concat(idle, head, payload);
    lemma_feed_all_concat(idle, head + payload, tail);
    let events = spec_feed_all(idle, frame).1;
    assert(events =~= seq![EventModel::Pending] + spec_feed_all(opened, payload).1 + seq![
        EventModel::Pending,
        EventModel::Pending,
        verdict,
    ]);
    assert(spec_all_pending(events.drop_last()));
}

/// The frame that encoding makes is the payload framed with the two digits
/// of its checksum, neither of which is the interrupt byte.
pub proof fn lemma_encoded_is_frame(payload: Seq<u8>)
    ensures
        ({
            let frame = spec_encode_packet(payload);
            let hi = frame[frame.len() - 2];
            let lo = frame[frame.len() - 1];
            &&& frame == spec_frame(payload, hi, lo)
            &&& spec_checksum_matches(payload, hi, lo)
            &&& hi != INTERRUPT
            &&& lo != INTERRUPT
        }),
{
    let frame = spec_encode_packet(payload);
    lemma_encoded_shape(payload);
    let hi = frame[frame.len() - 2];
    let lo = frame[frame.len() - 1];
    assert(frame =~= spec_frame(payload, hi, lo));
    let sum = crate::packet::spec_checksum(payload);
    assert(0 <= sum as int / 16 < 16 && 0 <= sum as int % 16 < 16);
}

/// Round trip through the receiver: the frame of a valid payload that fits
/// the limit, fed byte by byte to a receiver between packets, is reported as
/// that payload at its last byte and as nothing before; the receiver is then
/// between packets again.
pub proof fn lemma_feed_encoded_packet(limit: nat, payload: Seq<u8>)
    requires
        spec_valid_payload(payload),
        payload.len() + 4 <= limit,
    ensures
        ({
            let (after, events) = spec_feed_all(
                CodecModel::idle(limit),
                spec_encode_packet(payload),
            );
            &&& after == CodecModel::idle(limit)
            &&& events.len() == payload.len() + 4
            &&& events.last() == EventModel::Packet(payload)
            &&& spec_all_pending(events.drop_last())
        }),
{
    lemma_encoded_is_frame(payload);
    let frame = spec_encode_packet(payload);
    lemma_feed_frame(limit, payload, frame[frame.len() - 2], frame[frame.len() - 1]);
}

/// The receiver agrees with decoding: a well-framed frame that fits the
/// limit, fed byte by byte to a receiver between packets, is reported at its
/// last byte as the payload that decoding gives, or as rejected where
/// decoding finds the checksum wrong. The two bytes after the closing byte
/// must not be the interrupt byte, which the receiver takes for itself.
pub proof fn lemma_receiver_agrees_with_decode(limit: nat, frame: Seq<u8>)
    requires
        spec_well_framed(frame),
        frame.len() <= limit,
        frame[frame.len() - 2] != INTERRUPT,
        frame[frame.len() - 1] != INTERRUPT,
    ensures
        spec_feed_all(CodecModel::idle(limit), frame).0 == CodecModel::idle(limit),
        spec_feed_all(CodecModel::idle(limit), frame).1.len() == frame.len(),
        spec_feed_all(CodecModel::idle(limit), frame).1.last() == match spec_decode_packet(frame) {
            Ok(payload) => EventModel::Packet(payload),
            Err(_) => EventModel::Rejected,
        },
        spec_all_pending(spec_feed_all(CodecModel::idle(limit), frame).1.drop_last()),
{
    let body = spec_frame_body(frame);
    let hi = frame[frame.len() - 2];
    let lo = frame[frame.len() - 1];
    assert(frame =~= spec_frame(body, hi, lo));
    lemma_feed_frame(limit, body, hi, lo);
}

} // verus!
