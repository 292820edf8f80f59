//! Packet framing: `$`, the payload, `#`, and the payload's checksum as two
//! hexadecimal digits.

use crate::hex::{hex_pair, push_hex_byte, spec_encode_hex, spec_hex_digit, spec_hex_pair, spec_hex_value};
use vstd::prelude::*;

verus! {

/// The byte that opens a packet, `$`.
pub const PACKET_START: u8 = 0x24;

/// The byte that closes a packet's payload, `#`.
pub const PACKET_END: u8 = 0x23;

/// The out-of-band interrupt byte.
pub const INTERRUPT: u8 = 0x03;

/// Acknowledges a packet whose checksum matched, `+`.
pub const ACK: u8 = 0x2b;

/// Asks for a packet to be sent again, `-`.
pub const NAK: u8 = 0x2d;

/// What can be wrong with received data.
#[derive(Clone, Copy, Debug, PartialEq, Eq, Structural)]
pub enum ProtocolError {
    /// The transmitted checksum differs from the one computed over the payload.
    /// The sender is expected to transmit again.
    ChecksumMismatch,
    /// The packet is longer than the negotiated maximum. Fatal.
    Oversized,
    /// The data does not have the shape of a packet or of a known command. Fatal.
    Malformed,
}

impl ProtocolError {
    /// Whether the session ends on this error.
    pub open spec fn spec_is_fatal(self) -> bool {
        self != ProtocolError::ChecksumMismatch
    }

    /// Whether the session ends on this error.
    pub fn is_fatal(&self) -> (fatal: bool)
        ensures
            fatal == self.spec_is_fatal(),
    {
        match self {
            ProtocolError::ChecksumMismatch => false,
            _ => true,
        }
    }
}

/// The sum of all bytes of `payload`.
pub open spec fn spec_byte_sum(payload: Seq<u8>) -> nat
    decreases payload.len(),
{
    if payload.len() == 0 {
        0
    } else {
        spec_byte_sum(payload.drop_last()) + payload.last() as nat
    }
}

/// The checksum of a payload: the sum of its bytes modulo 256.
pub open spec fn spec_checksum(payload: Seq<u8>) -> u8 {
    (spec_byte_sum(payload) % 256) as u8
}

/// A payload that framing carries unchanged: it holds neither the closing
/// byte nor the interrupt byte.
pub open spec fn spec_valid_payload(payload: Seq<u8>) -> bool {
    forall|i: int|
        0 <= i < payload.len() ==> #[trigger] payload[i] != PACKET_END && payload[i] != INTERRUPT
}

/// The frame that carries `payload`.
pub open spec fn spec_encode_packet(payload: Seq<u8>) -> Seq<u8> {
    seq![PACKET_START] + payload + seq![PACKET_END] + spec_encode_hex(seq![spec_checksum(payload)])
}

/// The two bytes `hi`, `lo` are hexadecimal digits that spell the checksum of `body`.
pub open spec fn spec_checksum_matches(body: Seq<u8>, hi: u8, lo: u8) -> bool {
    spec_hex_pair(hi, lo) == Some(spec_checksum(body))
}

/// The part of a frame between its opening byte and its closing byte.
pub open spec fn spec_frame_body(frame: Seq<u8>) -> Seq<u8> {
    frame.subrange(1, frame.len() - 3)
}

/// `frame` is an opening byte, a valid payload, a closing byte and two more bytes.
pub open spec fn spec_well_framed(frame: Seq<u8>) -> bool {
    &&& frame.len() >= 4
    &&& frame[0] == PACKET_START
    &&& frame[frame.len() - 3] == PACKET_END
    &&& spec_valid_payload(spec_frame_body(frame))
}

/// The payload of a complete frame, or why the frame is not accepted.
pub open spec fn spec_decode_packet(frame: Seq<u8>) -> Result<Seq<u8>, ProtocolError> {
    if !spec_well_framed(frame) {
        Err(ProtocolError::Malformed)
    } else if spec_checksum_matches(
        spec_frame_body(frame),
        frame[frame.len() - 2],
        frame[frame.len() - 1],
    ) {
        Ok(spec_frame_body(frame))
    } else {
        Err(ProtocolError::ChecksumMismatch)
    }
}

/// Computes the checksum of `payload`.
pub fn checksum(payload: &[u8]) -> (sum: u8)
    ensures
        sum == spec_checksum(payload@),
{
    let mut sum: u8 = 0;
    let mut i: usize = 0;
    assert(payload@.subrange(0, 0) =~= Seq::<u8>::empty());
    while i < payload.len()
        invariant
            i <= payload.len(),
            sum == spec_checksum(payload@.subrange(0, i as int)),
        decreases payload.len() - i,
    {
        proof {
            let before = payload@.subrange(0, i as int);
            let after = payload@.subrange(0, i as int + 1);
            assert(after.drop_last() =~= before);
            assert(after.last() == payload@[i as int]);
        }
        sum = ((sum as u16 + payload[i] as u16) % 256) as u8;
        i = i + 1;
    }
    assert(payload@.subrange(0, i as int) =~= payload@);
    sum
}

/// Judges a received body against the two bytes that followed it.
pub fn verify_checksum(body: &[u8], hi: u8, lo: u8) -> (matches: bool)
    ensures
        matches == spec_checksum_matches(body@, hi, lo),
{
    match hex_pair(hi, lo) {
        None => false,
        Some(sum) => sum == checksum(body),
    }
}

/// Frames `payload` for transmission.
pub fn encode_packet(payload: &[u8]) -> (frame: Vec<u8>)
    ensures
        frame@ == spec_encode_packet(payload@),
{
    let mut frame: Vec<u8> = Vec::new();
    frame.push(PACKET_START);
    frame.extend_from_slice(payload);
    frame.push(PACKET_END);
    push_hex_byte(&mut frame, checksum(payload));
    assert(frame@ =~= spec_encode_packet(payload@));
    frame
}

/// Whether `payload` holds neither the closing byte nor the interrupt byte.
pub fn is_valid_payload(payload: &[u8]) -> (valid: bool)
    ensures
        valid == spec_valid_payload(payload@),
{
    let mut i: usize = 0;
    while i < payload.len()
        invariant
            i <= payload.len(),
            spec_valid_payload(payload@.subrange(0, i as int)),
        decreases payload.len() - i,
    {
        if payload[i] == PACKET_END || payload[i] == INTERRUPT {
            assert(payload@[i as int] == PACKET_END || payload@[i as int] == INTERRUPT);
            return false;
        }
        proof {
            let before = payload@.subrange(0, i as int);
            let after = payload@.subrange(0, i as int + 1);
            assert forall|j: int| 0 <= j < after.len() implies #[trigger] after[j] != PACKET_END
                && after[j] != INTERRUPT by {
                if j < i {
                    assert(after[j] == before[j]);
                }
            }
        }
        i = i + 1;
    }
    assert(payload@.subrange(0, i as int) =~= payload@);
    true
}

/// Takes a complete frame apart: the payload if the frame is well formed and
/// its checksum matches, the reason otherwise.
pub fn decode_packet(frame: &[u8]) -> (payload: Result<Vec<u8>, ProtocolError>)
    ensures
        payload is Ok == spec_decode_packet(frame@) is Ok,
        payload matches Ok(p) ==> Ok::<Seq<u8>, ProtocolError>(p@) == spec_decode_packet(frame@),
        payload matches Err(e) ==> Err::<Seq<u8>, ProtocolError>(e) == spec_decode_packet(frame@),
{
    let n: usize = frame.len();
    if n < 4 || frame[0] != PACKET_START || frame[n - 3] != PACKET_END {
        return Err(ProtocolError::Malformed);
    }
    let body = vstd::slice::slice_subrange(frame, 1, n - 3);
    if !is_valid_payload(body) {
        return Err(ProtocolError::Malformed);
    }
    if verify_checksum(body, frame[n - 2], frame[n - 1]) {
        Ok(vstd::slice::slice_to_vec(body))
    } else {
        Err(ProtocolError::ChecksumMismatch)
    }
}

/// Replacing one byte changes the sum by the difference of the two bytes.
pub proof fn lemma_byte_sum_update(payload: Seq<u8>, i: int, byte: u8)
    requires
        0 <= i < payload.len(),
    ensures
        spec_byte_sum(payload.update(i, byte)) + payload[i] as nat == spec_byte_sum(payload)
            + byte as nat,
    decreases payload.len(),
{
    let changed = payload.update(i, byte);
    if i == payload.len() - 1 {
        assert(changed.drop_last() =~= payload.drop_last());
    } else {
        lemma_byte_sum_update(payload.drop_last(), i, byte);
        assert(changed.drop_last() =~= payload.drop_last().update(i, byte));
    }
}

/// A payload with one byte replaced by a different byte has a different checksum.
pub proof fn lemma_checksum_detects_change(payload: Seq<u8>, i: int, byte: u8)
    requires
        0 <= i < payload.len(),
        byte != payload[i],
    ensures
        spec_checksum(payload.update(i, byte)) != spec_checksum(payload),
{
    lemma_byte_sum_update(payload, i, byte);
}

/// A frame made by `spec_encode_packet` is well framed when its payload is valid,
/// and its parts are where decoding looks for them.
pub proof fn lemma_encoded_shape(payload: Seq<u8>)
    ensures
        ({
            let frame = spec_encode_packet(payload);
            &&& frame.len() == payload.len() + 4
            &&& frame[0] == PACKET_START
            &&& frame[frame.len() - 3] == PACKET_END
            &&& spec_frame_body(frame) == payload
            &&& frame[frame.len() - 2] == spec_hex_digit(spec_checksum(payload) as int / 16)
            &&& frame[frame.len() - 1] == spec_hex_digit(spec_checksum(payload) as int % 16)
            &&& spec_hex_pair(frame[frame.len() - 2], frame[frame.len() - 1]) == Some(
                spec_checksum(payload),
            )
        }),
{
    let frame = spec_encode_packet(payload);
    let sum = spec_checksum(payload);
    let digits = spec_encode_hex(seq![sum]);
    assert(digits.len() == 2);
    assert(digits[0] == spec_hex_digit(sum as int / 16));
    assert(digits[1] == spec_hex_digit(sum as int % 16));
    assert(spec_frame_body(frame) =~= payload);
    assert(0 <= sum as int / 16 < 16 && 0 <= sum as int % 16 < 16);
    assert((sum as int / 16) * 16 + sum as int % 16 == sum as int);
}

/// Round trip: decoding the frame of a valid payload gives the payload back.
pub proof fn lemma_decode_encode_packet(payload: Seq<u8>)
    requires
        spec_valid_payload(payload),
    ensures
        spec_decode_packet(spec_encode_packet(payload)) == Ok::<Seq<u8>, ProtocolError>(payload),
{
    lemma_encoded_shape(payload);
}

/// Corruption is detected: a frame in which one byte was replaced by another
/// is never accepted, unless the replacement is the same checksum digit in
/// the other case. The verdict is a checksum mismatch wherever the damage
/// leaves the frame's shape intact: in a checksum digit, or in the payload
/// when the new byte is neither the closing byte nor the interrupt byte.
pub proof fn lemma_mutation_detected(payload: Seq<u8>, i: int, byte: u8)
    requires
        spec_valid_payload(payload),
        0 <= i < payload.len() + 4,
        byte != spec_encode_packet(payload)[i],
        i >= payload.len() + 2 ==> spec_hex_value(byte) != spec_hex_value(
            spec_encode_packet(payload)[i],
        ),
    ensures
        spec_decode_packet(spec_encode_packet(payload).update(i, byte)) is Err,
        1 <= i <= payload.len() && byte != PACKET_END && byte != INTERRUPT ==> spec_decode_packet(
            spec_encode_packet(payload).update(i, byte),
        ) == Err::<Seq<u8>, ProtocolError>(ProtocolError::ChecksumMismatch),
        i >= payload.len() + 2 ==> spec_decode_packet(
            spec_encode_packet(payload).update(i, byte),
        ) == Err::<Seq<u8>, ProtocolError>(ProtocolError::ChecksumMismatch),
{
    lemma_encoded_shape(payload);
    let frame = spec_encode_packet(payload);
    let damaged = frame.update(i, byte);
    let n = frame.len() as int;
    if i == 0 || i == n - 3 {
        assert(!spec_well_framed(damaged));
    } else if i <= payload.len() {
        assert(spec_frame_body(damaged) =~= payload.update(i - 1, byte));
        if byte == PACKET_END || byte == INTERRUPT {
            assert(spec_frame_body(damaged)[i - 1] == byte);
            assert(!spec_valid_payload(spec_frame_body(damaged)));
        } else {
            lemma_checksum_detects_change(payload, i - 1, byte);
            assert(spec_valid_payload(spec_frame_body(damaged))) by {
                assert forall|j: int| 0 <= j < payload.len() implies #[trigger] payload.update(
                    i - 1,
                    byte,
                )[j] != PACKET_END && payload.update(i - 1, byte)[j] != INTERRUPT by {
                    if j != i - 1 {
                        assert(payload[j] != PACKET_END);
                    }
                }
            }
        }
    } else {
        assert(spec_frame_body(damaged) =~= payload);
        let sum = spec_checksum(payload);
        assert(0 <= sum as int / 16 < 16 && 0 <= sum as int % 16 < 16);
    }
}

} // verus!
