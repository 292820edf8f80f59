//! The payloads of the packets that the stub sends.

use crate::hex::{encode_hex, push_hex_byte, push_hex_number, spec_encode_hex, spec_hex_of};
use crate::target::{StopReason, SIGNAL_TRAP};
use vstd::prelude::*;

verus! {

/// `OK`
pub open spec fn spec_ok_reply() -> Seq<u8> {
    seq![0x4fu8, 0x4b]
}

/// `E01`: the command could not be carried out.
pub open spec fn spec_error_reply() -> Seq<u8> {
    seq![0x45u8, 0x30, 0x31]
}

/// The empty payload: the command is not supported.
pub open spec fn spec_unsupported_reply() -> Seq<u8> {
    Seq::empty()
}

/// `swbreak:;`
pub open spec fn spec_swbreak() -> Seq<u8> {
    seq![0x73u8, 0x77, 0x62, 0x72, 0x65, 0x61, 0x6b, 0x3a, 0x3b]
}

/// The stop reply for `reason`: `S` and the signal number for a step (the
/// trap signal) or a signal; `T`, the trap signal and `swbreak:;` for a
/// breakpoint; `W00` for a target that is gone.
pub open spec fn spec_stop_reply(reason: StopReason) -> Seq<u8> {
    match reason {
        StopReason::Step => seq![0x53u8] + spec_encode_hex(seq![SIGNAL_TRAP]),
        StopReason::Breakpoint(_) => seq![0x54u8] + spec_encode_hex(seq![SIGNAL_TRAP])
            + spec_swbreak(),
        StopReason::Signal(code) => seq![0x53u8] + spec_encode_hex(seq![code]),
        StopReason::Exited => seq![0x57u8, 0x30, 0x30],
    }
}

/// `PacketSize=`
pub open spec fn spec_packet_size_key() -> Seq<u8> {
    seq![0x50u8, 0x61, 0x63, 0x6b, 0x65, 0x74, 0x53, 0x69, 0x7a, 0x65, 0x3d]
}

/// `;swbreak+`
pub open spec fn spec_swbreak_feature() -> Seq<u8> {
    seq![0x3bu8, 0x73, 0x77, 0x62, 0x72, 0x65, 0x61, 0x6b, 0x2b]
}

/// The answer to the capability query: the largest packet accepted, in
/// hexadecimal, and that breakpoint stops are reported as such.
pub open spec fn spec_supported_reply(max_packet_size: nat) -> Seq<u8> {
    spec_packet_size_key() + spec_hex_of(max_packet_size) + spec_swbreak_feature()
}

/// Appends the bytes of `text` to `out`.
fn push_all(out: &mut Vec<u8>, text: &[u8])
    ensures
        final(out)@ == old(out)@ + text@,
{
    let mut i: usize = 0;
    while i < text.len()
        invariant
            i <= text.len(),
            out@ == old(out)@ + text@.subrange(0, i as int),
        decreases text.len() - i,
    {
        out.push(text[i]);
        assert(out@ =~= old(out)@ + text@.subrange(0, i as int + 1));
        i = i + 1;
    }
    assert(text@.subrange(0, i as int) =~= text@);
}

/// The payload `OK`.
pub fn ok_reply() -> (payload: Vec<u8>)
    ensures
        payload@ == spec_ok_reply(),
{
    let mut payload: Vec<u8> = Vec::new();
    payload.push(0x4f);
    payload.push(0x4b);
    assert(payload@ =~= spec_ok_reply());
    payload
}

/// The payload `E01`.
pub fn error_reply() -> (payload: Vec<u8>)
    ensures
        payload@ == spec_error_reply(),
{
    let mut payload: Vec<u8> = Vec::new();
    payload.push(0x45);
    payload.push(0x30);
    payload.push(0x31);
    assert(payload@ =~= spec_error_reply());
    payload
}

/// The empty payload.
pub fn unsupported_reply() -> (payload: Vec<u8>)
    ensures
        payload@ == spec_unsupported_reply(),
{
    Vec::new()
}

/// The payload that carries `data` in hexadecimal.
pub fn data_reply(data: &[u8]) -> (payload: Vec<u8>)
    ensures
        payload@ == spec_encode_hex(data@),
{
    encode_hex(data)
}

/// The stop reply payload for `reason`.
pub fn stop_reply(reason: StopReason) -> (payload: Vec<u8>)
    ensures
        payload@ == spec_stop_reply(reason),
{
    let mut payload: Vec<u8> = Vec::new();
    match reason {
        StopReason::Step => {
            payload.push(0x53);
            push_hex_byte(&mut payload, SIGNAL_TRAP);
        },
        StopReason::Breakpoint(_) => {
            payload.push(0x54);
            push_hex_byte(&mut payload, SIGNAL_TRAP);
            let tail: [u8; 9] = [0x73, 0x77, 0x62, 0x72, 0x65, 0x61, 0x6b, 0x3a, 0x3b];
            assert(tail@ =~= spec_swbreak());
            push_all(&mut payload, tail.as_slice());
        },
        StopReason::Signal(code) => {
            payload.push(0x53);
            push_hex_byte(&mut payload, code);
        },
        StopReason::Exited => {
            payload.push(0x57);
            payload.push(0x30);
            payload.push(0x30);
        },
    }
    assert(payload@ =~= spec_stop_reply(reason));
    payload
}

/// The capability reply payload for a receiver that accepts packets of up
/// to `max_packet_size` bytes.
pub fn supported_reply(max_packet_size: usize) -> (payload: Vec<u8>)
    ensures
        payload@ == spec_supported_reply(max_packet_size as nat),
{
    let mut payload: Vec<u8> = Vec::new();
    let key: [u8; 11] = [0x50, 0x61, 0x63, 0x6b, 0x65, 0x74, 0x53, 0x69, 0x7a, 0x65, 0x3d];
    assert(key@ =~= spec_packet_size_key());
    push_all(&mut payload, key.as_slice());
    push_hex_number(&mut payload, max_packet_size as u64);
    let feature: [u8; 9] = [0x3b, 0x73, 0x77, 0x62, 0x72, 0x65, 0x61, 0x6b, 0x2b];
    assert(feature@ =~= spec_swbreak_feature());
    push_all(&mut payload, feature.as_slice());
    assert(payload@ =~= spec_supported_reply(max_packet_size as nat));
    payload
}

} // verus!
