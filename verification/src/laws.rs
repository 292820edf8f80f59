//! What holds of every session, stated over the session's model.

use crate::breakpoints::{
    lemma_patch_then_restore, spec_mapped, spec_read_memory, spec_write_memory,
};
use crate::codec::{
    lemma_encoded_is_frame, lemma_feed_frame, spec_all_pending, spec_feed, spec_feed_all,
    spec_frame, CodecModel, EventModel,
};
use crate::command::{spec_parse_command, CommandModel};
use crate::hex::{
    lemma_decode_encode_hex, lemma_hex_of_number, spec_encode_hex, spec_hex_of, spec_hex_value,
};
use crate::packet::{
    lemma_decode_encode_packet, spec_checksum_matches, spec_decode_packet, spec_encode_packet,
    spec_valid_payload, ACK, INTERRUPT, NAK, PACKET_END,
};
use crate::reply::{
    spec_error_reply, spec_ok_reply, spec_stop_reply, spec_supported_reply,
    spec_unsupported_reply,
};
use crate::session::{
    spec_dispatch, spec_halt_report, spec_nothing, spec_on_byte, spec_on_packet, spec_on_reply,
    spec_on_transport_error, spec_reply, spec_step_report, OutputModel, SessionModel,
};
use crate::target::{ReplyModel, RequestModel, StopReason, TargetModel, SIGNAL_TRAP};
use vstd::prelude::*;

verus! {

/// Anything that can happen to a session.
pub ghost enum SessionEvent {
    /// The transport received this byte.
    Byte(u8),
    /// The target answered the outstanding request.
    Reply(ReplyModel),
    /// The transport failed.
    TransportError,
    /// The driver handed a command to the session directly.
    Command(CommandModel),
}

/// The session after `event`, and what it put out.
pub open spec fn spec_step(m: SessionModel, event: SessionEvent) -> (SessionModel, OutputModel) {
    match event {
        SessionEvent::Byte(byte) => spec_on_byte(m, byte),
        SessionEvent::Reply(reply) => spec_on_reply(m, reply),
        SessionEvent::TransportError => (spec_on_transport_error(m), spec_nothing()),
        SessionEvent::Command(command) => spec_dispatch(m, command),
    }
}

/// The session after all of `events`, and what it put out at each.
pub open spec fn spec_run(m: SessionModel, events: Seq<SessionEvent>) -> (
    SessionModel,
    Seq<OutputModel>,
)
    decreases events.len(),
{
    if events.len() == 0 {
        (m, Seq::empty())
    } else {
        let (before, outputs) = spec_run(m, events.drop_last());
        let (after, output) = spec_step(before, events.last());
        (after, outputs.push(output))
    }
}

/// The invariant is kept: whatever happens to a well-formed session, it
/// is well formed afterwards.
pub proof fn lemma_step_keeps_wf(m: SessionModel, event: SessionEvent)
    requires
        m.wf(),
    ensures
        spec_step(m, event).0.wf(),
{
}

/// The target's configuration never changes, and the breakpoint table
/// changes only when the target confirms a write.
pub proof fn lemma_step_keeps_target(m: SessionModel, event: SessionEvent)
    requires
        m.wf(),
    ensures
        spec_step(m, event).0.target.register_bytes == m.target.register_bytes,
        spec_step(m, event).0.target.trap == m.target.trap,
        !(event matches SessionEvent::Reply(ReplyModel::Done)) ==> spec_step(m, event).0.target
            == m.target,
{
}

/// Disconnected is absorbing: once a session has ended, no event changes
/// it, and it puts out nothing, neither bytes for the transport nor a
/// request to the target.
pub proof fn lemma_disconnected_absorbs(m: SessionModel, event: SessionEvent)
    requires
        m.wf(),
        m.state is Disconnected,
    ensures
        spec_step(m, event) == (m, spec_nothing()),
{
}

/// Disconnected is absorbing for good: through any sequence of events a
/// session that has ended stays as it is and puts out nothing.
pub proof fn lemma_disconnected_forever(m: SessionModel, events: Seq<SessionEvent>)
    requires
        m.wf(),
        m.state is Disconnected,
    ensures
        spec_run(m, events).0 == m,
        spec_run(m, events).1.len() == events.len(),
        forall|i: int|
            0 <= i < events.len() ==> #[trigger] spec_run(m, events).1[i] == spec_nothing(),
    decreases events.len(),
{
    if events.len() > 0 {
        lemma_disconnected_forever(m, events.drop_last());
        lemma_disconnected_absorbs(m, events.last());
    }
}

/// Only an idle session with nothing outstanding acts on the host's
/// packets: in any other situation a byte other than the interrupt byte
/// changes nothing and puts out nothing.
pub proof fn lemma_busy_session_drops_bytes(m: SessionModel, byte: u8)
    requires
        m.wf(),
        !(m.state is Idle && m.pending is Nothing),
        byte != INTERRUPT,
    ensures
        spec_on_byte(m, byte) == (m, spec_nothing()),
{
}

/// A packet whose checksum does not match is answered with `-` alone:
/// nothing is asked of the target, and but for the receiver being between
/// packets again the session is as it was.
pub proof fn lemma_rejected_packet_changes_nothing(m: SessionModel, byte: u8)
    requires
        m.wf(),
        m.state is Idle,
        m.pending is Nothing,
        spec_feed(m.codec, byte).1 is Rejected,
    ensures
        spec_on_byte(m, byte).1 == (OutputModel { send: seq![NAK], request: None }),
        spec_on_byte(m, byte).0 == (SessionModel {
            codec: CodecModel::idle(m.codec.limit),
            ..m
        }),
{
}

/// A single step is reported as a step whatever breakpoint it lands on,
/// and leaves the session idle.
pub proof fn lemma_step_reports_step(m: SessionModel, landed_on: u64)
    requires
        m.wf(),
        m.pending is Step,
    ensures
        spec_on_reply(m, ReplyModel::Stopped(StopReason::Breakpoint(landed_on)))
            == spec_on_reply(m, ReplyModel::Stopped(StopReason::Step)),
        spec_on_reply(m, ReplyModel::Stopped(StopReason::Step)).0.state is Idle,
        spec_on_reply(m, ReplyModel::Stopped(StopReason::Step)).1 == spec_reply(
            spec_stop_reply(StopReason::Step),
        ),
{
}

/// A target that does with its memory what it is asked: a read of mapped
/// memory answers with the bytes that are there, a write to mapped memory
/// stores its data, and an access that touches unmapped memory fails and
/// changes nothing.
pub open spec fn spec_serve_memory(memory: Map<int, u8>, request: RequestModel) -> (
    Map<int, u8>,
    ReplyModel,
) {
    match request {
        RequestModel::ReadMemory { address, length } => if spec_mapped(
            memory,
            address as int,
            length as nat,
        ) {
            (memory, ReplyModel::Data(spec_read_memory(memory, address as int, length as nat)))
        } else {
            (memory, ReplyModel::NonFatal)
        },
        RequestModel::WriteMemory { address, data } => if spec_mapped(
            memory,
            address as int,
            data.len(),
        ) {
            (spec_write_memory(memory, address as int, data), ReplyModel::Done)
        } else {
            (memory, ReplyModel::NonFatal)
        },
        _ => (memory, ReplyModel::NonFatal),
    }
}

/// The session and the memory after `command` has run to its end against
/// a target that serves memory faithfully: the target answers what the
/// command asks, and what the answer makes the session ask next.
pub open spec fn spec_converse(m: SessionModel, memory: Map<int, u8>, command: CommandModel) -> (
    SessionModel,
    Map<int, u8>,
) {
    let (asked, first) = spec_dispatch(m, command);
    match first.request {
        None => (asked, memory),
        Some(request) => {
            let (memory, answer) = spec_serve_memory(memory, request);
            let (asked, second) = spec_on_reply(asked, answer);
            match second.request {
                None => (asked, memory),
                Some(request) => {
                    let (memory, answer) = spec_serve_memory(memory, request);
                    (spec_on_reply(asked, answer).0, memory)
                },
            }
        },
    }
}

/// Installing a breakpoint where none is installed, over mapped memory,
/// puts the trap instruction into memory and the bytes it replaced into the
/// table.
pub proof fn lemma_insert_breakpoint(m: SessionModel, memory: Map<int, u8>, address: u64)
    requires
        m.wf(),
        m.state is Idle,
        m.pending is Nothing,
        m.target.trap.len() <= usize::MAX,
        !m.target.table.contains_key(address),
        spec_mapped(memory, address as int, m.target.trap.len()),
    ensures
        spec_converse(m, memory, CommandModel::InsertBreakpoint { address }) == (
            SessionModel {
                target: TargetModel {
                    table: m.target.table.insert(
                        address,
                        spec_read_memory(memory, address as int, m.target.trap.len()),
                    ),
                    ..m.target
                },
                ..m
            },
            spec_write_memory(memory, address as int, m.target.trap),
        ),
{
}

/// Installing a breakpoint over memory that is not all mapped fails and
/// changes nothing, neither in memory nor in the session.
pub proof fn lemma_insert_breakpoint_fails(m: SessionModel, memory: Map<int, u8>, address: u64)
    requires
        m.wf(),
        m.state is Idle,
        m.pending is Nothing,
        m.target.trap.len() <= usize::MAX,
        !m.target.table.contains_key(address),
        !spec_mapped(memory, address as int, m.target.trap.len()),
    ensures
        spec_converse(m, memory, CommandModel::InsertBreakpoint { address }) == (m, memory),
{
}

/// Breakpoints are reversible: the command to install a breakpoint at
/// an address that has none, followed by the command to remove it, leaves
/// the memory as it was before, byte for byte, and the session as well.
pub proof fn lemma_insert_then_remove_restores(
    m: SessionModel,
    memory: Map<int, u8>,
    address: u64,
)
    requires
        m.wf(),
        m.target.trap.len() <= usize::MAX,
        !m.target.table.contains_key(address),
    ensures
        ({
            let (installed, patched) = spec_converse(
                m,
                memory,
                CommandModel::InsertBreakpoint { address },
            );
            spec_converse(installed, patched, CommandModel::RemoveBreakpoint { address }) == (
                m,
                memory,
            )
        }),
{
    let trap = m.target.trap;
    if !(m.state is Idle && m.pending is Nothing) {
    } else if spec_mapped(memory, address as int, trap.len()) {
        lemma_insert_breakpoint(m, memory, address);
        lemma_patch_then_restore(memory, address as int, trap);
        let saved = spec_read_memory(memory, address as int, trap.len());
        let patched = spec_write_memory(memory, address as int, trap);
        assert(m.target.table.insert(address, saved).remove(address) =~= m.target.table);
        assert(spec_mapped(patched, address as int, saved.len()));
    } else {
        lemma_insert_breakpoint_fails(m, memory, address);
    }
}

/// Installing a breakpoint twice is installing it once: the second
/// command asks nothing of the target, changes nothing, and is answered
/// with `OK`.
pub proof fn lemma_insert_is_idempotent(m: SessionModel, address: u64)
    requires
        m.wf(),
        m.state is Idle,
        m.pending is Nothing,
        m.target.table.contains_key(address),
    ensures
        spec_dispatch(m, CommandModel::InsertBreakpoint { address }) == (
            m,
            spec_reply(spec_ok_reply()),
        ),
{
}

/// The bytes of `bytes` as they arrive at a session, one event each.
pub open spec fn spec_arrivals(bytes: Seq<u8>) -> Seq<SessionEvent> {
    Seq::new(bytes.len(), |i: int| SessionEvent::Byte(bytes[i]))
}

/// While the receiver reports nothing, an idle session with nothing
/// outstanding only follows the receiver: it puts out nothing and nothing
/// else about it changes.
pub proof fn lemma_run_unreported_bytes(m: SessionModel, bytes: Seq<u8>)
    requires
        m.wf(),
        m.state is Idle,
        m.pending is Nothing,
        spec_all_pending(spec_feed_all(m.codec, bytes).1),
    ensures
        spec_run(m, spec_arrivals(bytes)).0 == (SessionModel {
            codec: spec_feed_all(m.codec, bytes).0,
            ..m
        }),
        spec_run(m, spec_arrivals(bytes)).1.len() == bytes.len(),
        forall|i: int|
            0 <= i < bytes.len() ==> #[trigger] spec_run(m, spec_arrivals(bytes)).1[i]
                == spec_nothing(),
    decreases bytes.len(),
{
    if bytes.len() > 0 {
        let front = bytes.drop_last();
        let (before, events) = spec_feed_all(m.codec, front);
        let (after, event) = spec_feed(before, bytes.last());
        assert(spec_feed_all(m.codec, bytes).1 == events.push(event));
        assert(spec_all_pending(events)) by {
            assert forall|i: int| 0 <= i < events.len() implies #[trigger] events[i]
                == EventModel::Pending by {
                assert(events.push(event)[i] == events[i]);
            }
        }
        assert(event == EventModel::Pending) by {
            assert(events.push(event)[events.len() as int] == event);
        }
        lemma_run_unreported_bytes(m, front);
        assert(spec_arrivals(bytes).drop_last() =~= spec_arrivals(front));
        assert(spec_arrivals(bytes).last() == SessionEvent::Byte(bytes.last()));
    }
}

/// What a whole frame does to an idle session between packets, when the
/// frame's payload is valid and fits: nothing is put out before the last
/// byte. If the checksum digits match, the last byte has the packet
/// acknowledged and its command carried out. If they do not, the last byte
/// is answered with `-`, nothing is asked of the target and the session is
/// as it was: a damaged packet never reaches a command.
pub proof fn lemma_session_takes_frame(m: SessionModel, payload: Seq<u8>, hi: u8, lo: u8)
    requires
        m.wf(),
        m.state is Idle,
        m.pending is Nothing,
        m.codec.phase is Ready,
        spec_valid_payload(payload),
        payload.len() + 4 <= m.codec.limit,
        hi != INTERRUPT,
        lo != INTERRUPT,
    ensures
        ({
            let (after, outputs) = spec_run(m, spec_arrivals(spec_frame(payload, hi, lo)));
            &&& outputs.len() == payload.len() + 4
            &&& forall|i: int| 0 <= i < outputs.len() - 1 ==> #[trigger] outputs[i] == spec_nothing()
            &&& (after, outputs.last()) == if spec_checksum_matches(payload, hi, lo) {
                spec_on_packet(m, payload)
            } else {
                (m, OutputModel { send: seq![NAK], request: None })
            }
        }),
{
    let frame = spec_frame(payload, hi, lo);
    let front = frame.drop_last();
    assert(m.codec == CodecModel::idle(m.codec.limit)) by {
        assert(m.codec.body =~= Seq::<u8>::empty());
    }
    lemma_feed_frame(m.codec.limit, payload, hi, lo);
    assert(frame.last() == lo);
    let (fed, events) = spec_feed_all(m.codec, front);
    let (_, event) = spec_feed(fed, lo);
    assert(spec_feed_all(m.codec, frame).1 == events.push(event));
    assert(events.push(event).drop_last() =~= events);
    lemma_run_unreported_bytes(m, front);
    assert(spec_arrivals(frame).drop_last() =~= spec_arrivals(front));
    assert(spec_arrivals(frame).last() == SessionEvent::Byte(lo));
    let (before, outputs) = spec_run(m, spec_arrivals(front));
    assert forall|i: int| 0 <= i < outputs.len() implies #[trigger] spec_run(
        m,
        spec_arrivals(frame),
    ).1[i] == spec_nothing() by {
        assert(spec_run(m, spec_arrivals(frame)).1[i] == outputs[i]);
    }
}

/// Round trip through the session: the frame that encoding makes of a
/// valid payload is acknowledged by an idle session between packets, and
/// the command that the payload spells is carried out.
pub proof fn lemma_session_takes_encoded_packet(m: SessionModel, payload: Seq<u8>)
    requires
        m.wf(),
        m.state is Idle,
        m.pending is Nothing,
        m.codec.phase is Ready,
        spec_valid_payload(payload),
        payload.len() + 4 <= m.codec.limit,
    ensures
        ({
            let (after, outputs) = spec_run(m, spec_arrivals(spec_encode_packet(payload)));
            &&& outputs.len() == payload.len() + 4
            &&& forall|i: int| 0 <= i < outputs.len() - 1 ==> #[trigger] outputs[i] == spec_nothing()
            &&& (after, outputs.last()) == spec_on_packet(m, payload)
        }),
{
    lemma_encoded_is_frame(payload);
    let frame = spec_encode_packet(payload);
    lemma_session_takes_frame(m, payload, frame[frame.len() - 2], frame[frame.len() - 1]);
}

/// What the host can make sense of: nothing, a lone acknowledgement or
/// request to send again, or a packet that decodes, with or without an
/// acknowledgement before it.
pub open spec fn spec_well_formed_send(send: Seq<u8>) -> bool {
    ||| send.len() == 0
    ||| send == seq![NAK]
    ||| send == seq![ACK]
    ||| spec_decode_packet(send) is Ok
    ||| (send.len() > 0 && send[0] == ACK && spec_decode_packet(
        send.subrange(1, send.len() as int),
    ) is Ok)
}

/// Hexadecimal text is a valid payload.
pub proof fn lemma_hex_is_valid_payload(bytes: Seq<u8>)
    ensures
        spec_valid_payload(spec_encode_hex(bytes)),
{
    lemma_decode_encode_hex(bytes);
    let text = spec_encode_hex(bytes);
    assert forall|i: int| 0 <= i < text.len() implies #[trigger] text[i] != PACKET_END && text[i]
        != INTERRUPT by {
        assert(spec_hex_value(text[i]) is Some);
    }
}

/// `OK`, `E01` and the empty payload are valid payloads.
pub proof fn lemma_fixed_replies_are_valid()
    ensures
        spec_valid_payload(spec_ok_reply()),
        spec_valid_payload(spec_error_reply()),
        spec_valid_payload(spec_unsupported_reply()),
{
}

/// Every stop reply is a valid payload.
pub proof fn lemma_stop_reply_is_valid(reason: StopReason)
    ensures
        spec_valid_payload(spec_stop_reply(reason)),
{
    let code = match reason {
        StopReason::Signal(code) => code,
        _ => SIGNAL_TRAP,
    };
    lemma_hex_is_valid_payload(seq![code]);
    let digits = spec_encode_hex(seq![code]);
    let reply = spec_stop_reply(reason);
    assert forall|i: int| 0 <= i < reply.len() implies #[trigger] reply[i] != PACKET_END
        && reply[i] != INTERRUPT by {
        if !(reason is Exited) && 1 <= i < 3 {
            assert(reply[i] == digits[i - 1]);
        }
    }
}

/// Every capability reply is a valid payload.
pub proof fn lemma_supported_reply_is_valid(limit: nat)
    ensures
        spec_valid_payload(spec_supported_reply(limit)),
{
    lemma_hex_of_number(limit);
    let digits = spec_hex_of(limit);
    let reply = spec_supported_reply(limit);
    assert forall|i: int| 0 <= i < reply.len() implies #[trigger] reply[i] != PACKET_END
        && reply[i] != INTERRUPT by {
        if 11 <= i < 11 + digits.len() {
            assert(reply[i] == digits[i - 11]);
            assert(spec_hex_value(digits[i - 11]) is Some);
        }
    }
}

/// What a command makes the session send is nothing or a packet that
/// decodes.
pub proof fn lemma_dispatch_sends_packets(m: SessionModel, command: CommandModel)
    ensures
        ({
            let send = spec_dispatch(m, command).1.send;
            send.len() == 0 || spec_decode_packet(send) is Ok
        }),
{
    lemma_fixed_replies_are_valid();
    lemma_decode_encode_packet(spec_ok_reply());
    lemma_decode_encode_packet(spec_error_reply());
    lemma_decode_encode_packet(spec_unsupported_reply());
    lemma_stop_reply_is_valid(m.last_stop);
    lemma_decode_encode_packet(spec_stop_reply(m.last_stop));
    lemma_supported_reply_is_valid(m.codec.limit);
    lemma_decode_encode_packet(spec_supported_reply(m.codec.limit));
}

/// What an answer of the target makes the session send is nothing or a
/// packet that decodes.
pub proof fn lemma_reply_sends_packets(m: SessionModel, reply: ReplyModel)
    ensures
        ({
            let send = spec_on_reply(m, reply).1.send;
            send.len() == 0 || spec_decode_packet(send) is Ok
        }),
{
    lemma_fixed_replies_are_valid();
    lemma_decode_encode_packet(spec_ok_reply());
    lemma_decode_encode_packet(spec_error_reply());
    match reply {
        ReplyModel::Data(bytes) => {
            lemma_hex_is_valid_payload(bytes);
            lemma_decode_encode_packet(spec_encode_hex(bytes));
        },
        ReplyModel::Stopped(reason) => {
            lemma_stop_reply_is_valid(reason);
            lemma_decode_encode_packet(spec_stop_reply(reason));
            lemma_stop_reply_is_valid(spec_step_report(reason));
            lemma_decode_encode_packet(spec_stop_reply(spec_step_report(reason)));
        },
        ReplyModel::Halted(reason) => {
            lemma_stop_reply_is_valid(spec_halt_report(reason));
            lemma_decode_encode_packet(spec_stop_reply(spec_halt_report(reason)));
        },
        _ => {},
    }
}

/// The host sees only what it can make sense of: whatever happens to
/// a session, what it sends is nothing, a lone `+` or `-`, or a packet that
/// decodes, with or without a `+` before it.
pub proof fn lemma_output_is_well_formed(m: SessionModel, event: SessionEvent)
    ensures
        spec_well_formed_send(spec_step(m, event).1.send),
{
    match event {
        SessionEvent::Byte(byte) => {
            let fed = SessionModel { codec: spec_feed(m.codec, byte).0, ..m };
            if let EventModel::Packet(body) = spec_feed(m.codec, byte).1 {
                if let Ok(command) = spec_parse_command(body) {
                    lemma_dispatch_sends_packets(fed, command);
                    let send = spec_dispatch(fed, command).1.send;
                    let acked = seq![ACK] + send;
                    if send.len() == 0 {
                        assert(acked =~= seq![ACK]);
                    } else {
                        assert(acked.subrange(1, acked.len() as int) =~= send);
                    }
                }
            }
        },
        SessionEvent::Reply(reply) => {
            lemma_reply_sends_packets(m, reply);
        },
        SessionEvent::Command(command) => {
            lemma_dispatch_sends_packets(m, command);
        },
        SessionEvent::TransportError => {},
    }
}

/// Registers and memory are touched only while the target is halted:
/// a request to read or write them comes from an idle session only, and
/// leaves it idle.
pub proof fn lemma_access_only_while_idle(m: SessionModel, event: SessionEvent)
    requires
        m.wf(),
    ensures
        ({
            let (after, out) = spec_step(m, event);
            (out.request is Some && !(out.request->0 is Resume || out.request->0 is SingleStep
                || out.request->0 is Halt)) ==> (m.state is Idle && after.state is Idle)
        }),
{
}

/// The target is given control only by a step or continue command, and
/// the session is running from then on.
pub proof fn lemma_run_control(m: SessionModel, event: SessionEvent)
    requires
        m.wf(),
    ensures
        ({
            let (after, out) = spec_step(m, event);
            &&& (out.request is Some && (out.request->0 is Resume || out.request->0
                is SingleStep)) ==> (m.state is Idle && after.state is Running)
            &&& (out.request == Some(RequestModel::Halt)) ==> after.state is AsyncInterrupt
            &&& (after.state is Running && !(m.state is Running)) ==> out.request is Some
        }),
{
}

} // verus!
