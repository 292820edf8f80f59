//! The stub's state machine. A session takes what the driver observed (a
//! byte from the host, the target's answer to a request, a transport
//! failure) and tells the driver what to send to the host and what to ask of
//! the target next. It performs none of this itself.

use crate::breakpoints::Breakpoint;
use crate::codec::{spec_feed, CodecEvent, CodecModel, EventModel, PacketCodec};
use crate::command::{parse_command, spec_parse_command, Command, CommandModel};
use crate::hex::spec_encode_hex;
use crate::packet::{encode_packet, spec_encode_packet, ACK, INTERRUPT, NAK};
use crate::reply::{
    data_reply, error_reply, ok_reply, spec_error_reply, spec_ok_reply, spec_stop_reply,
    spec_supported_reply, spec_unsupported_reply, stop_reply, supported_reply, unsupported_reply,
};
use crate::target::{
    EfiTarget, ReplyModel, RequestModel, StopReason, TargetModel, TargetReply, TargetRequest,
    SIGNAL_ABORT, SIGNAL_HANGUP, SIGNAL_INTERRUPT, SIGNAL_KILL, SIGNAL_TERMINATED,
};
use crate::transport::TransportError;
use vstd::prelude::*;

verus! {

/// The run-control state of the stub.
#[derive(Clone, Copy, Debug, PartialEq, Eq, Structural)]
pub enum StubState {
    /// The target is halted and the stub serves commands.
    Idle,
    /// The target has control, after a step or a continue.
    Running,
    /// The host asked for a halt; the target is being stopped.
    AsyncInterrupt,
    /// The session is over, for this reason. Nothing leaves this state.
    Disconnected(StopReason),
}

/// What the session has asked of the target and not yet heard back about.
#[derive(Debug, PartialEq, Eq)]
pub enum Pending {
    /// Nothing is outstanding.
    Nothing,
    /// The register file, for the host.
    ReadRegisters,
    /// A write of the register file.
    WriteRegisters,
    /// At most `length` bytes of memory, for the host.
    ReadMemory { length: usize },
    /// A write to memory.
    WriteMemory,
    /// The bytes at `address` that a trap instruction is about to replace.
    InsertRead { address: u64 },
    /// The write of the trap instruction at `address`, over `original`.
    InsertWrite { address: u64, original: Vec<u8> },
    /// The write that restores the bytes under the breakpoint at `address`.
    RemoveWrite { address: u64 },
    /// The end of a single step.
    Step,
    /// The next stop of a target that was let run.
    Resume,
    /// The halt that the host asked for.
    Halt,
}

/// A [`Pending`] with its bytes as a sequence.
pub ghost enum PendingModel {
    Nothing,
    ReadRegisters,
    WriteRegisters,
    ReadMemory { length: usize },
    WriteMemory,
    InsertRead { address: u64 },
    InsertWrite { address: u64, original: Seq<u8> },
    RemoveWrite { address: u64 },
    Step,
    Resume,
    Halt,
}

impl View for Pending {
    type V = PendingModel;

    open spec fn view(&self) -> PendingModel {
        match self {
            Pending::Nothing => PendingModel::Nothing,
            Pending::ReadRegisters => PendingModel::ReadRegisters,
            Pending::WriteRegisters => PendingModel::WriteRegisters,
            Pending::ReadMemory { length } => PendingModel::ReadMemory { length: *length },
            Pending::WriteMemory => PendingModel::WriteMemory,
            Pending::InsertRead { address } => PendingModel::InsertRead { address: *address },
            Pending::InsertWrite { address, original } => PendingModel::InsertWrite {
                address: *address,
                original: original@,
            },
            Pending::RemoveWrite { address } => PendingModel::RemoveWrite { address: *address },
            Pending::Step => PendingModel::Step,
            Pending::Resume => PendingModel::Resume,
            Pending::Halt => PendingModel::Halt,
        }
    }
}

impl PendingModel {
    /// A register, memory or breakpoint access: one that may fail without
    /// ending the session.
    pub open spec fn is_access(self) -> bool {
        !(self is Nothing || self is Step || self is Resume || self is Halt)
    }
}

/// What the driver is to do after an event: bytes to write to the
/// transport, then a request to carry out on the target.
#[derive(Debug, PartialEq, Eq)]
pub struct Output {
    /// The bytes to send to the host; none if empty.
    pub send: Vec<u8>,
    /// What to ask of the target. Its answer goes to
    /// [`Session::on_target_reply`].
    pub request: Option<TargetRequest>,
}

/// An [`Output`] as plain mathematics.
pub ghost struct OutputModel {
    pub send: Seq<u8>,
    pub request: Option<RequestModel>,
}

impl View for Output {
    type V = OutputModel;

    open spec fn view(&self) -> OutputModel {
        OutputModel {
            send: self.send@,
            request: match self.request {
                Some(request) => Some(request@),
                None => None,
            },
        }
    }
}

/// Nothing to send and nothing to ask.
pub open spec fn spec_nothing() -> OutputModel {
    OutputModel { send: Seq::empty(), request: None }
}

/// The packet that carries `payload` to the host, and nothing to ask.
pub open spec fn spec_reply(payload: Seq<u8>) -> OutputModel {
    OutputModel { send: spec_encode_packet(payload), request: None }
}

/// Nothing to send, and `request` to ask of the target.
pub open spec fn spec_ask(request: RequestModel) -> OutputModel {
    OutputModel { send: Seq::empty(), request: Some(request) }
}

/// The session as plain mathematics.
pub ghost struct SessionModel {
    pub state: StubState,
    pub pending: PendingModel,
    /// The reason of the latest halt, which `?` reports.
    pub last_stop: StopReason,
    pub codec: CodecModel,
    pub target: TargetModel,
}

impl SessionModel {
    /// The receiver is well formed, and what is outstanding fits the state:
    /// a step or resume exactly while running, a halt exactly while an
    /// interrupt is handled, nothing once disconnected; a breakpoint that is
    /// being installed is not in the table yet, and one that is being
    /// removed still is.
    pub open spec fn wf(self) -> bool {
        &&& self.codec.wf()
        &&& (self.state is Running <==> (self.pending is Step || self.pending is Resume))
        &&& (self.state is AsyncInterrupt <==> self.pending is Halt)
        &&& (self.state is Disconnected ==> self.pending is Nothing)
        &&& (self.pending matches PendingModel::InsertRead { address }
            ==> !self.target.table.contains_key(address))
        &&& (self.pending matches PendingModel::InsertWrite { address, .. }
            ==> !self.target.table.contains_key(address))
        &&& (self.pending matches PendingModel::RemoveWrite { address }
            ==> self.target.table.contains_key(address))
    }

    /// The session as it starts: idle, between packets, nothing outstanding.
    pub open spec fn initial(limit: nat, target: TargetModel, entry: StopReason) -> SessionModel {
        SessionModel {
            state: StubState::Idle,
            pending: PendingModel::Nothing,
            last_stop: entry,
            codec: CodecModel::idle(limit),
            target,
        }
    }
}

/// The session ended for `reason`: nothing is outstanding any more.
pub open spec fn spec_disconnect(m: SessionModel, reason: StopReason) -> SessionModel {
    SessionModel { state: StubState::Disconnected(reason), pending: PendingModel::Nothing, ..m }
}

/// The most bytes of memory whose hexadecimal form fits a packet of at most
/// `limit` bytes.
pub open spec fn spec_read_limit(limit: nat) -> nat {
    if limit < 4 {
        0
    } else {
        ((limit - 4) / 2) as nat
    }
}

/// `length`, or the most that fits a reply if that is less.
pub open spec fn spec_clamp(length: u64, limit: nat) -> usize {
    if length <= spec_read_limit(limit) {
        length as usize
    } else {
        spec_read_limit(limit) as usize
    }
}

/// What a command leads to. Only an idle session with nothing outstanding
/// takes commands.
pub open spec fn spec_dispatch(m: SessionModel, command: CommandModel) -> (
    SessionModel,
    OutputModel,
) {
    if !(m.state is Idle && m.pending is Nothing) {
        (m, spec_nothing())
    } else {
        match command {
            CommandModel::ReadRegisters => (
                SessionModel { pending: PendingModel::ReadRegisters, ..m },
                spec_ask(RequestModel::ReadRegisters),
            ),
            CommandModel::WriteRegisters(bytes) => if bytes.len() == m.target.register_bytes {
                (
                    SessionModel { pending: PendingModel::WriteRegisters, ..m },
                    spec_ask(RequestModel::WriteRegisters(bytes)),
                )
            } else {
                (m, spec_reply(spec_error_reply()))
            },
            CommandModel::ReadMemory { address, length } => {
                let length = spec_clamp(length, m.codec.limit);
                (
                    SessionModel { pending: PendingModel::ReadMemory { length }, ..m },
                    spec_ask(RequestModel::ReadMemory { address, length }),
                )
            },
            CommandModel::WriteMemory { address, data } => (
                SessionModel { pending: PendingModel::WriteMemory, ..m },
                spec_ask(RequestModel::WriteMemory { address, data }),
            ),
            CommandModel::InsertBreakpoint { address } => if m.target.table.contains_key(address) {
                (m, spec_reply(spec_ok_reply()))
            } else {
                (
                    SessionModel { pending: PendingModel::InsertRead { address }, ..m },
                    spec_ask(
                        RequestModel::ReadMemory {
                            address,
                            length: m.target.trap.len() as usize,
                        },
                    ),
                )
            },
            CommandModel::RemoveBreakpoint { address } => if !m.target.table.contains_key(
                address,
            ) {
                (m, spec_reply(spec_ok_reply()))
            } else {
                (
                    SessionModel { pending: PendingModel::RemoveWrite { address }, ..m },
                    spec_ask(
                        RequestModel::WriteMemory { address, data: m.target.table[address] },
                    ),
                )
            },
            CommandModel::Step => (
                SessionModel { state: StubState::Running, pending: PendingModel::Step, ..m },
                spec_ask(RequestModel::SingleStep),
            ),
            CommandModel::Continue { signal } => (
                SessionModel { state: StubState::Running, pending: PendingModel::Resume, ..m },
                spec_ask(RequestModel::Resume { signal }),
            ),
            CommandModel::Detach => (
                spec_disconnect(m, StopReason::Exited),
                spec_reply(spec_ok_reply()),
            ),
            CommandModel::Kill => (
                spec_disconnect(m, StopReason::Signal(SIGNAL_KILL)),
                spec_nothing(),
            ),
            CommandModel::QueryStopReason => (m, spec_reply(spec_stop_reply(m.last_stop))),
            CommandModel::QuerySupported => (
                m,
                spec_reply(spec_supported_reply(m.codec.limit)),
            ),
            CommandModel::Unsupported => (m, spec_reply(spec_unsupported_reply())),
        }
    }
}

/// What a packet with a matching checksum leads to: it is acknowledged, and
/// then its command is carried out, or, if it spells no command, the
/// session ends.
pub open spec fn spec_on_packet(m: SessionModel, body: Seq<u8>) -> (SessionModel, OutputModel) {
    match spec_parse_command(body) {
        Ok(command) => {
            let (next, out) = spec_dispatch(m, command);
            (next, OutputModel { send: seq![ACK] + out.send, ..out })
        },
        Err(_) => (
            spec_disconnect(m, StopReason::Signal(SIGNAL_ABORT)),
            OutputModel { send: seq![ACK], request: None },
        ),
    }
}

/// The halt that the host asked for begins.
pub open spec fn spec_interrupt(m: SessionModel) -> (SessionModel, OutputModel) {
    (
        SessionModel { state: StubState::AsyncInterrupt, pending: PendingModel::Halt, ..m },
        spec_ask(RequestModel::Halt),
    )
}

/// What a byte from the host leads to.
pub open spec fn spec_on_byte(m: SessionModel, byte: u8) -> (SessionModel, OutputModel) {
    match m.state {
        StubState::Disconnected(_) => (m, spec_nothing()),
        StubState::AsyncInterrupt => (m, spec_nothing()),
        StubState::Running => if byte == INTERRUPT {
            spec_interrupt(m)
        } else {
            (m, spec_nothing())
        },
        StubState::Idle => if !(m.pending is Nothing) {
            (m, spec_nothing())
        } else {
            let (codec, event) = spec_feed(m.codec, byte);
            let fed = SessionModel { codec, ..m };
            match event {
                EventModel::Pending => (fed, spec_nothing()),
                EventModel::Rejected => (fed, OutputModel { send: seq![NAK], request: None }),
                EventModel::Interrupt => spec_interrupt(fed),
                EventModel::Fatal(_) => (
                    spec_disconnect(fed, StopReason::Signal(SIGNAL_ABORT)),
                    spec_nothing(),
                ),
                EventModel::Packet(body) => spec_on_packet(fed, body),
            }
        },
    }
}

/// The target halted for `reason`: the host is told, and the session is
/// idle again, or over if the target is gone.
pub open spec fn spec_stopped(m: SessionModel, reason: StopReason) -> (SessionModel, OutputModel) {
    (
        SessionModel {
            state: if reason is Exited {
                StubState::Disconnected(StopReason::Exited)
            } else {
                StubState::Idle
            },
            pending: PendingModel::Nothing,
            last_stop: reason,
            ..m
        },
        spec_reply(spec_stop_reply(reason)),
    )
}

/// The reason reported after a single step: a step that lands on a
/// breakpoint is still reported as a step.
pub open spec fn spec_step_report(reason: StopReason) -> StopReason {
    if reason is Breakpoint {
        StopReason::Step
    } else {
        reason
    }
}

/// The reason reported after a requested halt: the one the halt coincided
/// with, else the interrupt signal.
pub open spec fn spec_halt_report(reason: Option<StopReason>) -> StopReason {
    match reason {
        Some(reason) => reason,
        None => StopReason::Signal(SIGNAL_INTERRUPT),
    }
}

/// The target adapter failed for good, or answered what was not asked.
pub open spec fn spec_target_lost(m: SessionModel) -> (SessionModel, OutputModel) {
    (spec_disconnect(m, StopReason::Signal(SIGNAL_TERMINATED)), spec_nothing())
}

/// What the target's answer to the outstanding request leads to.
pub open spec fn spec_on_reply(m: SessionModel, reply: ReplyModel) -> (SessionModel, OutputModel) {
    let done = SessionModel { pending: PendingModel::Nothing, ..m };
    if m.pending is Nothing {
        (m, spec_nothing())
    } else if reply is NonFatal && m.pending.is_access() {
        (done, spec_reply(spec_error_reply()))
    } else {
        match (m.pending, reply) {
            (PendingModel::ReadRegisters, ReplyModel::Data(bytes)) => if bytes.len()
                == m.target.register_bytes {
                (done, spec_reply(spec_encode_hex(bytes)))
            } else {
                spec_target_lost(m)
            },
            (PendingModel::ReadMemory { length }, ReplyModel::Data(bytes)) => if bytes.len()
                <= length {
                (done, spec_reply(spec_encode_hex(bytes)))
            } else {
                spec_target_lost(m)
            },
            (PendingModel::InsertRead { address }, ReplyModel::Data(bytes)) => if bytes.len()
                == m.target.trap.len() {
                (
                    SessionModel {
                        pending: PendingModel::InsertWrite { address, original: bytes },
                        ..m
                    },
                    spec_ask(RequestModel::WriteMemory { address, data: m.target.trap }),
                )
            } else {
                spec_target_lost(m)
            },
            (PendingModel::WriteRegisters, ReplyModel::Done) => (
                done,
                spec_reply(spec_ok_reply()),
            ),
            (PendingModel::WriteMemory, ReplyModel::Done) => (done, spec_reply(spec_ok_reply())),
            (PendingModel::InsertWrite { address, original }, ReplyModel::Done) => (
                SessionModel {
                    target: TargetModel {
                        table: m.target.table.insert(address, original),
                        ..m.target
                    },
                    ..done
                },
                spec_reply(spec_ok_reply()),
            ),
            (PendingModel::RemoveWrite { address }, ReplyModel::Done) => (
                SessionModel {
                    target: TargetModel { table: m.target.table.remove(address), ..m.target },
                    ..done
                },
                spec_reply(spec_ok_reply()),
            ),
            (PendingModel::Step, ReplyModel::Stopped(reason)) => spec_stopped(
                m,
                spec_step_report(reason),
            ),
            (PendingModel::Resume, ReplyModel::Stopped(reason)) => spec_stopped(m, reason),
            (PendingModel::Halt, ReplyModel::Halted(reason)) => spec_stopped(
                m,
                spec_halt_report(reason),
            ),
            _ => spec_target_lost(m),
        }
    }
}

/// What a failure of the transport leads to: the session ends.
pub open spec fn spec_on_transport_error(m: SessionModel) -> SessionModel {
    if m.state is Disconnected {
        m
    } else {
        spec_disconnect(m, StopReason::Signal(SIGNAL_HANGUP))
    }
}

/// The stub's protocol engine.
#[derive(Debug)]
pub struct Session {
    codec: PacketCodec,
    target: EfiTarget,
    state: StubState,
    pending: Pending,
    last_stop: StopReason,
}

impl View for Session {
    type V = SessionModel;

    closed spec fn view(&self) -> SessionModel {
        SessionModel {
            state: self.state,
            pending: self.pending@,
            last_stop: self.last_stop,
            codec: self.codec@,
            target: self.target@,
        }
    }
}

/// An output with nothing in it.
fn nothing() -> (out: Output)
    ensures
        out@ == spec_nothing(),
{
    Output { send: Vec::new(), request: None }
}

/// The output that sends `payload` in a packet.
fn reply_with(payload: Vec<u8>) -> (out: Output)
    ensures
        out@ == spec_reply(payload@),
{
    Output { send: encode_packet(payload.as_slice()), request: None }
}

/// The output that asks `request` of the target.
fn ask(request: TargetRequest) -> (out: Output)
    ensures
        out@ == spec_ask(request@),
{
    Output { send: Vec::new(), request: Some(request) }
}

/// The output that sends the one byte `byte`.
fn send_byte(byte: u8) -> (out: Output)
    ensures
        out@ == (OutputModel { send: seq![byte], request: None }),
{
    let mut send: Vec<u8> = Vec::new();
    send.push(byte);
    assert(send@ =~= seq![byte]);
    Output { send, request: None }
}

/// `out` with the acknowledgement in front of what it sends.
fn acknowledged(out: Output) -> (acked: Output)
    ensures
        acked@ == (OutputModel { send: seq![ACK] + out@.send, ..out@ }),
{
    let mut send: Vec<u8> = Vec::new();
    send.push(ACK);
    let mut rest = out.send;
    send.append(&mut rest);
    assert(send@ =~= seq![ACK] + out@.send);
    Output { send, request: out.request }
}

impl Session {
    /// The session's invariant: that of its model, and a breakpoint table
    /// without a repeated address.
    pub closed spec fn wf(&self) -> bool {
        self@.wf() && self.target.wf()
    }

    /// A well-formed session has a well-formed model.
    pub proof fn lemma_wf_model(&self)
        requires
            self.wf(),
        ensures
            self@.wf(),
    {
    }

    /// A session for a halted target: idle, between packets. `entry` is why
    /// the target halted; `max_packet_size` is the largest frame accepted
    /// from the host.
    pub fn new(max_packet_size: usize, target: EfiTarget, entry: StopReason) -> (session: Session)
        requires
            target.wf(),
        ensures
            session.wf(),
            session@ == SessionModel::initial(max_packet_size as nat, target@, entry),
    {
        Session {
            codec: PacketCodec::new(max_packet_size),
            target,
            state: StubState::Idle,
            pending: Pending::Nothing,
            last_stop: entry,
        }
    }

    /// The run-control state.
    pub fn state(&self) -> (state: StubState)
        ensures
            state == self@.state,
    {
        self.state
    }

    /// Why the session ended, once it has.
    pub fn disconnect_reason(&self) -> (reason: Option<StopReason>)
        ensures
            reason == match self@.state {
                StubState::Disconnected(r) => Some(r),
                _ => None,
            },
    {
        match self.state {
            StubState::Disconnected(r) => Some(r),
            _ => None,
        }
    }

    /// The reason of the latest halt.
    pub fn last_stop(&self) -> (reason: StopReason)
        ensures
            reason == self@.last_stop,
    {
        self.last_stop
    }

    /// Whether a request to the target is outstanding.
    pub fn awaits_target(&self) -> (waiting: bool)
        ensures
            waiting == !(self@.pending is Nothing),
    {
        match self.pending {
            Pending::Nothing => false,
            _ => true,
        }
    }

    /// The largest frame accepted from the host.
    pub fn max_packet_size(&self) -> (limit: usize)
        ensures
            limit == self@.codec.limit,
    {
        self.codec.max_packet_size()
    }

    /// The target adapter state.
    pub fn target(&self) -> (target: &EfiTarget)
        ensures
            target@ == self@.target,
            self.wf() ==> target.wf(),
    {
        &self.target
    }

    /// Whether breakpoints are still installed. Where this holds of a
    /// session that has ended, their bytes were not restored.
    pub fn has_unrestored_breakpoints(&self) -> (flagged: bool)
        requires
            self.wf(),
        ensures
            flagged == (self@.target.table != Map::<u64, Seq<u8>>::empty()),
    {
        let count = self.target.breakpoint_count();
        proof {
            self.target.lemma_breakpoint_count();
        }
        count != 0
    }

    /// Ends the session's bookkeeping and hands back the breakpoints that
    /// are still installed, for the driver to restore.
    pub fn teardown(self) -> (entries: Vec<Breakpoint>)
        requires
            self.wf(),
        ensures
            crate::breakpoints::spec_distinct(entries@),
            crate::breakpoints::spec_table_of(entries@) == self@.target.table,
    {
        let mut session = self;
        session.target.drain_breakpoints()
    }

    /// The receiver and the breakpoint table are well formed, whatever
    /// the state and what is outstanding.
    closed spec fn parts_wf(&self) -> bool {
        self@.codec.wf() && self.target.wf()
    }

    fn disconnect(&mut self, reason: StopReason)
        requires
            old(self).parts_wf(),
        ensures
            final(self).wf(),
            final(self)@ == spec_disconnect(old(self)@, reason),
    {
        self.state = StubState::Disconnected(reason);
        self.pending = Pending::Nothing;
    }

    fn target_lost(&mut self) -> (out: Output)
        requires
            old(self).parts_wf(),
        ensures
            final(self).wf(),
            (final(self)@, out@) == spec_target_lost(old(self)@),
    {
        self.disconnect(StopReason::Signal(SIGNAL_TERMINATED));
        nothing()
    }

    fn interrupt(&mut self) -> (out: Output)
        requires
            old(self).wf(),
            old(self)@.state is Idle || old(self)@.state is Running,
        ensures
            final(self).wf(),
            (final(self)@, out@) == spec_interrupt(old(self)@),
    {
        self.state = StubState::AsyncInterrupt;
        self.pending = Pending::Halt;
        ask(TargetRequest::Halt)
    }

    fn stopped(&mut self, reason: StopReason) -> (out: Output)
        requires
            old(self).parts_wf(),
        ensures
            final(self).wf(),
            (final(self)@, out@) == spec_stopped(old(self)@, reason),
    {
        self.state = match reason {
            StopReason::Exited => StubState::Disconnected(StopReason::Exited),
            _ => StubState::Idle,
        };
        self.pending = Pending::Nothing;
        self.last_stop = reason;
        reply_with(stop_reply(reason))
    }

    /// Carries out a command of the host. A session that is not idle, or
    /// that waits for the target, takes no command: nothing changes and
    /// nothing is put out.
    pub fn dispatch(&mut self, command: Command) -> (out: Output)
        requires
            old(self).wf(),
        ensures
            final(self).wf(),
            (final(self)@, out@) == spec_dispatch(old(self)@, command@),
    {
        match self.state {
            StubState::Idle => {},
            _ => {
                return nothing();
            },
        }
        match self.pending {
            Pending::Nothing => {},
            _ => {
                return nothing();
            },
        }
        match command {
            Command::ReadRegisters => {
                self.pending = Pending::ReadRegisters;
                ask(TargetRequest::ReadRegisters)
            },
            Command::WriteRegisters(bytes) => {
                if bytes.len() == self.target.register_bytes() {
                    self.pending = Pending::WriteRegisters;
                    ask(TargetRequest::WriteRegisters(bytes))
                } else {
                    reply_with(error_reply())
                }
            },
            Command::ReadMemory { address, length } => {
                let limit: usize = self.codec.max_packet_size();
                let room: usize = if limit < 4 {
                    0
                } else {
                    (limit - 4) / 2
                };
                let length: usize = if length <= room as u64 {
                    length as usize
                } else {
                    room
                };
                self.pending = Pending::ReadMemory { length };
                ask(TargetRequest::ReadMemory { address, length })
            },
            Command::WriteMemory { address, data } => {
                self.pending = Pending::WriteMemory;
                ask(TargetRequest::WriteMemory { address, data })
            },
            Command::InsertBreakpoint { address } => {
                match self.target.plan_insert(address) {
                    None => reply_with(ok_reply()),
                    Some(request) => {
                        self.pending = Pending::InsertRead { address };
                        ask(request)
                    },
                }
            },
            Command::RemoveBreakpoint { address } => {
                match self.target.plan_remove(address) {
                    None => reply_with(ok_reply()),
                    Some(request) => {
                        self.pending = Pending::RemoveWrite { address };
                        ask(request)
                    },
                }
            },
            Command::Step => {
                self.state = StubState::Running;
                self.pending = Pending::Step;
                ask(TargetRequest::SingleStep)
            },
            Command::Continue { signal } => {
                self.state = StubState::Running;
                self.pending = Pending::Resume;
                ask(TargetRequest::Resume { signal })
            },
            Command::Detach => {
                self.disconnect(StopReason::Exited);
                reply_with(ok_reply())
            },
            Command::Kill => {
                self.disconnect(StopReason::Signal(SIGNAL_KILL));
                nothing()
            },
            Command::QueryStopReason => reply_with(stop_reply(self.last_stop)),
            Command::QuerySupported => reply_with(supported_reply(self.codec.max_packet_size())),
            Command::Unsupported => reply_with(unsupported_reply()),
        }
    }

    /// Takes a packet whose checksum matched.
    fn on_packet(&mut self, body: Vec<u8>) -> (out: Output)
        requires
            old(self).wf(),
        ensures
            final(self).wf(),
            (final(self)@, out@) == spec_on_packet(old(self)@, body@),
    {
        match parse_command(body.as_slice()) {
            Ok(command) => {
                let out = self.dispatch(command);
                acknowledged(out)
            },
            Err(_) => {
                self.disconnect(StopReason::Signal(SIGNAL_ABORT));
                send_byte(ACK)
            },
        }
    }

    /// Takes one byte that the transport received from the host.
    ///
    /// An idle session with nothing outstanding assembles packets from the
    /// bytes: a packet with a matching checksum is acknowledged with `+` and
    /// its command carried out; one with a wrong checksum is answered with
    /// `-` and dropped. The interrupt byte, seen while idle or running,
    /// begins a halt of the target. In every other situation the byte is
    /// dropped.
    pub fn on_byte(&mut self, byte: u8) -> (out: Output)
        requires
            old(self).wf(),
        ensures
            final(self).wf(),
            (final(self)@, out@) == spec_on_byte(old(self)@, byte),
    {
        match self.state {
            StubState::Disconnected(_) => nothing(),
            StubState::AsyncInterrupt => nothing(),
            StubState::Running => {
                if byte == INTERRUPT {
                    self.interrupt()
                } else {
                    nothing()
                }
            },
            StubState::Idle => {
                match self.pending {
                    Pending::Nothing => {},
                    _ => {
                        return nothing();
                    },
                }
                match self.codec.feed(byte) {
                    CodecEvent::Pending => nothing(),
                    CodecEvent::Rejected => send_byte(NAK),
                    CodecEvent::Interrupt => self.interrupt(),
                    CodecEvent::Fatal(_) => {
                        self.disconnect(StopReason::Signal(SIGNAL_ABORT));
                        nothing()
                    },
                    CodecEvent::Packet(body) => self.on_packet(body),
                }
            },
        }
    }

    /// Takes the target's answer to the outstanding request.
    ///
    /// Data that was read goes to the host in hexadecimal, a write that
    /// went through is answered with `OK`, and an access that failed with an
    /// error reply; the session stays idle. A stop of the target is reported
    /// to the host with its reason, and the session is idle again. An adapter
    /// that failed for good, or an answer that does not fit what was asked,
    /// ends the session. With nothing outstanding the answer is dropped.
    pub fn on_target_reply(&mut self, reply: TargetReply) -> (out: Output)
        requires
            old(self).wf(),
        ensures
            final(self).wf(),
            (final(self)@, out@) == spec_on_reply(old(self)@, reply@),
    {
        let mut pending = Pending::Nothing;
        core::mem::swap(&mut pending, &mut self.pending);
        match pending {
            Pending::Nothing => nothing(),
            Pending::ReadRegisters => match reply {
                TargetReply::Data(bytes) => {
                    if bytes.len() == self.target.register_bytes() {
                        reply_with(data_reply(bytes.as_slice()))
                    } else {
                        self.target_lost()
                    }
                },
                TargetReply::NonFatal => reply_with(error_reply()),
                _ => self.target_lost(),
            },
            Pending::ReadMemory { length } => match reply {
                TargetReply::Data(bytes) => {
                    if bytes.len() <= length {
                        reply_with(data_reply(bytes.as_slice()))
                    } else {
                        self.target_lost()
                    }
                },
                TargetReply::NonFatal => reply_with(error_reply()),
                _ => self.target_lost(),
            },
            Pending::WriteRegisters => match reply {
                TargetReply::Done => reply_with(ok_reply()),
                TargetReply::NonFatal => reply_with(error_reply()),
                _ => self.target_lost(),
            },
            Pending::WriteMemory => match reply {
                TargetReply::Done => reply_with(ok_reply()),
                TargetReply::NonFatal => reply_with(error_reply()),
                _ => self.target_lost(),
            },
            Pending::InsertRead { address } => match reply {
                TargetReply::Data(bytes) => {
                    if bytes.len() == self.target.trap().len() {
                        self.pending = Pending::InsertWrite { address, original: bytes };
                        ask(self.target.patch(address))
                    } else {
                        self.target_lost()
                    }
                },
                TargetReply::NonFatal => reply_with(error_reply()),
                _ => self.target_lost(),
            },
            Pending::InsertWrite { address, original } => match reply {
                TargetReply::Done => {
                    self.target.add_sw_breakpoint(address, original);
                    reply_with(ok_reply())
                },
                TargetReply::NonFatal => reply_with(error_reply()),
                _ => self.target_lost(),
            },
            Pending::RemoveWrite { address } => match reply {
                TargetReply::Done => {
                    self.target.remove_sw_breakpoint(address);
                    reply_with(ok_reply())
                },
                TargetReply::NonFatal => reply_with(error_reply()),
                _ => self.target_lost(),
            },
            Pending::Step => match reply {
                TargetReply::Stopped(reason) => {
                    let report = match reason {
                        StopReason::Breakpoint(_) => StopReason::Step,
                        other => other,
                    };
                    self.stopped(report)
                },
                _ => self.target_lost(),
            },
            Pending::Resume => match reply {
                TargetReply::Stopped(reason) => self.stopped(reason),
                _ => self.target_lost(),
            },
            Pending::Halt => match reply {
                TargetReply::Halted(reason) => {
                    let report = match reason {
                        Some(reason) => reason,
                        None => StopReason::Signal(SIGNAL_INTERRUPT),
                    };
                    self.stopped(report)
                },
                _ => self.target_lost(),
            },
        }
    }

    /// Takes a failure of the transport, which ends the session whatever
    /// the failure is.
    pub fn on_transport_error(&mut self, error: TransportError)
        requires
            old(self).wf(),
        ensures
            final(self).wf(),
            final(self)@ == spec_on_transport_error(old(self)@),
    {
        match self.state {
            StubState::Disconnected(_) => {},
            _ => {
                self.disconnect(StopReason::Signal(SIGNAL_HANGUP));
            },
        }
    }
}

} // verus!
