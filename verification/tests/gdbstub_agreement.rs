use debug_agent::packet::{decode_packet, encode_packet};
use debug_agent::session::{Session, StubState};
use debug_agent::target::{EfiTarget, StopReason, TargetReply, TargetRequest};
use gdbstub::arch::Registers;
use gdbstub::common::Signal;
use gdbstub::conn::Connection;
use gdbstub::stub::state_machine::GdbStubStateMachine;
use gdbstub::stub::GdbStubBuilder;
use gdbstub::target::ext::base::singlethread::{
    SingleThreadBase, SingleThreadResume, SingleThreadResumeOps, SingleThreadSingleStep,
    SingleThreadSingleStepOps,
};
use gdbstub::target::ext::base::BaseOps;
use gdbstub::target::ext::breakpoints::{
    Breakpoints, BreakpointsOps, SwBreakpoint, SwBreakpointOps,
};
use gdbstub::target::{Target, TargetError, TargetResult};
use gdbstub_arch::x86::reg::X86_64CoreRegs;
use gdbstub_arch::x86::X86_64_SSE;

/// A connection that keeps what was written to it.
struct Wire {
    sent: Vec<u8>,
}

impl Connection for Wire {
    type Error = ();

    fn write(&mut self, byte: u8) -> Result<(), ()> {
        self.sent.push(byte);
        Ok(())
    }

    fn flush(&mut self) -> Result<(), ()> {
        Ok(())
    }
}

/// A target with a register file and a little memory at address 0.
struct Board {
    registers: X86_64CoreRegs,
    memory: Vec<u8>,
    breakpoints: Vec<u64>,
}

impl Board {
    fn new() -> Board {
        let mut registers = X86_64CoreRegs::default();
        for (i, register) in registers.regs.iter_mut().enumerate() {
            *register = 0x0101_0101_0101_0101 * (i as u64 + 1);
        }
        registers.rip = 0xffff_8000_0010_2030;
        registers.eflags = 0x246;
        registers.mxcsr = 0x1f80;
        Board {
            registers,
            memory: (0..=255u8).collect(),
            breakpoints: Vec::new(),
        }
    }

    fn register_file(&self) -> Vec<u8> {
        let mut bytes = Vec::new();
        self.registers.gdb_serialize(|byte| bytes.push(byte.unwrap_or(0)));
        bytes
    }

    /// Serves a request of the library's session.
    fn serve(&mut self, request: TargetRequest) -> TargetReply {
        match request {
            TargetRequest::ReadRegisters => TargetReply::Data(self.register_file()),
            TargetRequest::WriteRegisters(bytes) => {
                match self.registers.gdb_deserialize(&bytes) {
                    Ok(()) => TargetReply::Done,
                    Err(()) => TargetReply::NonFatal,
                }
            }
            TargetRequest::ReadMemory { address, length } => {
                let start = address as usize;
                match self.memory.get(start..start + length) {
                    Some(bytes) => TargetReply::Data(bytes.to_vec()),
                    None => TargetReply::NonFatal,
                }
            }
            TargetRequest::WriteMemory { address, data } => {
                let start = address as usize;
                match self.memory.get_mut(start..start + data.len()) {
                    Some(bytes) => {
                        bytes.copy_from_slice(&data);
                        TargetReply::Done
                    }
                    None => TargetReply::NonFatal,
                }
            }
            _ => TargetReply::Fatal,
        }
    }
}

impl Target for Board {
    type Arch = X86_64_SSE;
    type Error = ();

    fn base_ops(&mut self) -> BaseOps<'_, X86_64_SSE, ()> {
        BaseOps::SingleThread(self)
    }

    fn use_rle(&self) -> bool {
        false
    }

    fn use_no_ack_mode(&self) -> bool {
        false
    }

    fn use_x_upcase_packet(&self) -> bool {
        false
    }

    fn support_breakpoints(&mut self) -> Option<BreakpointsOps<'_, Self>> {
        Some(self)
    }
}

impl SingleThreadBase for Board {
    fn read_registers(&mut self, regs: &mut X86_64CoreRegs) -> TargetResult<(), Self> {
        *regs = self.registers.clone();
        Ok(())
    }

    fn write_registers(&mut self, regs: &X86_64CoreRegs) -> TargetResult<(), Self> {
        self.registers = regs.clone();
        Ok(())
    }

    fn read_addrs(&mut self, start_addr: u64, data: &mut [u8]) -> TargetResult<usize, Self> {
        let start = start_addr as usize;
        match self.memory.get(start..start + data.len()) {
            Some(bytes) => {
                data.copy_from_slice(bytes);
                Ok(data.len())
            }
            None => Err(TargetError::NonFatal),
        }
    }

    fn write_addrs(&mut self, start_addr: u64, data: &[u8]) -> TargetResult<(), Self> {
        let start = start_addr as usize;
        match self.memory.get_mut(start..start + data.len()) {
            Some(bytes) => {
                bytes.copy_from_slice(data);
                Ok(())
            }
            None => Err(TargetError::NonFatal),
        }
    }

    fn support_resume(&mut self) -> Option<SingleThreadResumeOps<'_, Self>> {
        Some(self)
    }
}

impl SingleThreadResume for Board {
    fn resume(&mut self, _signal: Option<Signal>) -> Result<(), ()> {
        Ok(())
    }

    fn support_single_step(&mut self) -> Option<SingleThreadSingleStepOps<'_, Self>> {
        Some(self)
    }
}

impl SingleThreadSingleStep for Board {
    fn step(&mut self, _signal: Option<Signal>) -> Result<(), ()> {
        Ok(())
    }
}

impl Breakpoints for Board {
    fn support_sw_breakpoint(&mut self) -> Option<SwBreakpointOps<'_, Self>> {
        Some(self)
    }
}

impl SwBreakpoint for Board {
    fn add_sw_breakpoint(&mut self, addr: u64, _kind: usize) -> TargetResult<bool, Self> {
        if !self.breakpoints.contains(&addr) {
            self.breakpoints.push(addr);
        }
        Ok(true)
    }

    fn remove_sw_breakpoint(&mut self, addr: u64, _kind: usize) -> TargetResult<bool, Self> {
        self.breakpoints.retain(|a| *a != addr);
        Ok(true)
    }
}

/// How a conversation ended.
#[derive(Debug, PartialEq, Eq)]
enum End {
    Idle,
    Running,
    Disconnected,
}

/// Everything sent in answer to each of `payloads`, and how it ended, when
/// the packets go through gdbstub's engine.
fn through_gdbstub(board: &mut Board, payloads: &[&[u8]]) -> (Vec<Vec<u8>>, End) {
    let mut buffer = [0u8; 4096];
    let stub = GdbStubBuilder::new(Wire { sent: Vec::new() })
        .with_packet_buffer(&mut buffer)
        .build()
        .ok()
        .unwrap();
    let mut machine = stub.run_state_machine(board).ok().unwrap();
    let mut answers = Vec::new();
    for payload in payloads {
        for byte in encode_packet(payload) {
            machine = match machine {
                GdbStubStateMachine::Idle(inner) => inner.incoming_data(board, byte).ok().unwrap(),
                other => other,
            };
        }
        let wire = match &mut machine {
            GdbStubStateMachine::Idle(inner) => inner.borrow_conn(),
            GdbStubStateMachine::Running(inner) => inner.borrow_conn(),
            GdbStubStateMachine::CtrlCInterrupt(inner) => inner.borrow_conn(),
            GdbStubStateMachine::Disconnected(inner) => inner.borrow_conn(),
        };
        answers.push(std::mem::take(&mut wire.sent));
    }
    let end = match machine {
        GdbStubStateMachine::Idle(_) => End::Idle,
        GdbStubStateMachine::Running(_) => End::Running,
        GdbStubStateMachine::CtrlCInterrupt(_) => End::Idle,
        GdbStubStateMachine::Disconnected(_) => End::Disconnected,
    };
    (answers, end)
}

/// The same through the library's session.
fn through_session(board: &mut Board, payloads: &[&[u8]]) -> (Vec<Vec<u8>>, End) {
    let target = EfiTarget::new(board.register_file().len(), vec![0xcc]);
    let mut session = Session::new(4096, target, StopReason::Signal(5));
    let mut answers = Vec::new();
    for payload in payloads {
        let mut sent = Vec::new();
        for byte in encode_packet(payload) {
            let mut out = session.on_byte(byte);
            sent.extend_from_slice(&out.send);
            while let Some(request) = out.request.take() {
                match request {
                    TargetRequest::Resume { .. } | TargetRequest::SingleStep => break,
                    other => {
                        out = session.on_target_reply(board.serve(other));
                        sent.extend_from_slice(&out.send);
                    }
                }
            }
        }
        answers.push(sent);
    }
    let end = match session.state() {
        StubState::Idle => End::Idle,
        StubState::Running => End::Running,
        StubState::AsyncInterrupt => End::Idle,
        StubState::Disconnected(_) => End::Disconnected,
    };
    (answers, end)
}

/// The payload of an answer that is an acknowledgement and one packet, with
/// letters in lower case.
fn payload_of(answer: &[u8]) -> Vec<u8> {
    assert_eq!(answer[0], b'+');
    decode_packet(&answer[1..]).unwrap().to_ascii_lowercase()
}

fn assert_same_payloads(payloads: &[&[u8]]) {
    let (theirs, their_end) = through_gdbstub(&mut Board::new(), payloads);
    let (ours, our_end) = through_session(&mut Board::new(), payloads);
    assert_eq!(theirs.len(), ours.len());
    for (their, our) in theirs.iter().zip(ours.iter()) {
        assert_eq!(payload_of(their), payload_of(our));
    }
    assert_eq!(their_end, our_end);
}

#[test]
fn agrees_on_the_register_dump() {
    assert_same_payloads(&[b"g"]);
    let (ours, _) = through_session(&mut Board::new(), &[b"g"]);
    assert_eq!(payload_of(&ours[0]).len(), 2 * 0x218);
}

#[test]
fn agrees_on_writing_registers() {
    let mut file = Board::new().register_file();
    file[0] = 0xaa;
    file[0x80] = 0x55;
    let mut command = b"G".to_vec();
    command.extend_from_slice(&debug_agent::hex::encode_hex(&file));
    assert_same_payloads(&[&command, b"g"]);
}

#[test]
fn agrees_on_memory_reads_and_writes() {
    assert_same_payloads(&[b"m10,8", b"M10,4:deadBEEF", b"m10,8", b"mf0,10", b"m0,1"]);
}

#[test]
fn agrees_that_failed_accesses_are_error_replies() {
    let commands: [&[u8]; 2] = [b"m1000,4", b"M1000,1:00"];
    let (theirs, their_end) = through_gdbstub(&mut Board::new(), &commands);
    let (ours, our_end) = through_session(&mut Board::new(), &commands);
    for (their, our) in theirs.iter().zip(ours.iter()) {
        assert_eq!(payload_of(their)[0], b'e');
        assert_eq!(payload_of(our)[0], b'e');
    }
    assert_eq!(their_end, End::Idle);
    assert_eq!(our_end, End::Idle);
}

#[test]
fn agrees_on_software_breakpoints() {
    assert_same_payloads(&[b"Z0,20,1", b"Z0,20,1", b"z0,20,1", b"z0,20,1"]);
}

#[test]
fn agrees_that_other_breakpoint_kinds_are_unsupported() {
    assert_same_payloads(&[b"Z1,20,1", b"z2,20,4", b"Z3,20,4", b"Z4,20,4"]);
}

#[test]
fn agrees_that_monitor_commands_are_unsupported() {
    assert_same_payloads(&[b"qRcmd,68656c70", b"vMustReplyEmpty"]);
}

#[test]
fn agrees_on_detach() {
    assert_same_payloads(&[b"m0,1", b"D"]);
}

#[test]
fn agrees_on_kill() {
    let commands: [&[u8]; 1] = [b"k"];
    let (theirs, their_end) = through_gdbstub(&mut Board::new(), &commands);
    let (ours, our_end) = through_session(&mut Board::new(), &commands);
    assert_eq!(theirs[0], b"+".to_vec());
    assert_eq!(ours[0], b"+".to_vec());
    assert_eq!(their_end, End::Disconnected);
    assert_eq!(our_end, End::Disconnected);
}

#[test]
fn agrees_that_step_and_continue_hand_over_control() {
    for command in [&b"s"[..], b"c"] {
        let (theirs, their_end) = through_gdbstub(&mut Board::new(), &[command]);
        let (ours, our_end) = through_session(&mut Board::new(), &[command]);
        assert_eq!(theirs[0], b"+".to_vec());
        assert_eq!(ours[0], b"+".to_vec());
        assert_eq!(their_end, End::Running);
        assert_eq!(our_end, End::Running);
    }
}

#[test]
fn the_library_reads_what_gdbstub_frames() {
    let (theirs, _) = through_gdbstub(&mut Board::new(), &[b"m0,10", b"g", b"Z0,0,1"]);
    assert_eq!(
        decode_packet(&theirs[0][1..]),
        Ok(b"000102030405060708090a0b0c0d0e0f".to_vec())
    );
    assert_eq!(decode_packet(&theirs[2][1..]), Ok(b"OK".to_vec()));
    assert!(decode_packet(&theirs[1][1..]).is_ok());
}
