//! The target side of the stub: what the engine asks of the target, what the
//! target answers, and the adapter state that the engine keeps for it.

use crate::breakpoints::BreakpointTable;
use vstd::prelude::*;

verus! {

/// The signal number reported when the connection to the host is lost.
pub const SIGNAL_HANGUP: u8 = 1;

/// The signal number reported for a halt that the host asked for.
pub const SIGNAL_INTERRUPT: u8 = 2;

/// The signal number of a trap: a completed step or a breakpoint.
pub const SIGNAL_TRAP: u8 = 5;

/// The signal number reported when the host breaks the protocol.
pub const SIGNAL_ABORT: u8 = 6;

/// The signal number reported when the host ends the session.
pub const SIGNAL_KILL: u8 = 9;

/// The signal number reported when the target adapter can no longer be used.
pub const SIGNAL_TERMINATED: u8 = 15;

/// Why execution halted.
#[derive(Clone, Copy, Debug, PartialEq, Eq, Structural)]
pub enum StopReason {
    /// One instruction was executed.
    Step,
    /// The breakpoint at this address was hit.
    Breakpoint(u64),
    /// The target received this signal.
    Signal(u8),
    /// The target is gone.
    Exited,
}

/// A failure of the target adapter.
#[derive(Clone, Copy, Debug, PartialEq, Eq, Structural)]
pub enum TargetError {
    /// A memory or register access did not succeed. The host is told, and
    /// the session goes on.
    NonFatal,
    /// The adapter cannot be used any more. The session ends.
    Fatal,
}

/// What the engine asks the driver to do with the target.
#[derive(Debug, PartialEq, Eq)]
pub enum TargetRequest {
    /// Read the whole register file.
    ReadRegisters,
    /// Write the whole register file.
    WriteRegisters(Vec<u8>),
    /// Read `length` bytes at `address`.
    ReadMemory { address: u64, length: usize },
    /// Write `data` at `address`.
    WriteMemory { address: u64, data: Vec<u8> },
    /// Let the target run, delivering `signal` if there is one, until
    /// something stops it.
    Resume { signal: Option<u8> },
    /// Execute exactly one instruction.
    SingleStep,
    /// Halt the target as well as can be done.
    Halt,
}

/// A [`TargetRequest`] with its bytes as sequences.
pub ghost enum RequestModel {
    ReadRegisters,
    WriteRegisters(Seq<u8>),
    ReadMemory { address: u64, length: usize },
    WriteMemory { address: u64, data: Seq<u8> },
    Resume { signal: Option<u8> },
    SingleStep,
    Halt,
}

impl View for TargetRequest {
    type V = RequestModel;

    open spec fn view(&self) -> RequestModel {
        match self {
            TargetRequest::ReadRegisters => RequestModel::ReadRegisters,
            TargetRequest::WriteRegisters(bytes) => RequestModel::WriteRegisters(bytes@),
            TargetRequest::ReadMemory { address, length } => RequestModel::ReadMemory {
                address: *address,
                length: *length,
            },
            TargetRequest::WriteMemory { address, data } => RequestModel::WriteMemory {
                address: *address,
                data: data@,
            },
            TargetRequest::Resume { signal } => RequestModel::Resume { signal: *signal },
            TargetRequest::SingleStep => RequestModel::SingleStep,
            TargetRequest::Halt => RequestModel::Halt,
        }
    }
}

/// What the driver reports back after carrying out a [`TargetRequest`].
#[derive(Debug, PartialEq, Eq)]
pub enum TargetReply {
    /// The bytes that were read: a register file or memory contents.
    Data(Vec<u8>),
    /// A write went through.
    Done,
    /// The access failed; the target is still usable.
    NonFatal,
    /// The adapter is unusable.
    Fatal,
    /// Execution halted after a step or a resume, for this reason.
    Stopped(StopReason),
    /// The target was halted on request; the reason, if the halt coincided
    /// with one.
    Halted(Option<StopReason>),
}

/// A [`TargetReply`] with its bytes as a sequence.
pub ghost enum ReplyModel {
    Data(Seq<u8>),
    Done,
    NonFatal,
    Fatal,
    Stopped(StopReason),
    Halted(Option<StopReason>),
}

impl View for TargetReply {
    type V = ReplyModel;

    open spec fn view(&self) -> ReplyModel {
        match self {
            TargetReply::Data(bytes) => ReplyModel::Data(bytes@),
            TargetReply::Done => ReplyModel::Done,
            TargetReply::NonFatal => ReplyModel::NonFatal,
            TargetReply::Fatal => ReplyModel::Fatal,
            TargetReply::Stopped(reason) => ReplyModel::Stopped(*reason),
            TargetReply::Halted(reason) => ReplyModel::Halted(*reason),
        }
    }
}

impl TargetReply {
    /// The answer to a read, from whether the access succeeded and the
    /// buffer it filled.
    pub fn from_read(result: Result<Vec<u8>, TargetError>) -> (reply: TargetReply)
        ensures
            reply@ == match result {
                Ok(data) => ReplyModel::Data(data@),
                Err(TargetError::NonFatal) => ReplyModel::NonFatal,
                Err(TargetError::Fatal) => ReplyModel::Fatal,
            },
    {
        match result {
            Ok(data) => TargetReply::Data(data),
            Err(TargetError::NonFatal) => TargetReply::NonFatal,
            Err(TargetError::Fatal) => TargetReply::Fatal,
        }
    }

    /// The answer to a write, from whether the access succeeded.
    pub fn from_write(result: Result<(), TargetError>) -> (reply: TargetReply)
        ensures
            reply@ == match result {
                Ok(()) => ReplyModel::Done,
                Err(TargetError::NonFatal) => ReplyModel::NonFatal,
                Err(TargetError::Fatal) => ReplyModel::Fatal,
            },
    {
        match result {
            Ok(()) => TargetReply::Done,
            Err(TargetError::NonFatal) => TargetReply::NonFatal,
            Err(TargetError::Fatal) => TargetReply::Fatal,
        }
    }
}

/// The adapter state as plain mathematics.
pub ghost struct TargetModel {
    /// The size of the register file in bytes.
    pub register_bytes: nat,
    /// The trap instruction that a software breakpoint writes.
    pub trap: Seq<u8>,
    /// The installed breakpoints: address to replaced bytes.
    pub table: Map<u64, Seq<u8>>,
}

/// The target adapter as the engine sees it: the architecture's register
/// file size and trap instruction, and the breakpoints installed.
#[derive(Debug)]
pub struct EfiTarget {
    register_bytes: usize,
    trap: Vec<u8>,
    breakpoints: BreakpointTable,
}

impl View for EfiTarget {
    type V = TargetModel;

    closed spec fn view(&self) -> TargetModel {
        TargetModel {
            register_bytes: self.register_bytes as nat,
            trap: self.trap@,
            table: self.breakpoints@,
        }
    }
}

impl EfiTarget {
    /// The breakpoint table holds no address twice.
    pub closed spec fn wf(&self) -> bool {
        self.breakpoints.wf()
    }

    /// The number of breakpoints installed.
    pub closed spec fn spec_breakpoint_count(&self) -> nat {
        self.breakpoints.spec_len()
    }

    /// An adapter for an architecture whose register file is
    /// `register_bytes` long and whose trap instruction is `trap`, with no
    /// breakpoint installed.
    pub fn new(register_bytes: usize, trap: Vec<u8>) -> (target: EfiTarget)
        ensures
            target.wf(),
            target@ == (TargetModel {
                register_bytes: register_bytes as nat,
                trap: trap@,
                table: Map::empty(),
            }),
            target.spec_breakpoint_count() == 0,
    {
        EfiTarget { register_bytes, trap, breakpoints: BreakpointTable::new() }
    }

    /// Every packet is acknowledged: the line may be shared or noisy.
    pub fn use_no_ack_mode(&self) -> (no_ack: bool)
        ensures
            !no_ack,
    {
        false
    }

    /// Memory is written with the hexadecimal `M` packet only.
    pub fn use_x_upcase_packet(&self) -> (binary: bool)
        ensures
            !binary,
    {
        false
    }

    /// Breakpoints are supported.
    pub fn support_breakpoints(&self) -> (supported: bool)
        ensures
            supported,
    {
        true
    }

    /// Software breakpoints are the kind that is supported.
    pub fn support_sw_breakpoint(&self) -> (supported: bool)
        ensures
            supported,
    {
        true
    }

    /// Monitor commands are not supported.
    pub fn support_monitor_cmd(&self) -> (supported: bool)
        ensures
            !supported,
    {
        false
    }

    /// The size of the register file in bytes.
    pub fn register_bytes(&self) -> (n: usize)
        ensures
            n == self@.register_bytes,
    {
        self.register_bytes
    }

    /// The trap instruction.
    pub fn trap(&self) -> (trap: &Vec<u8>)
        ensures
            trap@ == self@.trap,
    {
        &self.trap
    }

    /// The number of breakpoints installed.
    pub fn breakpoint_count(&self) -> (n: usize)
        ensures
            n == self.spec_breakpoint_count(),
    {
        self.breakpoints.len()
    }

    /// The table is empty exactly if the count is zero.
    pub proof fn lemma_breakpoint_count(&self)
        requires
            self.wf(),
        ensures
            (self.spec_breakpoint_count() == 0) == (self@.table == Map::<u64, Seq<u8>>::empty()),
    {
        self.breakpoints.lemma_len_zero();
    }

    /// Whether a breakpoint is installed at `address`.
    pub fn has_breakpoint(&self, address: u64) -> (present: bool)
        requires
            self.wf(),
        ensures
            present == self@.table.contains_key(address),
    {
        self.breakpoints.contains(address)
    }

    /// The outcome of a register-file read: `register_file` if the access
    /// succeeded and filled a whole register file.
    pub fn read_registers(&self, succeeded: bool, register_file: Vec<u8>) -> (result: Result<
        Vec<u8>,
        TargetError,
    >)
        ensures
            succeeded && register_file@.len() == self@.register_bytes ==> result == Ok::<
                Vec<u8>,
                TargetError,
            >(register_file),
            !succeeded ==> result == Err::<Vec<u8>, TargetError>(TargetError::NonFatal),
            succeeded && register_file@.len() != self@.register_bytes ==> result == Err::<
                Vec<u8>,
                TargetError,
            >(TargetError::Fatal),
    {
        if !succeeded {
            Err(TargetError::NonFatal)
        } else if register_file.len() != self.register_bytes {
            Err(TargetError::Fatal)
        } else {
            Ok(register_file)
        }
    }

    /// The outcome of a register-file write.
    pub fn write_registers(&self, succeeded: bool) -> (result: Result<(), TargetError>)
        ensures
            result == if succeeded {
                Ok::<(), TargetError>(())
            } else {
                Err::<(), TargetError>(TargetError::NonFatal)
            },
    {
        if succeeded {
            Ok(())
        } else {
            Err(TargetError::NonFatal)
        }
    }

    /// The outcome of a memory read into `data`: the number of bytes read if
    /// the access succeeded, a failure that the session survives if not.
    pub fn read_addrs(&self, succeeded: bool, data: &[u8]) -> (result: Result<usize, TargetError>)
        ensures
            result == if succeeded {
                Ok::<usize, TargetError>(data@.len() as usize)
            } else {
                Err::<usize, TargetError>(TargetError::NonFatal)
            },
    {
        if succeeded {
            Ok(data.len())
        } else {
            Err(TargetError::NonFatal)
        }
    }

    /// The outcome of a memory write.
    pub fn write_addrs(&self, succeeded: bool) -> (result: Result<(), TargetError>)
        ensures
            result == if succeeded {
                Ok::<(), TargetError>(())
            } else {
                Err::<(), TargetError>(TargetError::NonFatal)
            },
    {
        if succeeded {
            Ok(())
        } else {
            Err(TargetError::NonFatal)
        }
    }

    /// What installing a breakpoint at `address` takes first: reading the
    /// bytes that the trap instruction will replace. `None` where a
    /// breakpoint is installed there already, so that nothing is to be done.
    pub fn plan_insert(&self, address: u64) -> (request: Option<TargetRequest>)
        requires
            self.wf(),
        ensures
            self@.table.contains_key(address) ==> request is None,
            !self@.table.contains_key(address) ==> request is Some && request->0@
                == (RequestModel::ReadMemory { address, length: self@.trap.len() as usize }),
    {
        if self.breakpoints.contains(address) {
            None
        } else {
            Some(TargetRequest::ReadMemory { address, length: self.trap.len() })
        }
    }

    /// The write that puts the trap instruction at `address`.
    pub fn patch(&self, address: u64) -> (request: TargetRequest)
        ensures
            request@ == (RequestModel::WriteMemory { address, data: self@.trap }),
    {
        TargetRequest::WriteMemory { address, data: self.trap.clone() }
    }

    /// Records that the trap instruction now stands at `address` in place of
    /// `original_bytes`. Always succeeds: an address that is recorded
    /// already keeps its entry.
    pub fn add_sw_breakpoint(&mut self, address: u64, original_bytes: Vec<u8>) -> (installed: bool)
        requires
            old(self).wf(),
        ensures
            final(self).wf(),
            installed,
            final(self)@ == (TargetModel {
                table: if old(self)@.table.contains_key(address) {
                    old(self)@.table
                } else {
                    old(self)@.table.insert(address, original_bytes@)
                },
                ..old(self)@
            }),
    {
        self.breakpoints.add(address, original_bytes);
        true
    }

    /// What removing the breakpoint at `address` takes: writing back the
    /// bytes that the trap instruction replaced. `None` where no breakpoint
    /// is installed there, so that nothing is to be done.
    pub fn plan_remove(&self, address: u64) -> (request: Option<TargetRequest>)
        requires
            self.wf(),
        ensures
            !self@.table.contains_key(address) ==> request is None,
            self@.table.contains_key(address) ==> request is Some && request->0@
                == (RequestModel::WriteMemory { address, data: self@.table[address] }),
    {
        match self.breakpoints.original_bytes(address) {
            Some(data) => Some(TargetRequest::WriteMemory { address, data }),
            None => None,
        }
    }

    /// Forgets the breakpoint at `address`, whose bytes have been written
    /// back. Always succeeds: an address that is not recorded stays so.
    pub fn remove_sw_breakpoint(&mut self, address: u64) -> (removed: bool)
        requires
            old(self).wf(),
        ensures
            final(self).wf(),
            removed,
            final(self)@ == (TargetModel {
                table: old(self)@.table.remove(address),
                ..old(self)@
            }),
    {
        self.breakpoints.remove(address);
        true
    }

    /// Takes every breakpoint out of the table and hands them back, for
    /// their bytes to be restored.
    pub fn drain_breakpoints(&mut self) -> (entries: Vec<crate::breakpoints::Breakpoint>)
        requires
            old(self).wf(),
        ensures
            final(self).wf(),
            final(self)@ == (TargetModel { table: Map::empty(), ..old(self)@ }),
            final(self).spec_breakpoint_count() == 0,
            crate::breakpoints::spec_distinct(entries@),
            crate::breakpoints::spec_table_of(entries@) == old(self)@.table,
    {
        self.breakpoints.drain()
    }
}

} // verus!
