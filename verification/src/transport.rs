//! The connection state that the transport keeps, and how the results of
//! the driver's reads and writes are judged. Every transport error ends the
//! session: nothing is tried again here.

use vstd::prelude::*;

verus! {

/// The timeout handed to the line, in its own units, unless the driver sets another.
pub const DEFAULT_TIMEOUT: usize = 10;

/// A failure of the transport.
#[derive(Clone, Copy, Debug, PartialEq, Eq, Structural)]
pub enum TransportError {
    /// A read delivered no byte.
    NoData,
    /// A write took some of the bytes handed to it, and not all.
    PartialWrite,
    /// A write took none of the bytes handed to it.
    NoneWritten,
}

impl TransportError {
    /// A short description for a log.
    pub fn describe(&self) -> (text: &'static str)
        ensures
            text@ == match self {
                TransportError::NoData => "No data read"@,
                TransportError::PartialWrite => "Data partially written"@,
                TransportError::NoneWritten => "No data written"@,
            },
    {
        match self {
            TransportError::NoData => "No data read",
            TransportError::PartialWrite => "Data partially written",
            TransportError::NoneWritten => "No data written",
        }
    }
}

/// What one round of a blocking read comes to.
#[derive(Clone, Copy, Debug, PartialEq, Eq, Structural)]
pub enum BlockingRead {
    /// This byte was read.
    Byte(u8),
    /// Nothing yet: poll the line again.
    PollAgain,
}

/// The connection state: the read timeout and one byte of lookahead.
#[derive(Clone, Copy, Debug, PartialEq, Eq, Structural)]
pub struct DebuggerTransport {
    /// The timeout handed to the line on each read.
    pub timeout: usize,
    /// A byte that was taken off the line and not yet handed out.
    pub peek_value: Option<u8>,
}

impl DebuggerTransport {
    /// A connection with the default timeout and no byte held.
    pub fn new() -> (transport: DebuggerTransport)
        ensures
            transport == (DebuggerTransport { timeout: DEFAULT_TIMEOUT, peek_value: None }),
    {
        DebuggerTransport { timeout: DEFAULT_TIMEOUT, peek_value: None }
    }

    /// Whether a read would deliver a byte at once: one is held, or the line
    /// has one ready.
    pub fn poll(&self, line_ready: bool) -> (ready: bool)
        ensures
            ready == (self.peek_value is Some || line_ready),
    {
        self.peek_value.is_some() || line_ready
    }

    /// Whether the driver has to take a byte off the line for the next read
    /// or peek: it has while no byte is held.
    pub fn needs_fetch(&self) -> (needed: bool)
        ensures
            needed == (self.peek_value is None),
    {
        self.peek_value.is_none()
    }

    /// Looks at the next byte without consuming it. While no byte is held,
    /// the driver has fetched from the line: `count` bytes came, and `byte`
    /// is the one if `count` is 1, which is then held. While a byte is held,
    /// nothing was to be fetched, and `count` and `byte` are not looked at.
    pub fn peek(&mut self, count: usize, byte: u8) -> (next: Option<u8>)
        ensures
            final(self).timeout == old(self).timeout,
            final(self).peek_value == next,
            next == match old(self).peek_value {
                Some(held) => Some(held),
                None => if count == 1 {
                    Some(byte)
                } else {
                    None
                },
            },
    {
        if self.peek_value.is_none() && count == 1 {
            self.peek_value = Some(byte);
        }
        self.peek_value
    }

    /// Reads one byte. The held byte goes first and is held no longer. While
    /// no byte is held, the driver has fetched from the line: `count` bytes
    /// came, and `byte` is the one if `count` is 1.
    pub fn read(&mut self, count: usize, byte: u8) -> (result: Result<u8, TransportError>)
        ensures
            final(self).timeout == old(self).timeout,
            final(self).peek_value is None,
            result == match old(self).peek_value {
                Some(held) => Ok::<u8, TransportError>(held),
                None => if count == 1 {
                    Ok::<u8, TransportError>(byte)
                } else {
                    Err::<u8, TransportError>(TransportError::NoData)
                },
            },
    {
        match self.peek_value {
            Some(held) => {
                self.peek_value = None;
                Ok(held)
            },
            None => if count == 1 {
                Ok(byte)
            } else {
                Err(TransportError::NoData)
            },
        }
    }

    /// One round of a read that waits for the host: the held byte if there
    /// is one; else, if the line was ready and the fetch brought one byte,
    /// that byte; else the driver polls again.
    pub fn read_blocking(&mut self, line_ready: bool, count: usize, byte: u8) -> (round:
        BlockingRead)
        ensures
            final(self).timeout == old(self).timeout,
            final(self).peek_value is None,
            round == match old(self).peek_value {
                Some(held) => BlockingRead::Byte(held),
                None => if line_ready && count == 1 {
                    BlockingRead::Byte(byte)
                } else {
                    BlockingRead::PollAgain
                },
            },
    {
        match self.peek_value {
            Some(held) => {
                self.peek_value = None;
                BlockingRead::Byte(held)
            },
            None => if line_ready && count == 1 {
                BlockingRead::Byte(byte)
            } else {
                BlockingRead::PollAgain
            },
        }
    }

    /// Judges the write of one byte, of which the line took `written`.
    pub fn write(&self, written: usize) -> (result: Result<(), TransportError>)
        ensures
            result == spec_write_result(1, written as nat),
    {
        self.write_all(1, written)
    }

    /// Judges a write of `requested` bytes, of which the line took `written`.
    pub fn write_all(&self, requested: usize, written: usize) -> (result: Result<
        (),
        TransportError,
    >)
        ensures
            result == spec_write_result(requested as nat, written as nat),
    {
        if written == requested {
            Ok(())
        } else if written > 0 {
            Err(TransportError::PartialWrite)
        } else {
            Err(TransportError::NoneWritten)
        }
    }

    /// Nothing is buffered here, so there is nothing to flush.
    pub fn flush(&self) -> (result: Result<(), TransportError>)
        ensures
            result is Ok,
    {
        Ok(())
    }
}

/// A write succeeded if every byte was taken; one that took some and not all
/// is told apart from one that took none.
pub open spec fn spec_write_result(requested: nat, written: nat) -> Result<(), TransportError> {
    if written == requested {
        Ok(())
    } else if written > 0 {
        Err(TransportError::PartialWrite)
    } else {
        Err(TransportError::NoneWritten)
    }
}

} // verus!
