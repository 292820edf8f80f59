//! The commands that the stub understands, and how a packet's payload is
//! read as one of them.

use crate::hex::{
    decode_hex, lemma_decode_encode_hex, lemma_hex_of_number, lemma_parse_hex_of, parse_hex,
    spec_decode_hex, spec_encode_hex, spec_hex_of, spec_hex_value, spec_parse_hex,
};
use crate::packet::ProtocolError;
use vstd::prelude::*;
use vstd::slice::slice_subrange;

verus! {

/// A command of the host, taken from a packet's payload.
#[derive(Debug, PartialEq, Eq)]
pub enum Command {
    /// `g`: read the whole register file.
    ReadRegisters,
    /// `G`: write the whole register file from these bytes.
    WriteRegisters(Vec<u8>),
    /// `m`: read `length` bytes of memory at `address`.
    ReadMemory { address: u64, length: u64 },
    /// `M`: write `data` to memory at `address`.
    WriteMemory { address: u64, data: Vec<u8> },
    /// `Z0`: install a software breakpoint.
    InsertBreakpoint { address: u64 },
    /// `z0`: take a software breakpoint away.
    RemoveBreakpoint { address: u64 },
    /// `s`: execute one instruction.
    Step,
    /// `c`, or `C` with a signal to deliver: let the target run.
    Continue { signal: Option<u8> },
    /// `D`: the host lets go of the target.
    Detach,
    /// `k`: the host ends the session.
    Kill,
    /// `?`: why is the target halted.
    QueryStopReason,
    /// `qSupported`: capability negotiation.
    QuerySupported,
    /// Anything else, monitor commands included: answered with an empty packet.
    Unsupported,
}

/// A [`Command`] with its bytes as sequences.
pub ghost enum CommandModel {
    ReadRegisters,
    WriteRegisters(Seq<u8>),
    ReadMemory { address: u64, length: u64 },
    WriteMemory { address: u64, data: Seq<u8> },
    InsertBreakpoint { address: u64 },
    RemoveBreakpoint { address: u64 },
    Step,
    Continue { signal: Option<u8> },
    Detach,
    Kill,
    QueryStopReason,
    QuerySupported,
    Unsupported,
}

impl View for Command {
    type V = CommandModel;

    open spec fn view(&self) -> CommandModel {
        match self {
            Command::ReadRegisters => CommandModel::ReadRegisters,
            Command::WriteRegisters(bytes) => CommandModel::WriteRegisters(bytes@),
            Command::ReadMemory { address, length } => CommandModel::ReadMemory {
                address: *address,
                length: *length,
            },
            Command::WriteMemory { address, data } => CommandModel::WriteMemory {
                address: *address,
                data: data@,
            },
            Command::InsertBreakpoint { address } => CommandModel::InsertBreakpoint {
                address: *address,
            },
            Command::RemoveBreakpoint { address } => CommandModel::RemoveBreakpoint {
                address: *address,
            },
            Command::Step => CommandModel::Step,
            Command::Continue { signal } => CommandModel::Continue { signal: *signal },
            Command::Detach => CommandModel::Detach,
            Command::Kill => CommandModel::Kill,
            Command::QueryStopReason => CommandModel::QueryStopReason,
            Command::QuerySupported => CommandModel::QuerySupported,
            Command::Unsupported => CommandModel::Unsupported,
        }
    }
}

/// `,` separates the fields of a command.
pub const COMMA: u8 = 0x2c;

/// `:` separates a command's fields from its data.
pub const COLON: u8 = 0x3a;

/// `byte` occurs in `text` at `i` and nowhere before.
pub open spec fn spec_first_at(text: Seq<u8>, byte: u8, i: int) -> bool {
    &&& 0 <= i < text.len()
    &&& text[i] == byte
    &&& forall|j: int| 0 <= j < i ==> text[j] != byte
}

/// Where `byte` first occurs in `text`.
pub open spec fn spec_find(text: Seq<u8>, byte: u8) -> Option<int> {
    if exists|i: int| spec_first_at(text, byte, i) {
        Some(choose|i: int| spec_first_at(text, byte, i))
    } else {
        None
    }
}

/// `text` begins with `prefix`.
pub open spec fn spec_starts_with(text: Seq<u8>, prefix: Seq<u8>) -> bool {
    prefix.len() <= text.len() && text.subrange(0, prefix.len() as int) == prefix
}

/// The two numbers of `number,number`.
pub open spec fn spec_parse_pair(text: Seq<u8>) -> Option<(u64, u64)> {
    match spec_find(text, COMMA) {
        None => None,
        Some(comma) => match (
            spec_parse_hex(text.subrange(0, comma)),
            spec_parse_hex(text.subrange(comma + 1, text.len() as int)),
        ) {
            (Some(first), Some(second)) => Some((first, second)),
            _ => None,
        },
    }
}

/// The address and data of `address,length:data`, where `data` is `length`
/// bytes in hexadecimal.
pub open spec fn spec_parse_write(text: Seq<u8>) -> Option<(u64, Seq<u8>)> {
    match spec_find(text, COLON) {
        None => None,
        Some(colon) => match (
            spec_parse_pair(text.subrange(0, colon)),
            spec_decode_hex(text.subrange(colon + 1, text.len() as int)),
        ) {
            (Some((address, length)), Some(data)) => if data.len() == length {
                Some((address, data))
            } else {
                None
            },
            _ => None,
        },
    }
}

/// The name of the capability query, `qSupported`.
pub open spec fn spec_supported_query() -> Seq<u8> {
    seq![0x71u8, 0x53, 0x75, 0x70, 0x70, 0x6f, 0x72, 0x74, 0x65, 0x64]
}

/// The command that the payload `body` spells; a payload that starts as a
/// known command and does not follow its grammar is malformed.
pub open spec fn spec_parse_command(body: Seq<u8>) -> Result<CommandModel, ProtocolError> {
    if body.len() == 0 {
        Ok(CommandModel::Unsupported)
    } else {
        let rest = body.subrange(1, body.len() as int);
        let kind = body[0];
        if kind == 0x67 {
            if rest.len() == 0 {
                Ok(CommandModel::ReadRegisters)
            } else {
                Err(ProtocolError::Malformed)
            }
        } else if kind == 0x47 {
            match spec_decode_hex(rest) {
                Some(bytes) => Ok(CommandModel::WriteRegisters(bytes)),
                None => Err(ProtocolError::Malformed),
            }
        } else if kind == 0x6d {
            match spec_parse_pair(rest) {
                Some((address, length)) => Ok(CommandModel::ReadMemory { address, length }),
                None => Err(ProtocolError::Malformed),
            }
        } else if kind == 0x4d {
            match spec_parse_write(rest) {
                Some((address, data)) => Ok(CommandModel::WriteMemory { address, data }),
                None => Err(ProtocolError::Malformed),
            }
        } else if kind == 0x5a || kind == 0x7a {
            if rest.len() < 2 || rest[1] != COMMA {
                Err(ProtocolError::Malformed)
            } else if rest[0] != 0x30 {
                Ok(CommandModel::Unsupported)
            } else {
                match spec_parse_pair(rest.subrange(2, rest.len() as int)) {
                    Some((address, _)) => if kind == 0x5a {
                        Ok(CommandModel::InsertBreakpoint { address })
                    } else {
                        Ok(CommandModel::RemoveBreakpoint { address })
                    },
                    None => Err(ProtocolError::Malformed),
                }
            }
        } else if kind == 0x73 {
            if rest.len() == 0 {
                Ok(CommandModel::Step)
            } else {
                Ok(CommandModel::Unsupported)
            }
        } else if kind == 0x63 {
            if rest.len() == 0 {
                Ok(CommandModel::Continue { signal: None })
            } else {
                Ok(CommandModel::Unsupported)
            }
        } else if kind == 0x43 {
            match spec_decode_hex(rest) {
                Some(bytes) => if bytes.len() == 1 {
                    Ok(CommandModel::Continue { signal: Some(bytes[0]) })
                } else {
                    Ok(CommandModel::Unsupported)
                },
                None => Ok(CommandModel::Unsupported),
            }
        } else if kind == 0x44 {
            Ok(CommandModel::Detach)
        } else if kind == 0x6b {
            Ok(CommandModel::Kill)
        } else if kind == 0x3f {
            Ok(CommandModel::QueryStopReason)
        } else if spec_starts_with(body, spec_supported_query()) {
            Ok(CommandModel::QuerySupported)
        } else {
            Ok(CommandModel::Unsupported)
        }
    }
}

/// Finds where `byte` first occurs in `text`.
pub fn find(text: &[u8], byte: u8) -> (at: Option<usize>)
    ensures
        at is Some == spec_find(text@, byte) is Some,
        at matches Some(i) ==> spec_find(text@, byte) == Some(i as int) && i < text@.len(),
{
    let mut i: usize = 0;
    while i < text.len()
        invariant
            i <= text.len(),
            forall|j: int| 0 <= j < i ==> text@[j] != byte,
        decreases text.len() - i,
    {
        if text[i] == byte {
            proof {
                assert(spec_first_at(text@, byte, i as int));
                let k = choose|k: int| spec_first_at(text@, byte, k);
                assert(k == i);
            }
            return Some(i);
        }
        i = i + 1;
    }
    None
}

/// Reads `number,number`.
pub fn parse_pair(text: &[u8]) -> (pair: Option<(u64, u64)>)
    ensures
        pair == spec_parse_pair(text@),
{
    match find(text, COMMA) {
        None => None,
        Some(comma) => {
            let end: usize = text.len();
            let first = parse_hex(slice_subrange(text, 0, comma));
            let second = parse_hex(slice_subrange(text, comma + 1, end));
            match (first, second) {
                (Some(a), Some(b)) => Some((a, b)),
                _ => None,
            }
        },
    }
}

/// Reads `address,length:data`.
pub fn parse_write(text: &[u8]) -> (write: Option<(u64, Vec<u8>)>)
    ensures
        write is Some == spec_parse_write(text@) is Some,
        write matches Some((address, data)) ==> spec_parse_write(text@) == Some((address, data@)),
{
    match find(text, COLON) {
        None => None,
        Some(colon) => {
            let end: usize = text.len();
            let pair = parse_pair(slice_subrange(text, 0, colon));
            let data = decode_hex(slice_subrange(text, colon + 1, end));
            match (pair, data) {
                (Some((address, length)), Some(data)) => {
                    if data.len() as u64 == length {
                        Some((address, data))
                    } else {
                        None
                    }
                },
                _ => None,
            }
        },
    }
}

/// Whether `body` begins with `qSupported`.
fn is_supported_query(body: &[u8]) -> (yes: bool)
    ensures
        yes == spec_starts_with(body@, spec_supported_query()),
{
    let name: [u8; 10] = [0x71, 0x53, 0x75, 0x70, 0x70, 0x6f, 0x72, 0x74, 0x65, 0x64];
    assert(name@ =~= spec_supported_query());
    if body.len() < 10 {
        return false;
    }
    let mut i: usize = 0;
    while i < 10
        invariant
            i <= 10 <= body.len(),
            name@ == spec_supported_query(),
            forall|j: int| 0 <= j < i ==> body@[j] == name@[j],
        decreases 10 - i,
    {
        if body[i] != name[i] {
            assert(body@.subrange(0, 10)[i as int] != spec_supported_query()[i as int]);
            return false;
        }
        i = i + 1;
    }
    assert(body@.subrange(0, 10) =~= spec_supported_query());
    true
}

/// Reads a packet's payload as a command.
pub fn parse_command(body: &[u8]) -> (command: Result<Command, ProtocolError>)
    ensures
        command is Ok == spec_parse_command(body@) is Ok,
        command matches Ok(c) ==> spec_parse_command(body@) == Ok::<CommandModel, ProtocolError>(
            c@,
        ),
        command matches Err(e) ==> spec_parse_command(body@) == Err::<CommandModel, ProtocolError>(
            e,
        ),
{
    if body.len() == 0 {
        return Ok(Command::Unsupported);
    }
    let rest = slice_subrange(body, 1, body.len());
    let kind: u8 = body[0];
    if kind == 0x67 {
        if rest.len() == 0 {
            Ok(Command::ReadRegisters)
        } else {
            Err(ProtocolError::Malformed)
        }
    } else if kind == 0x47 {
        match decode_hex(rest) {
            Some(bytes) => Ok(Command::WriteRegisters(bytes)),
            None => Err(ProtocolError::Malformed),
        }
    } else if kind == 0x6d {
        match parse_pair(rest) {
            Some((address, length)) => Ok(Command::ReadMemory { address, length }),
            None => Err(ProtocolError::Malformed),
        }
    } else if kind == 0x4d {
        match parse_write(rest) {
            Some((address, data)) => Ok(Command::WriteMemory { address, data }),
            None => Err(ProtocolError::Malformed),
        }
    } else if kind == 0x5a || kind == 0x7a {
        if rest.len() < 2 || rest[1] != COMMA {
            Err(ProtocolError::Malformed)
        } else if rest[0] != 0x30 {
            Ok(Command::Unsupported)
        } else {
            match parse_pair(slice_subrange(rest, 2, rest.len())) {
                Some((address, _)) => if kind == 0x5a {
                    Ok(Command::InsertBreakpoint { address })
                } else {
                    Ok(Command::RemoveBreakpoint { address })
                },
                None => Err(ProtocolError::Malformed),
            }
        }
    } else if kind == 0x73 {
        if rest.len() == 0 {
            Ok(Command::Step)
        } else {
            Ok(Command::Unsupported)
        }
    } else if kind == 0x63 {
        if rest.len() == 0 {
            Ok(Command::Continue { signal: None })
        } else {
            Ok(Command::Unsupported)
        }
    } else if kind == 0x43 {
        match decode_hex(rest) {
            Some(bytes) => if bytes.len() == 1 {
                Ok(Command::Continue { signal: Some(bytes[0]) })
            } else {
                Ok(Command::Unsupported)
            },
            None => Ok(Command::Unsupported),
        }
    } else if kind == 0x44 {
        Ok(Command::Detach)
    } else if kind == 0x6b {
        Ok(Command::Kill)
    } else if kind == 0x3f {
        Ok(Command::QueryStopReason)
    } else if is_supported_query(body) {
        Ok(Command::QuerySupported)
    } else {
        Ok(Command::Unsupported)
    }
}

/// The payload that spells `command`, as a host writes it: numbers
/// without leading zeros, a breakpoint of kind 1, and `qSupported` without a
/// feature list. The command that is no command is spelled by the empty
/// payload.
pub open spec fn spec_render_command(command: CommandModel) -> Seq<u8> {
    match command {
        CommandModel::ReadRegisters => seq![0x67u8],
        CommandModel::WriteRegisters(bytes) => seq![0x47u8] + spec_encode_hex(bytes),
        CommandModel::ReadMemory { address, length } => seq![0x6du8] + spec_render_pair(
            address,
            length,
        ),
        CommandModel::WriteMemory { address, data } => seq![0x4du8] + spec_render_pair(
            address,
            data.len() as u64,
        ) + seq![COLON] + spec_encode_hex(data),
        CommandModel::InsertBreakpoint { address } => seq![0x5au8, 0x30, COMMA]
            + spec_render_pair(address, 1),
        CommandModel::RemoveBreakpoint { address } => seq![0x7au8, 0x30, COMMA]
            + spec_render_pair(address, 1),
        CommandModel::Step => seq![0x73u8],
        CommandModel::Continue { signal: None } => seq![0x63u8],
        CommandModel::Continue { signal: Some(signal) } => seq![0x43u8] + spec_encode_hex(
            seq![signal],
        ),
        CommandModel::Detach => seq![0x44u8],
        CommandModel::Kill => seq![0x6bu8],
        CommandModel::QueryStopReason => seq![0x3fu8],
        CommandModel::QuerySupported => spec_supported_query(),
        CommandModel::Unsupported => Seq::empty(),
    }
}

/// `first,second`, both in hexadecimal.
pub open spec fn spec_render_pair(first: u64, second: u64) -> Seq<u8> {
    spec_hex_of(first as nat) + seq![COMMA] + spec_hex_of(second as nat)
}

/// A separator that is no hexadecimal digit is first found right after a
/// run of digits that it follows.
pub proof fn lemma_find_after_digits(digits: Seq<u8>, separator: u8, rest: Seq<u8>)
    requires
        forall|i: int| 0 <= i < digits.len() ==> digits[i] != separator,
    ensures
        spec_find(digits + seq![separator] + rest, separator) == Some(digits.len() as int),
        (digits + seq![separator] + rest).subrange(0, digits.len() as int) == digits,
        (digits + seq![separator] + rest).subrange(
            digits.len() as int + 1,
            (digits + seq![separator] + rest).len() as int,
        ) == rest,
{
    let text = digits + seq![separator] + rest;
    let at = digits.len() as int;
    assert(spec_first_at(text, separator, at));
    let found = choose|i: int| spec_first_at(text, separator, i);
    assert(found == at);
    assert(text.subrange(0, at) =~= digits);
    assert(text.subrange(at + 1, text.len() as int) =~= rest);
}

/// A pair of numbers is read back as it was written.
pub proof fn lemma_parse_rendered_pair(first: u64, second: u64)
    ensures
        spec_parse_pair(spec_render_pair(first, second)) == Some((first, second)),
        forall|i: int|
            0 <= i < spec_render_pair(first, second).len() ==> spec_render_pair(first, second)[i]
                != COLON,
{
    let a = spec_hex_of(first as nat);
    let b = spec_hex_of(second as nat);
    lemma_hex_of_number(first as nat);
    lemma_hex_of_number(second as nat);
    lemma_parse_hex_of(first);
    lemma_parse_hex_of(second);
    assert forall|i: int| 0 <= i < a.len() implies a[i] != COMMA by {
        assert(spec_hex_value(a[i]) is Some);
    }
    lemma_find_after_digits(a, COMMA, b);
    let text = spec_render_pair(first, second);
    assert forall|i: int| 0 <= i < text.len() implies text[i] != COLON by {
        if i < a.len() {
            assert(spec_hex_value(a[i]) is Some);
        } else if i > a.len() {
            assert(text[i] == b[i - a.len() - 1]);
            assert(spec_hex_value(b[i - a.len() - 1]) is Some);
        }
    }
}

/// The grammar goes round: what spells a command is read as that
/// command. A write is bounded by what its length field can say.
pub proof fn lemma_parse_rendered_command(command: CommandModel)
    requires
        command matches CommandModel::WriteMemory { data, .. } ==> data.len() <= u64::MAX,
    ensures
        spec_parse_command(spec_render_command(command)) == Ok::<CommandModel, ProtocolError>(
            command,
        ),
{
    let body = spec_render_command(command);
    let rest = body.subrange(1, body.len() as int);
    match command {
        CommandModel::ReadRegisters => {
            assert(rest =~= Seq::<u8>::empty());
        },
        CommandModel::WriteRegisters(bytes) => {
            assert(rest =~= spec_encode_hex(bytes));
            lemma_decode_encode_hex(bytes);
        },
        CommandModel::ReadMemory { address, length } => {
            assert(rest =~= spec_render_pair(address, length));
            lemma_parse_rendered_pair(address, length);
        },
        CommandModel::WriteMemory { address, data } => {
            let pair = spec_render_pair(address, data.len() as u64);
            let hex = spec_encode_hex(data);
            assert(rest =~= pair + seq![COLON] + hex);
            lemma_parse_rendered_pair(address, data.len() as u64);
            lemma_find_after_digits(pair, COLON, hex);
            lemma_decode_encode_hex(data);
        },
        CommandModel::InsertBreakpoint { address } => {
            assert(rest.subrange(2, rest.len() as int) =~= spec_render_pair(address, 1));
            lemma_parse_rendered_pair(address, 1);
        },
        CommandModel::RemoveBreakpoint { address } => {
            assert(rest.subrange(2, rest.len() as int) =~= spec_render_pair(address, 1));
            lemma_parse_rendered_pair(address, 1);
        },
        CommandModel::Step => {
            assert(rest =~= Seq::<u8>::empty());
        },
        CommandModel::Continue { signal: None } => {
            assert(rest =~= Seq::<u8>::empty());
        },
        CommandModel::Continue { signal: Some(signal) } => {
            assert(rest =~= spec_encode_hex(seq![signal]));
            lemma_decode_encode_hex(seq![signal]);
        },
        CommandModel::QuerySupported => {
            assert(body.subrange(0, 10) =~= spec_supported_query());
        },
        _ => {},
    }
}

} // verus!
