use debug_agent::command::{find, parse_command, parse_pair, parse_write, Command};
use debug_agent::packet::ProtocolError;

#[test]
fn find_gives_the_first_place() {
    assert_eq!(find(b"a,b,c", b','), Some(1));
    assert_eq!(find(b",", b','), Some(0));
    assert_eq!(find(b"abc", b','), None);
    assert_eq!(find(b"", b','), None);
}

#[test]
fn pairs_of_numbers() {
    assert_eq!(parse_pair(b"1000,40"), Some((0x1000, 0x40)));
    assert_eq!(parse_pair(b"0,0"), Some((0, 0)));
    assert_eq!(parse_pair(b"1000"), None);
    assert_eq!(parse_pair(b",40"), None);
    assert_eq!(parse_pair(b"1000,"), None);
    assert_eq!(parse_pair(b"10,4,2"), None);
    assert_eq!(parse_pair(b"1g,4"), None);
}

#[test]
fn writes_carry_as_many_bytes_as_they_say() {
    assert_eq!(parse_write(b"1000,2:abCD"), Some((0x1000, vec![0xab, 0xcd])));
    assert_eq!(parse_write(b"1000,0:"), Some((0x1000, vec![])));
    assert_eq!(parse_write(b"1000,3:abcd"), None);
    assert_eq!(parse_write(b"1000,2:abc"), None);
    assert_eq!(parse_write(b"1000,2abcd"), None);
    assert_eq!(parse_write(b"1000:2,abcd"), None);
}

#[test]
fn register_commands() {
    assert_eq!(parse_command(b"g"), Ok(Command::ReadRegisters));
    assert_eq!(parse_command(b"g0"), Err(ProtocolError::Malformed));
    assert_eq!(
        parse_command(b"G0102ff"),
        Ok(Command::WriteRegisters(vec![1, 2, 0xff]))
    );
    assert_eq!(parse_command(b"G"), Ok(Command::WriteRegisters(vec![])));
    assert_eq!(parse_command(b"G012"), Err(ProtocolError::Malformed));
    assert_eq!(parse_command(b"Gxy"), Err(ProtocolError::Malformed));
}

#[test]
fn memory_commands() {
    assert_eq!(
        parse_command(b"m7ffe0000,10"),
        Ok(Command::ReadMemory {
            address: 0x7ffe_0000,
            length: 0x10
        })
    );
    assert_eq!(parse_command(b"m7ffe0000"), Err(ProtocolError::Malformed));
    assert_eq!(parse_command(b"m"), Err(ProtocolError::Malformed));
    assert_eq!(
        parse_command(b"M10,1:cc"),
        Ok(Command::WriteMemory {
            address: 0x10,
            data: vec![0xcc]
        })
    );
    assert_eq!(parse_command(b"M10,2:cc"), Err(ProtocolError::Malformed));
}

#[test]
fn breakpoint_commands() {
    assert_eq!(
        parse_command(b"Z0,401000,1"),
        Ok(Command::InsertBreakpoint { address: 0x40_1000 })
    );
    assert_eq!(
        parse_command(b"z0,401000,1"),
        Ok(Command::RemoveBreakpoint { address: 0x40_1000 })
    );
    assert_eq!(parse_command(b"Z1,401000,1"), Ok(Command::Unsupported));
    assert_eq!(parse_command(b"z4,401000,1"), Ok(Command::Unsupported));
    assert_eq!(parse_command(b"Z0,401000"), Err(ProtocolError::Malformed));
    assert_eq!(parse_command(b"Z0;401000,1"), Err(ProtocolError::Malformed));
    assert_eq!(parse_command(b"Z"), Err(ProtocolError::Malformed));
    assert_eq!(parse_command(b"z0,zz,1"), Err(ProtocolError::Malformed));
}

#[test]
fn run_control_commands() {
    assert_eq!(parse_command(b"s"), Ok(Command::Step));
    assert_eq!(parse_command(b"s401000"), Ok(Command::Unsupported));
    assert_eq!(parse_command(b"c"), Ok(Command::Continue { signal: None }));
    assert_eq!(parse_command(b"c401000"), Ok(Command::Unsupported));
    assert_eq!(
        parse_command(b"C0b"),
        Ok(Command::Continue { signal: Some(11) })
    );
    assert_eq!(parse_command(b"C0b;401000"), Ok(Command::Unsupported));
    assert_eq!(parse_command(b"C"), Ok(Command::Unsupported));
    assert_eq!(parse_command(b"D"), Ok(Command::Detach));
    assert_eq!(parse_command(b"D;1"), Ok(Command::Detach));
    assert_eq!(parse_command(b"k"), Ok(Command::Kill));
    assert_eq!(parse_command(b"?"), Ok(Command::QueryStopReason));
}

#[test]
fn queries() {
    assert_eq!(parse_command(b"qSupported"), Ok(Command::QuerySupported));
    assert_eq!(
        parse_command(b"qSupported:multiprocess+;swbreak+"),
        Ok(Command::QuerySupported)
    );
    assert_eq!(parse_command(b"qSupporte"), Ok(Command::Unsupported));
    assert_eq!(parse_command(b"qRcmd,68656c70"), Ok(Command::Unsupported));
    assert_eq!(parse_command(b"vCont?"), Ok(Command::Unsupported));
    assert_eq!(parse_command(b""), Ok(Command::Unsupported));
    assert_eq!(parse_command(b"X10,1:a"), Ok(Command::Unsupported));
}
