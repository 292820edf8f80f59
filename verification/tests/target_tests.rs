use debug_agent::breakpoints::{Breakpoint, BreakpointTable};
use debug_agent::target::{EfiTarget, TargetError, TargetReply, TargetRequest};
use debug_agent::transport::{BlockingRead, DebuggerTransport, TransportError, DEFAULT_TIMEOUT};

#[test]
fn the_table_starts_empty() {
    let table = BreakpointTable::new();
    assert_eq!(table.len(), 0);
    assert!(table.is_empty());
    assert!(!table.contains(0x1000));
    assert_eq!(table.original_bytes(0x1000), None);
}

#[test]
fn adding_records_the_replaced_bytes() {
    let mut table = BreakpointTable::new();
    assert!(table.add(0x1000, vec![0x55]));
    assert!(table.add(0x2000, vec![0x48, 0x89]));
    assert_eq!(table.len(), 2);
    assert!(table.contains(0x1000));
    assert_eq!(table.original_bytes(0x1000), Some(vec![0x55]));
    assert_eq!(table.original_bytes(0x2000), Some(vec![0x48, 0x89]));
    assert!(!table.contains(0x1001));
}

#[test]
fn adding_twice_is_adding_once() {
    let mut table = BreakpointTable::new();
    assert!(table.add(0x1000, vec![0x55]));
    assert!(!table.add(0x1000, vec![0xcc]));
    assert_eq!(table.len(), 1);
    assert_eq!(table.original_bytes(0x1000), Some(vec![0x55]));
}

#[test]
fn removing_hands_back_the_bytes() {
    let mut table = BreakpointTable::new();
    table.add(0x1000, vec![0x55]);
    table.add(0x2000, vec![0x90]);
    table.add(0x3000, vec![0xc3]);
    assert_eq!(table.remove(0x2000), Some(vec![0x90]));
    assert_eq!(table.remove(0x2000), None);
    assert_eq!(table.len(), 2);
    assert!(table.contains(0x1000));
    assert!(table.contains(0x3000));
    assert_eq!(table.remove(0x4000), None);
    assert_eq!(table.len(), 2);
}

#[test]
fn draining_empties_the_table() {
    let mut table = BreakpointTable::new();
    table.add(0x1000, vec![0x55]);
    table.add(0x2000, vec![0x90]);
    let mut entries = table.drain();
    entries.sort_by_key(|e| e.address);
    assert_eq!(
        entries,
        vec![
            Breakpoint {
                address: 0x1000,
                original_bytes: vec![0x55]
            },
            Breakpoint {
                address: 0x2000,
                original_bytes: vec![0x90]
            },
        ]
    );
    assert!(table.is_empty());
}

#[test]
fn patching_and_restoring_memory_through_the_table() {
    let mut memory: Vec<u8> = (0..32u8).collect();
    let before = memory.clone();
    let trap = [0x00u8, 0x00, 0x20, 0xd4];
    let address = 8usize;
    let mut table = BreakpointTable::new();
    let saved = memory[address..address + trap.len()].to_vec();
    memory[address..address + trap.len()].copy_from_slice(&trap);
    assert!(table.add(address as u64, saved));
    assert_ne!(memory, before);
    let original = table.remove(address as u64).unwrap();
    memory[address..address + original.len()].copy_from_slice(&original);
    assert_eq!(memory, before);
    assert!(table.is_empty());
}

#[test]
fn the_adapter_reports_its_capabilities() {
    let target = EfiTarget::new(0x218, vec![0xcc]);
    assert!(!target.use_no_ack_mode());
    assert!(!target.use_x_upcase_packet());
    assert!(target.support_breakpoints());
    assert!(target.support_sw_breakpoint());
    assert!(!target.support_monitor_cmd());
    assert_eq!(target.register_bytes(), 0x218);
    assert_eq!(target.trap(), &vec![0xcc]);
    assert_eq!(target.breakpoint_count(), 0);
}

#[test]
fn access_results_are_classified() {
    let target = EfiTarget::new(4, vec![0xcc]);
    assert_eq!(target.read_addrs(true, &[1, 2, 3]), Ok(3));
    assert_eq!(target.read_addrs(false, &[1, 2, 3]), Err(TargetError::NonFatal));
    assert_eq!(target.write_addrs(true), Ok(()));
    assert_eq!(target.write_addrs(false), Err(TargetError::NonFatal));
    assert_eq!(target.read_registers(true, vec![1, 2, 3, 4]), Ok(vec![1, 2, 3, 4]));
    assert_eq!(target.read_registers(false, vec![1, 2, 3, 4]), Err(TargetError::NonFatal));
    assert_eq!(target.read_registers(true, vec![1, 2, 3]), Err(TargetError::Fatal));
    assert_eq!(target.write_registers(true), Ok(()));
    assert_eq!(target.write_registers(false), Err(TargetError::NonFatal));
}

#[test]
fn replies_from_results() {
    assert_eq!(TargetReply::from_read(Ok(vec![1, 2])), TargetReply::Data(vec![1, 2]));
    assert_eq!(TargetReply::from_read(Err(TargetError::NonFatal)), TargetReply::NonFatal);
    assert_eq!(TargetReply::from_read(Err(TargetError::Fatal)), TargetReply::Fatal);
    assert_eq!(TargetReply::from_write(Ok(())), TargetReply::Done);
    assert_eq!(TargetReply::from_write(Err(TargetError::NonFatal)), TargetReply::NonFatal);
    assert_eq!(TargetReply::from_write(Err(TargetError::Fatal)), TargetReply::Fatal);
}

#[test]
fn installing_a_breakpoint_is_planned_in_two_steps() {
    let mut target = EfiTarget::new(4, vec![0x00, 0x00, 0x20, 0xd4]);
    assert_eq!(
        target.plan_insert(0x1000),
        Some(TargetRequest::ReadMemory {
            address: 0x1000,
            length: 4
        })
    );
    assert_eq!(
        target.patch(0x1000),
        TargetRequest::WriteMemory {
            address: 0x1000,
            data: vec![0x00, 0x00, 0x20, 0xd4]
        }
    );
    assert!(target.add_sw_breakpoint(0x1000, vec![1, 2, 3, 4]));
    assert!(target.has_breakpoint(0x1000));
    assert_eq!(target.breakpoint_count(), 1);
    assert_eq!(target.plan_insert(0x1000), None);
    assert!(target.add_sw_breakpoint(0x1000, vec![9, 9, 9, 9]));
    assert_eq!(target.breakpoint_count(), 1);
    assert_eq!(
        target.plan_remove(0x1000),
        Some(TargetRequest::WriteMemory {
            address: 0x1000,
            data: vec![1, 2, 3, 4]
        })
    );
    assert!(target.remove_sw_breakpoint(0x1000));
    assert!(!target.has_breakpoint(0x1000));
    assert_eq!(target.plan_remove(0x1000), None);
    assert!(target.remove_sw_breakpoint(0x1000));
    assert_eq!(target.breakpoint_count(), 0);
}

#[test]
fn draining_the_adapter() {
    let mut target = EfiTarget::new(4, vec![0xcc]);
    target.add_sw_breakpoint(0x10, vec![0x55]);
    let entries = target.drain_breakpoints();
    assert_eq!(
        entries,
        vec![Breakpoint {
            address: 0x10,
            original_bytes: vec![0x55]
        }]
    );
    assert_eq!(target.breakpoint_count(), 0);
}

#[test]
fn a_new_transport_has_the_default_timeout() {
    let transport = DebuggerTransport::new();
    assert_eq!(DEFAULT_TIMEOUT, 10);
    assert_eq!(transport.timeout, 10);
    assert_eq!(transport.peek_value, None);
    assert!(transport.needs_fetch());
}

#[test]
fn poll_counts_the_held_byte() {
    let mut transport = DebuggerTransport::new();
    assert!(!transport.poll(false));
    assert!(transport.poll(true));
    transport.peek_value = Some(b'$');
    assert!(transport.poll(false));
    assert!(!transport.needs_fetch());
}

#[test]
fn read_hands_out_the_held_byte_first() {
    let mut transport = DebuggerTransport::new();
    assert_eq!(transport.peek(1, b'$'), Some(b'$'));
    assert_eq!(transport.peek(1, b'x'), Some(b'$'));
    assert_eq!(transport.read(0, 0), Ok(b'$'));
    assert_eq!(transport.peek_value, None);
    assert_eq!(transport.read(1, b'g'), Ok(b'g'));
    assert_eq!(transport.read(0, b'g'), Err(TransportError::NoData));
    assert_eq!(transport.read(2, b'g'), Err(TransportError::NoData));
    assert_eq!(transport.peek(0, b'g'), None);
    assert_eq!(transport.timeout, 10);
}

#[test]
fn a_blocking_read_polls_until_a_byte_comes() {
    let mut transport = DebuggerTransport::new();
    assert_eq!(transport.read_blocking(false, 0, 0), BlockingRead::PollAgain);
    assert_eq!(transport.read_blocking(false, 1, b'x'), BlockingRead::PollAgain);
    assert_eq!(transport.read_blocking(true, 0, b'x'), BlockingRead::PollAgain);
    assert_eq!(transport.read_blocking(true, 1, b'x'), BlockingRead::Byte(b'x'));
    transport.peek_value = Some(b'+');
    assert_eq!(transport.read_blocking(false, 0, 0), BlockingRead::Byte(b'+'));
    assert_eq!(transport.peek_value, None);
}

#[test]
fn partial_writes_are_told_from_none() {
    let transport = DebuggerTransport::new();
    assert_eq!(transport.write_all(5, 5), Ok(()));
    assert_eq!(transport.write_all(0, 0), Ok(()));
    assert_eq!(transport.write_all(5, 3), Err(TransportError::PartialWrite));
    assert_eq!(transport.write_all(5, 0), Err(TransportError::NoneWritten));
    assert_eq!(transport.write_all(5, 6), Err(TransportError::PartialWrite));
    assert_eq!(transport.write(1), Ok(()));
    assert_eq!(transport.write(0), Err(TransportError::NoneWritten));
    assert_eq!(transport.flush(), Ok(()));
}

#[test]
fn transport_errors_describe_themselves() {
    assert_eq!(TransportError::NoData.describe(), "No data read");
    assert_eq!(TransportError::PartialWrite.describe(), "Data partially written");
    assert_eq!(TransportError::NoneWritten.describe(), "No data written");
}
