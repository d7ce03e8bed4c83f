use synacor_cpu::disasm::{disassemble_range, opcode_arity};
use synacor_cpu::hypervisor::{
    decode_command, is_sentinel, parse_hex16, toggle_debug, write_memory, HvCommand,
};
use synacor_cpu::utils::{clear_bit, get_bit, set_bit, swap_endian};
use synacor_cpu::{Error, Machine};

#[test]
fn test_swap_endian() {
    assert_eq!(swap_endian(0x00FE), 0xFE00);
    assert_eq!(swap_endian(0xFE00), 0x00FE);
    assert_eq!(swap_endian(0x1234), 0x3412);
    assert_eq!(swap_endian(swap_endian(0xBEEF)), 0xBEEF);
    assert_eq!(swap_endian(0x0000), 0x0000);
    assert_eq!(swap_endian(0xFFFF), 0xFFFF);
}

#[test]
fn test_bit_utils() {
    let mut w: u16 = 0;
    set_bit(&mut w, 0);
    assert_eq!(w, 1);
    set_bit(&mut w, 3);
    assert_eq!(w, 9);
    assert!(get_bit(&w, 0));
    assert!(get_bit(&w, 3));
    assert!(!get_bit(&w, 1));
    clear_bit(&mut w, 0);
    assert_eq!(w, 8);
    assert!(!get_bit(&w, 0));
}

#[test]
fn test_decode_command() {
    assert_eq!(decode_command(b'd'), HvCommand::Disassemble);
    assert_eq!(decode_command(b'D'), HvCommand::ToggleDebug);
    assert_eq!(decode_command(b's'), HvCommand::SaveState);
    assert_eq!(decode_command(b'l'), HvCommand::LoadState);
    assert_eq!(decode_command(b'p'), HvCommand::PrintRegs);
    assert_eq!(decode_command(b'g'), HvCommand::GotoAndRun);
    assert_eq!(decode_command(b'x'), HvCommand::ExamineMemory);
    assert_eq!(decode_command(b'w'), HvCommand::WriteMemory);
    assert_eq!(decode_command(b'r'), HvCommand::Resume);
    assert_eq!(decode_command(b'\n'), HvCommand::Ignore);
    assert_eq!(decode_command(b'h'), HvCommand::Help);
    assert_eq!(decode_command(b'q'), HvCommand::Help);
}

#[test]
fn test_sentinel() {
    assert!(is_sentinel(b'.'));
    assert!(!is_sentinel(b'r'));
    assert!(!is_sentinel(b'\n'));
}

#[test]
fn test_parse_hex16() {
    assert_eq!(parse_hex16(&b"0".to_vec()), Some(0x0000));
    assert_eq!(parse_hex16(&b"F".to_vec()), Some(0x000F));
    assert_eq!(parse_hex16(&b"ff".to_vec()), Some(0x00FF));
    assert_eq!(parse_hex16(&b"00FF".to_vec()), Some(0x00FF));
    assert_eq!(parse_hex16(&b"8000".to_vec()), Some(0x8000));
    assert_eq!(parse_hex16(&b"FFFF".to_vec()), Some(0xFFFF));
    assert_eq!(parse_hex16(&b"1a2B".to_vec()), Some(0x1A2B));
    assert_eq!(parse_hex16(&b"".to_vec()), None);
    assert_eq!(parse_hex16(&b"12345".to_vec()), None);
    assert_eq!(parse_hex16(&b"12G4".to_vec()), None);
    assert_eq!(parse_hex16(&b" 12".to_vec()), None);
}

#[test]
fn test_write_memory() {
    let mut m0 = Machine::new();
    write_memory(&mut m0, 0x0100, 0xBEEF).unwrap();
    assert_eq!(m0.peek(0x0100).unwrap(), 0xBEEF);
    assert_eq!(write_memory(&mut m0, 0x8000, 0x1234), Err(Error::MemoryInvalid));
    assert_eq!(write_memory(&mut m0, 0xFFFF, 0x1234), Err(Error::MemoryInvalid));
}

#[test]
fn test_toggle_debug() {
    let mut m0 = Machine::new();
    assert!(!m0.debug);
    toggle_debug(&mut m0);
    assert!(m0.debug);
    toggle_debug(&mut m0);
    assert!(!m0.debug);
}

#[test]
fn test_opcode_arity() {
    assert_eq!(opcode_arity(0x00), 0);
    assert_eq!(opcode_arity(0x01), 2);
    assert_eq!(opcode_arity(0x04), 3);
    assert_eq!(opcode_arity(0x12), 0);
    assert_eq!(opcode_arity(0x15), 0);
    assert_eq!(opcode_arity(0x00FF), 0);
}

#[test]
fn test_disassemble_range() {
    // set r0 0x00FF; add r0 r0 4; halt
    let prog: [u16; 8] = [
        0x0100, 0x0080, 0xFF00, 0x0900, 0x0080, 0x0080, 0x0400, 0x0000,
    ];
    let mut m0 = Machine::new();
    for n in 0..8 {
        m0.mem[n] = prog[n];
    }
    let lines = disassemble_range(&m0, 0, 7);
    assert_eq!(lines.len(), 3);
    assert_eq!(lines[0].addr, 0);
    assert_eq!(lines[0].opcode, 0x0001);
    assert_eq!(lines[0].operands, vec![0x8000, 0x00FF]);
    assert_eq!(lines[1].addr, 3);
    assert_eq!(lines[1].opcode, 0x0009);
    assert_eq!(lines[1].operands, vec![0x8000, 0x8000, 0x0004]);
    assert_eq!(lines[2].addr, 7);
    assert_eq!(lines[2].opcode, 0x0000);
    assert_eq!(lines[2].operands, vec![]);
}

#[test]
fn test_disassemble_unknown_opcode_takes_one_word() {
    let mut m0 = Machine::new();
    m0.mem[0] = 0xFF00; // logical 0x00FF, unknown
    m0.mem[1] = 0x1500; // nop
    let lines = disassemble_range(&m0, 0, 1);
    assert_eq!(lines.len(), 2);
    assert_eq!(lines[0].opcode, 0x00FF);
    assert_eq!(lines[0].operands.len(), 0);
    assert_eq!(lines[1].opcode, 0x0015);
}

#[test]
fn test_needs_input() {
    let mut m0 = Machine::new();
    m0.mem[0] = 0x1400; // in r0
    m0.mem[1] = 0x0080;
    assert!(m0.needs_input());
    m0.input = vec![b'a'];
    assert!(!m0.needs_input());
    m0.input.clear();
    m0.pc = 2; // a halt cell; no input wanted there
    assert!(!m0.needs_input());
}

#[test]
fn test_disassembly_relaid_in_memory_is_stable() {
    // Lay a listing's words back into a fresh machine and disassemble again:
    // the same lines come out.
    let prog: [u16; 8] = [
        0x0100, 0x0080, 0xFF00, 0x0900, 0x0080, 0x0080, 0x0400, 0x0000,
    ];
    let mut m0 = Machine::new();
    for n in 0..8 {
        m0.mem[n] = prog[n];
    }
    let lines = disassemble_range(&m0, 0, 7);

    let mut m1 = Machine::new();
    for line in &lines {
        let mut addr = line.addr;
        write_memory(&mut m1, addr, line.opcode).unwrap();
        for op in &line.operands {
            addr += 1;
            write_memory(&mut m1, addr, *op).unwrap();
        }
    }
    let relaid = disassemble_range(&m1, 0, 7);
    assert_eq!(lines.len(), relaid.len());
    for (a, b) in lines.iter().zip(relaid.iter()) {
        assert_eq!(a.addr, b.addr);
        assert_eq!(a.opcode, b.opcode);
        assert_eq!(a.operands, b.operands);
    }
}

#[test]
fn test_dump_renders_lines() {
    let mut m0 = Machine::new();
    m0.mem[1] = 0x4241; // raw storage shows up verbatim in the dump
    let bytes = m0.dump();
    // 0x1000 lines of 9 + 40 + 1 + 16 + 1 = 67 bytes each.
    assert_eq!(bytes.len(), 0x1000 * 67);
    let first = String::from_utf8(bytes[..67].to_vec()).unwrap();
    assert_eq!(
        first,
        "0000:0000 0000 4241 0000 0000 0000 0000 0000 0000 ..BA............\n"
    );
    let second = String::from_utf8(bytes[67..134].to_vec()).unwrap();
    assert_eq!(
        second,
        "0000:0008 0000 0000 0000 0000 0000 0000 0000 0000 ................\n"
    );
}
