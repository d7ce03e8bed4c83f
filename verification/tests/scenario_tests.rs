use synacor_cpu::{Error, Machine};

#[test]
fn test_scenario_halt_at_zero() {
    let mut m0 = Machine::new();
    assert_eq!(m0.mem[0], 0x0000);
    m0.fetch_and_execute().unwrap();
    assert!(m0.is_halted());
    assert_eq!(m0.executed, 1);
    assert_eq!(m0.pc, 1);
}

#[test]
fn test_scenario_add_immediate_and_register() {
    // add r0 <- r1 + 4, out r0, halt; r1 starts at 0.
    let prog: [u16; 7] = [0x0900, 0x0080, 0x0180, 0x0400, 0x1300, 0x0080, 0x0000];
    let mut m0 = Machine::new();
    for n in 0..7 {
        m0.mem[n] = prog[n];
    }
    m0.run().unwrap();
    assert_eq!(m0.peek(0x8000).unwrap(), 4);
    assert_eq!(m0.output, vec![0x04]);
}

#[test]
fn test_scenario_set_then_read_register() {
    // set r0 0x00FF, halt; r0 reads back through the 0x8000 address space.
    let prog: [u16; 4] = [0x0100, 0x0080, 0xFF00, 0x0000];
    let mut m0 = Machine::new();
    for n in 0..4 {
        m0.mem[n] = prog[n];
    }
    m0.run().unwrap();
    assert_eq!(m0.peek(0x8000).unwrap(), 0x00FF);
}

#[test]
fn test_scenario_push_pop_lifo() {
    // push 0x00AA, push 0x00FF, pop r0, pop mem[0x0100], halt.
    let prog: [u16; 9] = [
        0x0200, 0xAA00, 0x0200, 0xFF00, 0x0300, 0x0080, 0x0300, 0x0001, 0x0000,
    ];
    let mut m0 = Machine::new();
    for n in 0..9 {
        m0.mem[n] = prog[n];
    }
    m0.run().unwrap();
    assert_eq!(m0.peek(0x8000).unwrap(), 0x00FF);
    assert_eq!(m0.peek(0x0100).unwrap(), 0x00AA);
}

#[test]
fn test_scenario_call_ret() {
    // call 6; at 6: set r0 0x00FF, ret; back at 2: set r1 0x00AA, halt.
    let prog: [u16; 11] = [
        0x1100, 0x0600, 0x0100, 0x0180, 0xAA00, 0x0000, 0x0100, 0x0080, 0xFF00, 0x1200, 0x0000,
    ];
    let mut m0 = Machine::new();
    for n in 0..11 {
        m0.mem[n] = prog[n];
    }
    m0.run().unwrap();
    assert_eq!(m0.peek(0x8000).unwrap(), 0x00FF);
    assert_eq!(m0.peek(0x8001).unwrap(), 0x00AA);
    assert_eq!(m0.stack.len(), 0);
}

#[test]
fn test_scenario_unknown_opcode() {
    let mut m0 = Machine::new();
    m0.mem[0] = 0xFF00; // stored byte-swapped: logical opcode 0x00FF
    let r = m0.fetch_and_execute();
    assert_eq!(r, Err(Error::UnknownOpcode));
    assert!(!m0.is_halted());
    assert_eq!(m0.executed, 1);
}

#[test]
fn test_executed_is_non_decreasing() {
    // jmp 0 spins forever; watch the counter grow across single steps.
    let prog: [u16; 2] = [0x0600, 0x0000];
    let mut m0 = Machine::new();
    for n in 0..2 {
        m0.mem[n] = prog[n];
    }
    let mut last = m0.executed;
    for _ in 0..100 {
        m0.fetch_and_execute().unwrap();
        assert!(m0.executed >= last);
        last = m0.executed;
    }
    assert_eq!(m0.executed, 100);
}

#[test]
fn test_peek_after_poke_memory() {
    let mut m0 = Machine::new();
    m0.poke(0x1234, 0xBEEF).unwrap();
    assert_eq!(m0.peek(0x1234).unwrap(), 0xBEEF);
    m0.poke(0x0000, 0x0001).unwrap();
    assert_eq!(m0.peek(0x0000).unwrap(), 0x0001);
    m0.poke(0x7FFF, 0xFFFF).unwrap();
    assert_eq!(m0.peek(0x7FFF).unwrap(), 0xFFFF);
}

#[test]
fn test_peek_after_poke_registers() {
    let mut m0 = Machine::new();
    for r in 0..8u16 {
        m0.poke(0x8000 + r, 0x1000 + r).unwrap();
        assert_eq!(m0.peek(0x8000 + r).unwrap(), 0x1000 + r);
    }
}

#[test]
fn test_peek_poke_invalid_addresses_fault() {
    let mut m0 = Machine::new();
    assert_eq!(m0.peek(0x8008), Err(Error::MemoryInvalid));
    assert_eq!(m0.poke(0x8008, 0x1234), Err(Error::MemoryInvalid));
    assert_eq!(m0.peek(0xFFFF), Err(Error::MemoryInvalid));
    assert_eq!(m0.poke(0xFFFF, 0x1234), Err(Error::MemoryInvalid));
    // The last valid register address still works.
    assert_eq!(m0.poke(0x8007, 0x0042), Ok(()));
    assert_eq!(m0.peek(0x8007), Ok(0x0042));
}

#[test]
fn test_image_round_trip() {
    // A small image of little-endian pairs loads verbatim and dumps back.
    let image: Vec<u8> = vec![0x09, 0x00, 0x00, 0x80, 0x01, 0x80, 0x04, 0x00, 0xFF, 0x00];
    let mut m0 = Machine::new();
    m0.load_image(&image);
    let dumped = m0.dump_mem_bytes();
    assert_eq!(dumped.len(), 0x10000);
    assert_eq!(&dumped[..image.len()], &image[..]);
    for i in image.len()..0x10000 {
        assert_eq!(dumped[i], 0);
    }
    // Logical word 0 is 0x0009, stored byte-swapped.
    assert_eq!(m0.peek(0).unwrap(), 0x0009);
    assert_eq!(m0.peek(4).unwrap(), 0x00FF);
}

#[test]
fn test_arith_results_stay_below_0x8000() {
    // add 0x7FFF + 0x7FFF wraps to 0x7FFE.
    let prog: [u16; 5] = [0x0900, 0x0080, 0xFF7F, 0xFF7F, 0x0000];
    let mut m0 = Machine::new();
    for n in 0..5 {
        m0.mem[n] = prog[n];
    }
    m0.run().unwrap();
    assert_eq!(m0.peek(0x8000).unwrap(), 0x7FFE);

    // mult 0x4000 * 3 wraps to 0x4000 (0xC000 mod 0x8000).
    let prog2: [u16; 5] = [0x0A00, 0x0080, 0x0040, 0x0300, 0x0000];
    let mut m1 = Machine::new();
    for n in 0..5 {
        m1.mem[n] = prog2[n];
    }
    m1.run().unwrap();
    assert_eq!(m1.peek(0x8000).unwrap(), 0x4000);

    // not 0x0000 gives 0x7FFF, the largest 15-bit value.
    let prog3: [u16; 4] = [0x0E00, 0x0080, 0x0000, 0x0000];
    let mut m2 = Machine::new();
    for n in 0..4 {
        m2.mem[n] = prog3[n];
    }
    m2.run().unwrap();
    assert_eq!(m2.peek(0x8000).unwrap(), 0x7FFF);
}

#[test]
fn test_empty_stack_faults() {
    // pop r0 with nothing pushed.
    let mut m0 = Machine::new();
    m0.mem[0] = 0x0300;
    m0.mem[1] = 0x0080;
    assert_eq!(m0.run(), Err(Error::EmptyStack));
    assert!(!m0.is_halted());

    // ret with nothing pushed.
    let mut m1 = Machine::new();
    m1.mem[0] = 0x1200;
    assert_eq!(m1.run(), Err(Error::EmptyStack));
}

#[test]
fn test_mod_by_zero_faults() {
    let prog: [u16; 5] = [0x0B00, 0x0080, 0xFF00, 0x0000, 0x0000];
    let mut m0 = Machine::new();
    for n in 0..5 {
        m0.mem[n] = prog[n];
    }
    assert_eq!(m0.run(), Err(Error::DivideByZero));
}

#[test]
fn test_in_reads_pending_input() {
    // in r0, halt; one pending byte 'A'.
    let prog: [u16; 3] = [0x1400, 0x0080, 0x0000];
    let mut m0 = Machine::new();
    for n in 0..3 {
        m0.mem[n] = prog[n];
    }
    m0.input = vec![0x41];
    m0.run().unwrap();
    assert_eq!(m0.peek(0x8000).unwrap(), 0x0041);
    assert_eq!(m0.input.len(), 0);
}

#[test]
fn test_in_without_input_faults() {
    let prog: [u16; 3] = [0x1400, 0x0080, 0x0000];
    let mut m0 = Machine::new();
    for n in 0..3 {
        m0.mem[n] = prog[n];
    }
    assert_eq!(m0.run(), Err(Error::FailedToReadLine));
}

#[test]
fn test_out_emits_low_byte() {
    // out 0x0141 emits only the low byte 0x41.
    let prog: [u16; 3] = [0x1300, 0x4101, 0x0000];
    let mut m0 = Machine::new();
    for n in 0..3 {
        m0.mem[n] = prog[n];
    }
    m0.run().unwrap();
    assert_eq!(m0.output, vec![0x41]);
}

#[test]
fn test_pc_out_of_range_faults() {
    // jmp 0x7FFF, where a lone halt-less word sends pc past the top.
    let mut m0 = Machine::new();
    m0.mem[0] = 0x0600;
    m0.mem[1] = 0xFF7F; // logical 0x7FFF
    m0.mem[0x7FFF] = 0x1500; // nop at the last cell; next fetch leaves memory
    assert_eq!(m0.run(), Err(Error::MemoryInvalid));
    assert!(!m0.is_halted());
}
