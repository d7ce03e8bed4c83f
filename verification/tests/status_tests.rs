use synacor_cpu::constants::{
    HALT_BIT, IN_BIT, M1_BIT, MEMR_BIT, MEMW_BIT, OUT_BIT, RECENTMEMACCESS_READ_BIT,
    RECENTMEMACCESS_WRITE_BIT,
};
use synacor_cpu::utils::get_bit;
use synacor_cpu::Machine;

fn mask(bit: u16) -> u16 {
    1 << bit
}

#[test]
fn test_status_after_halt_cycle() {
    let mut m0 = Machine::new();
    m0.fetch_and_execute().unwrap();
    // The halt cycle publishes M1, the opcode fetch, and the sticky HALT.
    assert_eq!(m0.status, mask(M1_BIT) | mask(MEMR_BIT) | mask(HALT_BIT));
}

#[test]
fn test_status_after_store_cycle() {
    let mut m0 = Machine::new();
    m0.mem[0] = 0x0100; // set r0 0x00FF
    m0.mem[1] = 0x0080;
    m0.mem[2] = 0xFF00;
    m0.fetch_and_execute().unwrap();
    assert_eq!(m0.status, mask(M1_BIT) | mask(MEMR_BIT) | mask(MEMW_BIT));
    assert!(!m0.is_halted());
}

#[test]
fn test_status_after_out_cycle() {
    let mut m0 = Machine::new();
    m0.mem[0] = 0x1300; // out 0x41
    m0.mem[1] = 0x4100;
    m0.fetch_and_execute().unwrap();
    assert_eq!(m0.status, mask(M1_BIT) | mask(MEMR_BIT) | mask(OUT_BIT));
}

#[test]
fn test_status_after_in_cycle() {
    let mut m0 = Machine::new();
    m0.mem[0] = 0x1400; // in r0
    m0.mem[1] = 0x0080;
    m0.input = vec![b'x'];
    m0.fetch_and_execute().unwrap();
    assert_eq!(
        m0.status,
        mask(M1_BIT) | mask(MEMR_BIT) | mask(MEMW_BIT) | mask(IN_BIT)
    );
}

#[test]
fn test_status_transient_bits_reset_each_cycle() {
    let mut m0 = Machine::new();
    m0.mem[0] = 0x0100; // set r0 0x00FF
    m0.mem[1] = 0x0080;
    m0.mem[2] = 0xFF00;
    m0.mem[3] = 0x1500; // nop
    m0.fetch_and_execute().unwrap();
    assert!(get_bit(&m0.status, MEMW_BIT));
    m0.fetch_and_execute().unwrap();
    // The nop cycle clears MEMW again; only M1 and the fetch's MEMR remain.
    assert_eq!(m0.status, mask(M1_BIT) | mask(MEMR_BIT));
}

#[test]
fn test_recent_access_trace_records_reads_and_writes() {
    let mut m0 = Machine::new();
    m0.poke(0x0010, 0x0001).unwrap();
    m0.peek(0x0010).unwrap();
    m0.poke(0x8002, 0x0002).unwrap();
    assert_eq!(
        m0.recent_mem_access,
        vec![
            (0x0010, RECENTMEMACCESS_WRITE_BIT),
            (0x0010, RECENTMEMACCESS_READ_BIT),
            (0x8002, RECENTMEMACCESS_WRITE_BIT),
        ]
    );
}

#[test]
fn test_recent_access_trace_stops_at_cap() {
    let mut m0 = Machine::new();
    for i in 0..300u16 {
        m0.poke(i % 0x8000, i).unwrap();
    }
    assert_eq!(m0.recent_mem_access.len(), 255);
    // The first entries survive; later ones were dropped silently.
    assert_eq!(m0.recent_mem_access[0], (0, RECENTMEMACCESS_WRITE_BIT));
    assert_eq!(m0.recent_mem_access[254], (254, RECENTMEMACCESS_WRITE_BIT));
}

#[test]
fn test_executed_saturates() {
    let mut m0 = Machine::new();
    m0.executed = u32::MAX;
    m0.mem[0] = 0x1500; // nop
    m0.mem[1] = 0x0000; // halt
    m0.fetch_and_execute().unwrap();
    assert_eq!(m0.executed, u32::MAX);
    m0.fetch_and_execute().unwrap();
    assert_eq!(m0.executed, u32::MAX);
    assert!(m0.is_halted());
}

#[test]
fn test_halt_is_left_for_operator_to_clear() {
    let mut m0 = Machine::new();
    m0.halt();
    let before = m0.executed;
    // A halted machine does not fetch; nothing moves until HALT is cleared.
    m0.fetch_and_execute().unwrap();
    assert!(m0.is_halted());
    assert_eq!(m0.executed, before);
    assert_eq!(m0.pc, 0);
}
