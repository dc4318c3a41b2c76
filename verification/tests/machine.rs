use bobtools::bob16::inst::Instruction;
use bobtools::bob16::machine::{Effect, Machine};

fn memory(words: &[u16]) -> Box<[u16]> {
    let mut m = vec![0u16; 0x10000];
    m[..words.len()].copy_from_slice(words);
    m.into_boxed_slice()
}

#[test]
fn run_executes_until_the_halt() {
    // add r0, 5; trap 1 (print r0); trap 0 (halt)
    let mut m = Machine::new(memory(&[0x1185, 0xF100, 0xF000]));
    assert!(m.is_halted());
    let e = m.run(1000);
    assert!(matches!(e, Effect::PutChar(5)));
    assert!(!m.is_halted());
    let e = m.run_steps(1000);
    assert!(matches!(e, Effect::Continue));
    assert!(m.is_halted());
}

#[test]
fn run_ends_halted_at_the_halt_trap() {
    // add r0, 5; trap 0 (halt)
    let mut m = Machine::new(memory(&[0x1185, 0xF000]));
    let e = m.run(1000);
    assert!(matches!(e, Effect::Continue));
    assert!(m.is_halted());
}

#[test]
fn run_steps_stops_at_its_bound() {
    // no halt within the bound: a branch to itself, then empty words
    let mut m = Machine::new(memory(&[0xAFFF]));
    let e = m.run(50);
    assert!(matches!(e, Effect::Continue));
    assert!(!m.is_halted());
}

#[test]
fn the_decoder_reads_immediate_adds() {
    assert!(matches!(Instruction::from(0x1185), Instruction::AddIpI { dst: 0, imm: 5 }));
}

#[test]
fn a_machine_over_a_short_memory_runs_the_program_it_holds() {
    // add r0, 5; trap 1 (print r0); trap 0 (halt), in three words of memory
    let mut m = Machine::new(vec![0x1185u16, 0xF100, 0xF000].into_boxed_slice());
    assert!(m.is_halted());
    let e = m.run(1000);
    assert!(matches!(e, Effect::PutChar(5)));
    let e = m.run_steps(1000);
    assert!(matches!(e, Effect::Continue));
    assert!(m.is_halted());
}
