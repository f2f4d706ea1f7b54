use register_machine::Cpu;
use register_machine::Fault;
use register_machine::Instruction;
use register_machine::Outcome;
use register_machine::Register;

const FUEL: u64 = 100_000;

fn run(program: &[Instruction]) -> (Cpu, Outcome) {
    let mut cpu = Cpu::new();
    let outcome = cpu.execute(program, FUEL);
    (cpu, outcome)
}

fn output_text(cpu: &Cpu) -> String {
    cpu.output.iter().collect()
}

#[test]
fn halt_leaves_initial_state() {
    let (cpu, outcome) = run(&[Instruction::Halt]);
    assert_eq!(outcome, Outcome::Halted);
    for i in 0..16 {
        assert_eq!(cpu.registers[i].0, 0);
    }
    assert!(cpu.memory.is_empty());
    assert!(cpu.output.is_empty());
}

#[test]
fn load_immediate_sets_register() {
    let (cpu, outcome) = run(&[
        Instruction::LoadImmediate { destination: Register::r1, value: 42 },
        Instruction::Halt,
    ]);
    assert_eq!(outcome, Outcome::Halted);
    assert_eq!(cpu.registers[1].0, 42);
}

#[test]
fn register_zero_write_is_discarded() {
    let (cpu, outcome) = run(&[
        Instruction::LoadImmediate { destination: Register::r0, value: 7 },
        Instruction::LoadImmediate { destination: Register::r1, value: 5 },
        Instruction::Add {
            destination: Register::r0,
            source1: Register::r1,
            source2: Register::r1,
        },
        Instruction::Add {
            destination: Register::r2,
            source1: Register::r0,
            source2: Register::r0,
        },
        Instruction::Halt,
    ]);
    assert_eq!(outcome, Outcome::Halted);
    assert_eq!(cpu.registers[0].0, 0);
    assert_eq!(cpu.registers[2].0, 0);
}

#[test]
fn add_wraps_at_the_boundary() {
    let (cpu, outcome) = run(&[
        Instruction::LoadImmediate { destination: Register::r1, value: i64::MAX },
        Instruction::LoadImmediate { destination: Register::r2, value: 1 },
        Instruction::Add {
            destination: Register::r3,
            source1: Register::r1,
            source2: Register::r2,
        },
        Instruction::Halt,
    ]);
    assert_eq!(outcome, Outcome::Halted);
    assert_eq!(cpu.registers[3].0, i64::MIN);
}

#[test]
fn sub_wraps_at_the_boundary() {
    let (cpu, outcome) = run(&[
        Instruction::LoadImmediate { destination: Register::r1, value: i64::MIN },
        Instruction::LoadImmediate { destination: Register::r2, value: 1 },
        Instruction::Sub {
            destination: Register::r3,
            source1: Register::r1,
            source2: Register::r2,
        },
        Instruction::Halt,
    ]);
    assert_eq!(outcome, Outcome::Halted);
    assert_eq!(cpu.registers[3].0, i64::MAX);
}

#[test]
fn mul_wraps_at_the_boundary() {
    let (cpu, outcome) = run(&[
        Instruction::LoadImmediate { destination: Register::r1, value: i64::MAX },
        Instruction::LoadImmediate { destination: Register::r2, value: 2 },
        Instruction::Mul {
            destination: Register::r3,
            source1: Register::r1,
            source2: Register::r2,
        },
        Instruction::Halt,
    ]);
    assert_eq!(outcome, Outcome::Halted);
    assert_eq!(cpu.registers[3].0, -2);
}

#[test]
fn div_truncates_toward_zero() {
    let (cpu, outcome) = run(&[
        Instruction::LoadImmediate { destination: Register::r1, value: -7 },
        Instruction::LoadImmediate { destination: Register::r2, value: 2 },
        Instruction::Div {
            destination: Register::r3,
            source1: Register::r1,
            source2: Register::r2,
        },
        Instruction::LoadImmediate { destination: Register::r4, value: 7 },
        Instruction::LoadImmediate { destination: Register::r5, value: -2 },
        Instruction::Div {
            destination: Register::r6,
            source1: Register::r4,
            source2: Register::r5,
        },
        Instruction::Halt,
    ]);
    assert_eq!(outcome, Outcome::Halted);
    assert_eq!(cpu.registers[3].0, -3);
    assert_eq!(cpu.registers[6].0, -3);
}

#[test]
fn div_min_by_minus_one_wraps() {
    let (cpu, outcome) = run(&[
        Instruction::LoadImmediate { destination: Register::r1, value: i64::MIN },
        Instruction::LoadImmediate { destination: Register::r2, value: -1 },
        Instruction::Div {
            destination: Register::r3,
            source1: Register::r1,
            source2: Register::r2,
        },
        Instruction::Halt,
    ]);
    assert_eq!(outcome, Outcome::Halted);
    assert_eq!(cpu.registers[3].0, i64::MIN);
}

#[test]
fn store_load_round_trip() {
    let (cpu, outcome) = run(&[
        Instruction::LoadImmediate { destination: Register::r1, value: 1000 },
        Instruction::LoadImmediate { destination: Register::r2, value: 123_456_789 },
        Instruction::Store { destination: Register::r1, source: Register::r2 },
        Instruction::Load { destination: Register::r3, source: Register::r1 },
        Instruction::Halt,
    ]);
    assert_eq!(outcome, Outcome::Halted);
    assert_eq!(cpu.registers[3].0, 123_456_789);
}

#[test]
fn store_load_round_trip_negative_address_and_value() {
    let (cpu, outcome) = run(&[
        Instruction::LoadImmediate { destination: Register::r1, value: -5 },
        Instruction::LoadImmediate { destination: Register::r2, value: -987_654_321 },
        Instruction::Store { destination: Register::r1, source: Register::r2 },
        Instruction::Load { destination: Register::r3, source: Register::r1 },
        Instruction::Halt,
    ]);
    assert_eq!(outcome, Outcome::Halted);
    assert_eq!(cpu.registers[3].0, -987_654_321);
}

#[test]
fn store_load_round_trip_address_zero() {
    let (cpu, outcome) = run(&[
        Instruction::LoadImmediate { destination: Register::r2, value: i64::MIN },
        Instruction::Store { destination: Register::r1, source: Register::r2 },
        Instruction::Load { destination: Register::r3, source: Register::r1 },
        Instruction::Halt,
    ]);
    assert_eq!(outcome, Outcome::Halted);
    assert_eq!(cpu.registers[3].0, i64::MIN);
}

#[test]
fn store_load_round_trip_wrapping_address() {
    // The eight byte addresses wrap around the top of the address space
    // the same way on store and on load.
    let (cpu, outcome) = run(&[
        Instruction::LoadImmediate { destination: Register::r1, value: i64::MAX - 2 },
        Instruction::LoadImmediate { destination: Register::r2, value: 0x1122_3344_5566_7788 },
        Instruction::Store { destination: Register::r1, source: Register::r2 },
        Instruction::Load { destination: Register::r3, source: Register::r1 },
        Instruction::Halt,
    ]);
    assert_eq!(outcome, Outcome::Halted);
    assert_eq!(cpu.registers[3].0, 0x1122_3344_5566_7788);
    assert_eq!(cpu.memory.get(&i64::MAX), Some(&0x66));
    assert_eq!(cpu.memory.get(&i64::MIN), Some(&0x55));
}

#[test]
fn store_fills_exactly_eight_bytes() {
    let (cpu, outcome) = run(&[
        Instruction::LoadImmediate { destination: Register::r1, value: 64 },
        Instruction::LoadImmediate { destination: Register::r2, value: 0x0102_0304 },
        Instruction::Store { destination: Register::r1, source: Register::r2 },
        Instruction::Halt,
    ]);
    assert_eq!(outcome, Outcome::Halted);
    assert_eq!(cpu.memory.len(), 8);
    assert_eq!(cpu.memory.get(&64), Some(&4));
    assert_eq!(cpu.memory.get(&65), Some(&3));
    assert_eq!(cpu.memory.get(&66), Some(&2));
    assert_eq!(cpu.memory.get(&67), Some(&1));
    assert_eq!(cpu.memory.get(&68), Some(&0));
    assert_eq!(cpu.memory.get(&71), Some(&0));
}

#[test]
fn uninitialized_memory_reads_zero() {
    let (cpu, outcome) = run(&[
        Instruction::LoadImmediate { destination: Register::r1, value: 999 },
        Instruction::Load { destination: Register::r2, source: Register::r1 },
        Instruction::Halt,
    ]);
    assert_eq!(outcome, Outcome::Halted);
    assert_eq!(cpu.registers[2].0, 0);
}

#[test]
fn jump_not_taken_falls_through() {
    let (cpu, outcome) = run(&[
        Instruction::JumpIfLessThanZero { offset: 2, value: Register::r1 },
        Instruction::LoadImmediate { destination: Register::r2, value: 1 },
        Instruction::Halt,
    ]);
    assert_eq!(outcome, Outcome::Halted);
    assert_eq!(cpu.registers[2].0, 1);
}

#[test]
fn jump_taken_forward_skips() {
    let (cpu, outcome) = run(&[
        Instruction::LoadImmediate { destination: Register::r1, value: -1 },
        Instruction::JumpIfLessThanZero { offset: 2, value: Register::r1 },
        Instruction::LoadImmediate { destination: Register::r2, value: 1 },
        Instruction::Halt,
    ]);
    assert_eq!(outcome, Outcome::Halted);
    assert_eq!(cpu.registers[2].0, 0);
}

#[test]
fn jump_taken_backward_lands_before_the_jump() {
    // The branch at index 2 with offset -2 lands 2 positions before
    // itself, at index 0; the branch there then skips to the halt.
    let (cpu, outcome) = run(&[
        Instruction::JumpIfLessThanZero { offset: 3, value: Register::r1 },
        Instruction::LoadImmediate { destination: Register::r1, value: -1 },
        Instruction::JumpIfLessThanZero { offset: -2, value: Register::r1 },
        Instruction::Halt,
    ]);
    assert_eq!(outcome, Outcome::Halted);
    assert_eq!(cpu.registers[1].0, -1);
}

#[test]
fn running_off_the_end_faults() {
    let (_, outcome) = run(&[Instruction::Add {
        destination: Register::r1,
        source1: Register::r1,
        source2: Register::r1,
    }]);
    assert_eq!(
        outcome,
        Outcome::Faulted(Fault::ProgramCounterOutOfRange { pc: 1, len: 1 })
    );
}

#[test]
fn negative_jump_target_faults() {
    let (_, outcome) = run(&[
        Instruction::LoadImmediate { destination: Register::r1, value: -1 },
        Instruction::JumpIfLessThanZero { offset: -5, value: Register::r1 },
    ]);
    assert_eq!(
        outcome,
        Outcome::Faulted(Fault::ProgramCounterOutOfRange { pc: -4, len: 2 })
    );
}

#[test]
fn empty_program_faults() {
    let (_, outcome) = run(&[]);
    assert_eq!(
        outcome,
        Outcome::Faulted(Fault::ProgramCounterOutOfRange { pc: 0, len: 0 })
    );
}

#[test]
fn division_by_zero_faults() {
    let (cpu, outcome) = run(&[
        Instruction::LoadImmediate { destination: Register::r1, value: 10 },
        Instruction::Div {
            destination: Register::r3,
            source1: Register::r1,
            source2: Register::r2,
        },
        Instruction::Halt,
    ]);
    assert_eq!(outcome, Outcome::Faulted(Fault::DivisionByZero { pc: 1 }));
    assert_eq!(cpu.registers[3].0, 0);
}

#[test]
fn division_by_zero_faults_with_zero_dividend() {
    let (_, outcome) = run(&[
        Instruction::Div {
            destination: Register::r3,
            source1: Register::r1,
            source2: Register::r2,
        },
        Instruction::Halt,
    ]);
    assert_eq!(outcome, Outcome::Faulted(Fault::DivisionByZero { pc: 0 }));
}

#[test]
fn putchar_emits_the_low_byte() {
    let (cpu, outcome) = run(&[
        Instruction::LoadImmediate { destination: Register::r1, value: 72 },
        Instruction::PutChar(Register::r1),
        Instruction::LoadImmediate { destination: Register::r1, value: 256 + 105 },
        Instruction::PutChar(Register::r1),
        Instruction::Halt,
    ]);
    assert_eq!(outcome, Outcome::Halted);
    assert_eq!(output_text(&cpu), "Hi");
}

#[test]
fn putint_emits_decimal_text() {
    let (cpu, outcome) = run(&[
        Instruction::LoadImmediate { destination: Register::r1, value: -12345 },
        Instruction::PutInt(Register::r1),
        Instruction::PutInt(Register::r2),
        Instruction::LoadImmediate { destination: Register::r3, value: i64::MIN },
        Instruction::PutInt(Register::r3),
        Instruction::Halt,
    ]);
    assert_eq!(outcome, Outcome::Halted);
    assert_eq!(output_text(&cpu), "-123450-9223372036854775808");
}

#[test]
fn fibonacci_scenario_emits_eighth() {
    // r1 = 0 and r2 = 1, then five rounds of add-and-reassign driven by a
    // backward branch, then the current number as decimal text.
    let program = [
        Instruction::LoadImmediate { destination: Register::r1, value: 0 },
        Instruction::LoadImmediate { destination: Register::r2, value: 1 },
        Instruction::LoadImmediate { destination: Register::r3, value: 0 },
        Instruction::LoadImmediate { destination: Register::r4, value: 5 },
        Instruction::Add {
            destination: Register::r6,
            source1: Register::r1,
            source2: Register::r2,
        },
        Instruction::Add {
            destination: Register::r1,
            source1: Register::r2,
            source2: Register::r0,
        },
        Instruction::Add {
            destination: Register::r2,
            source1: Register::r6,
            source2: Register::r0,
        },
        Instruction::LoadImmediate { destination: Register::r5, value: 1 },
        Instruction::Add {
            destination: Register::r3,
            source1: Register::r3,
            source2: Register::r5,
        },
        Instruction::Sub {
            destination: Register::r6,
            source1: Register::r3,
            source2: Register::r4,
        },
        Instruction::JumpIfLessThanZero { offset: -6, value: Register::r6 },
        Instruction::PutInt(Register::r2),
        Instruction::Halt,
    ];
    let (cpu, outcome) = run(&program);
    assert_eq!(outcome, Outcome::Halted);
    assert_eq!(output_text(&cpu), "8");
    assert_eq!(cpu.registers[2].0, 8);
}

#[test]
fn fuel_running_out_reports_still_running() {
    let program = [
        Instruction::LoadImmediate { destination: Register::r1, value: -1 },
        Instruction::JumpIfLessThanZero { offset: 0, value: Register::r1 },
    ];
    let mut cpu = Cpu::new();
    let outcome = cpu.execute(&program, 100);
    assert_eq!(outcome, Outcome::Running);
}
