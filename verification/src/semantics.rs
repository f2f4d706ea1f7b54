//! The mathematical semantics of the machine: an abstract state (register
//! file, sparse memory, output stream, program counter), a small-step
//! function over it, and a fuelled run function. The executable engine in
//! `cpu` is proved to follow these definitions step by step; the laws at
//! the bottom state the properties the machine keeps.

use vstd::prelude::*;

verus! {

use crate::assembly::Instruction;
use crate::assembly::Register;
use crate::sundries::dec_str;
use crate::sundries::low_char;
use crate::sundries::to_signed;
use crate::sundries::to_unsigned;
use crate::sundries::wrapping_div_i64;
use vstd::bytes::lemma_auto_spec_u64_to_from_le_bytes;
use vstd::bytes::spec_u64_from_le_bytes;
use vstd::bytes::spec_u64_to_le_bytes;
use vstd::wrapping::i64_specs;

/// A fatal condition that ends a run abnormally, as opposed to a clean
/// halt. Faults are programming errors in the executed program, reported
/// with their context and never recovered from.
#[derive(Clone, Copy, Debug, Hash, PartialEq, Eq, Structural)]
pub enum Fault {
    /// The program counter left `[0, len)` at a fetch boundary: a jump out
    /// of bounds, a fall off the end without a halt, or a negative target.
    ProgramCounterOutOfRange { pc: i64, len: usize },
    /// A division instruction whose divisor register held zero.
    DivisionByZero { pc: i64 },
}

/// The abstract state of the machine: sixteen register words (slot 0 held
/// at zero), the sparse memory, the output emitted so far, and the program
/// counter.
#[verifier::ext_equal]
pub struct State {
    pub regs: Seq<i64>,
    pub mem: Map<i64, u8>,
    pub out: Seq<char>,
    pub pc: i64,
}

/// A well-formed state: sixteen registers, slot 0 holding zero.
pub open spec fn state_wf(s: State) -> bool {
    &&& s.regs.len() == 16
    &&& s.regs[0] == 0
}

/// The word read from register `r`: zero for `r0`, the stored word
/// otherwise.
pub open spec fn reg_read(regs: Seq<i64>, r: Register) -> i64 {
    if r.index() == 0 {
        0
    } else {
        regs[r.index()]
    }
}

/// The register file after writing `v` to `r`: unchanged for `r0`, whose
/// writes are discarded.
pub open spec fn reg_write(regs: Seq<i64>, r: Register, v: i64) -> Seq<i64> {
    if r.index() == 0 {
        regs
    } else {
        regs.update(r.index(), v)
    }
}

/// The byte stored at address `a`, or zero where none was ever stored:
/// the documented policy for reading uninitialized memory.
pub open spec fn byte_at(mem: Map<i64, u8>, a: i64) -> u8 {
    if mem.contains_key(a) {
        mem[a]
    } else {
        0
    }
}

/// The address `k` bytes past `a`, wrapping around the 64-bit address
/// space as register arithmetic does.
pub open spec fn word_addr(a: i64, k: int) -> i64 {
    i64_specs::wrapping_add(a, k as i64)
}

/// The eight bytes of the word stored at address `a`, least significant
/// first.
pub open spec fn word_bytes(mem: Map<i64, u8>, a: i64) -> Seq<u8> {
    Seq::new(8, |k: int| byte_at(mem, word_addr(a, k)))
}

/// The word read from the eight bytes starting at address `a`.
pub open spec fn load_word(mem: Map<i64, u8>, a: i64) -> i64 {
    to_signed(spec_u64_from_le_bytes(word_bytes(mem, a)))
}

/// The memory after storing the first `n` of `bytes` at consecutive
/// addresses starting at `a`.
pub open spec fn stored_bytes(mem: Map<i64, u8>, a: i64, bytes: Seq<u8>, n: int) -> Map<i64, u8>
    decreases n,
{
    if n <= 0 {
        mem
    } else {
        stored_bytes(mem, a, bytes, n - 1).insert(word_addr(a, n - 1), bytes[n - 1])
    }
}

/// The memory after storing the eight bytes of word `v` at consecutive
/// addresses starting at `a`.
pub open spec fn store_word(mem: Map<i64, u8>, a: i64, v: i64) -> Map<i64, u8> {
    stored_bytes(mem, a, spec_u64_to_le_bytes(to_unsigned(v)), 8)
}

/// What one fetch-decode-execute step yields.
#[verifier::ext_equal]
pub enum StepResult {
    /// Execution continues in the given state.
    Next(State),
    /// A halt instruction ended the run normally; the state is unchanged.
    Halted,
    /// A fatal fault ended the run abnormally.
    Faulted(Fault),
}

/// One step of the machine on `prog` from state `s`: validate the program
/// counter, decode, execute one instruction, advance.
pub open spec fn step(prog: Seq<Instruction>, s: State) -> StepResult {
    if s.pc < 0 || s.pc >= prog.len() {
        StepResult::Faulted(Fault::ProgramCounterOutOfRange { pc: s.pc, len: prog.len() as usize })
    } else {
        let next_pc = i64_specs::wrapping_add(s.pc, 1);
        match prog[s.pc as int] {
            Instruction::Add { destination, source1, source2 } => StepResult::Next(
                State {
                    regs: reg_write(
                        s.regs,
                        destination,
                        i64_specs::wrapping_add(
                            reg_read(s.regs, source1),
                            reg_read(s.regs, source2),
                        ),
                    ),
                    pc: next_pc,
                    ..s
                },
            ),
            Instruction::Sub { destination, source1, source2 } => StepResult::Next(
                State {
                    regs: reg_write(
                        s.regs,
                        destination,
                        i64_specs::wrapping_sub(
                            reg_read(s.regs, source1),
                            reg_read(s.regs, source2),
                        ),
                    ),
                    pc: next_pc,
                    ..s
                },
            ),
            Instruction::Mul { destination, source1, source2 } => StepResult::Next(
                State {
                    regs: reg_write(
                        s.regs,
                        destination,
                        i64_specs::wrapping_mul(
                            reg_read(s.regs, source1),
                            reg_read(s.regs, source2),
                        ),
                    ),
                    pc: next_pc,
                    ..s
                },
            ),
            Instruction::Div { destination, source1, source2 } => {
                if reg_read(s.regs, source2) == 0 {
                    StepResult::Faulted(Fault::DivisionByZero { pc: s.pc })
                } else {
                    StepResult::Next(
                        State {
                            regs: reg_write(
                                s.regs,
                                destination,
                                wrapping_div_i64(
                                    reg_read(s.regs, source1),
                                    reg_read(s.regs, source2),
                                ),
                            ),
                            pc: next_pc,
                            ..s
                        },
                    )
                }
            },
            Instruction::Load { destination, source } => StepResult::Next(
                State {
                    regs: reg_write(
                        s.regs,
                        destination,
                        load_word(s.mem, reg_read(s.regs, source)),
                    ),
                    pc: next_pc,
                    ..s
                },
            ),
            Instruction::LoadImmediate { destination, value } => StepResult::Next(
                State { regs: reg_write(s.regs, destination, value), pc: next_pc, ..s },
            ),
            Instruction::Store { destination, source } => StepResult::Next(
                State {
                    mem: store_word(
                        s.mem,
                        reg_read(s.regs, destination),
                        reg_read(s.regs, source),
                    ),
                    pc: next_pc,
                    ..s
                },
            ),
            Instruction::JumpIfLessThanZero { offset, value } => StepResult::Next(
                State {
                    pc: if reg_read(s.regs, value) < 0 {
                        i64_specs::wrapping_add(s.pc, offset as i64)
                    } else {
                        next_pc
                    },
                    ..s
                },
            ),
            Instruction::PutChar(r) => StepResult::Next(
                State { out: s.out.push(low_char(reg_read(s.regs, r))), pc: next_pc, ..s },
            ),
            Instruction::PutInt(r) => StepResult::Next(
                State { out: s.out + dec_str(reg_read(s.regs, r)), pc: next_pc, ..s },
            ),
            Instruction::Halt => StepResult::Halted,
        }
    }
}

/// What a fuelled run yields: still running after the fuel ran out, or a
/// terminal result reached within it.
#[verifier::ext_equal]
pub enum RunResult {
    /// The fuel ran out with the machine in the given state.
    Running(State),
    /// The run ended normally, in the given state.
    Halted(State),
    /// The run ended abnormally, in the given state, with the given fault.
    Faulted(State, Fault),
}

/// The machine run for at most `fuel` steps on `prog` from state `s`.
/// Once a run reaches a terminal result, more fuel does not change it.
pub open spec fn run(prog: Seq<Instruction>, s: State, fuel: nat) -> RunResult
    decreases fuel,
{
    if fuel == 0 {
        RunResult::Running(s)
    } else {
        match step(prog, s) {
            StepResult::Next(s2) => run(prog, s2, (fuel - 1) as nat),
            StepResult::Halted => RunResult::Halted(s),
            StepResult::Faulted(f) => RunResult::Faulted(s, f),
        }
    }
}

/// A run that has reached a terminal result keeps it under any larger
/// fuel.
pub proof fn lemma_run_stable(prog: Seq<Instruction>, s0: State, n: nat, m: nat)
    requires
        n <= m,
        !(run(prog, s0, n) is Running),
    ensures
        run(prog, s0, m) == run(prog, s0, n),
    decreases n,
{
    if n > 0 {
        match step(prog, s0) {
            StepResult::Next(s1) => {
                lemma_run_stable(prog, s1, (n - 1) as nat, (m - 1) as nat);
            },
            StepResult::Halted => {
            },
            StepResult::Faulted(_) => {
            },
        }
    }
}

/// Running one step longer applies `step` to the state the shorter run
/// was left in.
pub proof fn lemma_run_succ(prog: Seq<Instruction>, s0: State, n: nat)
    ensures
        run(prog, s0, n) matches RunResult::Running(s) ==> run(prog, s0, n + 1) == (match step(
            prog,
            s,
        ) {
            StepResult::Next(s2) => RunResult::Running(s2),
            StepResult::Halted => RunResult::Halted(s),
            StepResult::Faulted(f) => RunResult::Faulted(s, f),
        }),
    decreases n,
{
    if run(prog, s0, n) is Running {
        if n == 0 {
            assert(run(prog, s0, n) == RunResult::Running(s0));
            assert(run(prog, s0, 1) == (match step(prog, s0) {
                StepResult::Next(s2) => RunResult::Running(s2),
                StepResult::Halted => RunResult::Halted(s0),
                StepResult::Faulted(f) => RunResult::Faulted(s0, f),
            }));
        } else {
            match step(prog, s0) {
                StepResult::Next(s1) => {
                    assert(run(prog, s0, n) == run(prog, s1, (n - 1) as nat));
                    assert(run(prog, s0, n + 1) == run(prog, s1, n));
                    lemma_run_succ(prog, s1, (n - 1) as nat);
                    assert((n - 1) as nat + 1 == n);
                },
                StepResult::Halted => {
                    assert(!(run(prog, s0, n) is Running));
                },
                StepResult::Faulted(_) => {
                    assert(!(run(prog, s0, n) is Running));
                },
            }
        }
    }
}

/// A single step from a well-formed state leaves the state well-formed:
/// in particular register 0 still holds zero, whatever the instruction
/// and whichever register it names as its destination.
pub proof fn lemma_step_preserves_wf(prog: Seq<Instruction>, s: State)
    requires
        state_wf(s),
    ensures
        step(prog, s) matches StepResult::Next(s2) ==> state_wf(s2),
{
}

/// Register zero invariant: from a well-formed state, every state a run
/// can reach — still running, halted or faulted — is well-formed, and
/// reading register 0 in it yields zero.
pub proof fn lemma_run_register_zero(prog: Seq<Instruction>, s0: State, n: nat)
    requires
        state_wf(s0),
    ensures
        (match run(prog, s0, n) {
            RunResult::Running(s) => state_wf(s) && reg_read(s.regs, Register::r0) == 0,
            RunResult::Halted(s) => state_wf(s) && reg_read(s.regs, Register::r0) == 0,
            RunResult::Faulted(s, _) => state_wf(s) && reg_read(s.regs, Register::r0) == 0,
        }),
    decreases n,
{
    if n > 0 {
        match step(prog, s0) {
            StepResult::Next(s1) => {
                lemma_step_preserves_wf(prog, s0);
                lemma_run_register_zero(prog, s1, (n - 1) as nat);
            },
            StepResult::Halted => {
            },
            StepResult::Faulted(_) => {
            },
        }
    }
}

/// Wraparound arithmetic: an add, subtract or multiply instruction never
/// faults, whatever words its source registers hold — at the 64-bit
/// boundary the destination word simply wraps around, as the
/// `wrapping_add`, `wrapping_sub` and `wrapping_mul` clauses of `step`
/// prescribe.
pub proof fn lemma_arithmetic_never_faults(prog: Seq<Instruction>, s: State)
    requires
        0 <= s.pc < prog.len(),
        prog[s.pc as int] is Add || prog[s.pc as int] is Sub || prog[s.pc as int] is Mul,
    ensures
        step(prog, s) is Next,
{
}

/// Two consecutive addresses among the eight of one word never collide,
/// even where the addresses wrap around the 64-bit space.
pub proof fn lemma_word_addr_distinct(a: i64, j: int, k: int)
    requires
        0 <= j < 8,
        0 <= k < 8,
        j != k,
    ensures
        word_addr(a, j) != word_addr(a, k),
{
}

/// Inside the first `n` stored bytes, the byte put at offset `k` is the
/// one found there.
pub proof fn lemma_stored_bytes_lookup(
    mem: Map<i64, u8>,
    a: i64,
    bytes: Seq<u8>,
    n: int,
    k: int,
)
    requires
        0 <= k < n <= 8,
        bytes.len() >= n,
    ensures
        stored_bytes(mem, a, bytes, n).contains_key(word_addr(a, k)),
        stored_bytes(mem, a, bytes, n)[word_addr(a, k)] == bytes[k],
    decreases n,
{
    if k < n - 1 {
        lemma_stored_bytes_lookup(mem, a, bytes, n - 1, k);
        lemma_word_addr_distinct(a, k, n - 1);
    }
}

/// Load/Store round-trip: storing word `v` at address `a` and loading
/// the word back from `a` yields exactly `v`, for every value, every
/// address — positive, negative or zero — and every prior memory.
pub proof fn lemma_store_load_round_trip(mem: Map<i64, u8>, a: i64, v: i64)
    ensures
        load_word(store_word(mem, a, v), a) == v,
{
    let bytes = spec_u64_to_le_bytes(to_unsigned(v));
    lemma_auto_spec_u64_to_from_le_bytes();
    let m2 = store_word(mem, a, v);
    assert forall|k: int| 0 <= k < 8 implies word_bytes(m2, a)[k] == bytes[k] by {
        lemma_stored_bytes_lookup(mem, a, bytes, 8, k);
    }
    assert(word_bytes(m2, a) =~= bytes);
    crate::sundries::lemma_signed_unsigned_inverse(v, 0);
}

/// Load/Store round-trip at the instruction level: a store of the word in
/// `val_reg` at the address in `addr_reg`, followed by a load through the
/// same address register into any writable register, puts exactly that
/// word there — for every word, every address (positive, negative or
/// zero) and every prior memory.
pub proof fn lemma_store_then_load(
    prog: Seq<Instruction>,
    s: State,
    addr_reg: Register,
    val_reg: Register,
    dest: Register,
)
    requires
        state_wf(s),
        0 <= s.pc,
        s.pc + 1 < prog.len(),
        prog.len() <= i64::MAX,
        prog[s.pc as int] == (Instruction::Store { destination: addr_reg, source: val_reg }),
        prog[s.pc as int + 1] == (Instruction::Load { destination: dest, source: addr_reg }),
        dest.index() != 0,
    ensures
        step(prog, s) matches StepResult::Next(s1) && step(prog, s1) matches StepResult::Next(s2)
            && reg_read(s2.regs, dest) == reg_read(s.regs, val_reg),
{
    let a = reg_read(s.regs, addr_reg);
    let v = reg_read(s.regs, val_reg);
    let s1 = State { mem: store_word(s.mem, a, v), pc: i64_specs::wrapping_add(s.pc, 1), ..s };
    assert(step(prog, s) == StepResult::Next(s1));
    assert(s1.pc == s.pc + 1);
    let loaded = load_word(s1.mem, a);
    let s2 = State {
        regs: reg_write(s1.regs, dest, loaded),
        pc: i64_specs::wrapping_add(s1.pc, 1),
        ..s1
    };
    assert(step(prog, s1) == StepResult::Next(s2));
    lemma_store_load_round_trip(s.mem, a, v);
    assert(reg_read(s2.regs, dest) == v);
}

/// Jump correctness: on a conditional branch whose tested register holds
/// a negative word, the program counter moves by the branch's offset,
/// relative to the branch itself — `offset` positions forward, or back
/// for a negative offset; on a non-negative word execution proceeds to
/// the immediately following instruction. Nothing else changes.
pub proof fn lemma_jump_correctness(
    prog: Seq<Instruction>,
    s: State,
    offset: i16,
    value: Register,
)
    requires
        0 <= s.pc < prog.len(),
        prog.len() <= i64::MAX,
        prog[s.pc as int] == (Instruction::JumpIfLessThanZero { offset, value }),
    ensures
        reg_read(s.regs, value) < 0 ==> step(prog, s) == StepResult::Next(
            State { pc: i64_specs::wrapping_add(s.pc, offset as i64), ..s },
        ),
        reg_read(s.regs, value) < 0 && s.pc + offset <= i64::MAX ==> step(prog, s)
            == StepResult::Next(State { pc: (s.pc + offset) as i64, ..s }),
        reg_read(s.regs, value) >= 0 ==> step(prog, s) == StepResult::Next(
            State { pc: (s.pc + 1) as i64, ..s },
        ),
{
}

/// Out-of-range fault: a one-instruction program whose single instruction
/// executes (so neither halts nor faults on its own) and moves the
/// program counter anywhere but back onto itself has left `[0, 1)`, and
/// the run faults with the out-of-range program counter — it does not
/// continue.
pub proof fn lemma_overrun_faults(prog: Seq<Instruction>, s: State, s2: State)
    requires
        prog.len() == 1,
        s.pc == 0,
        step(prog, s) == StepResult::Next(s2),
        !(0 <= s2.pc < 1),
    ensures
        run(prog, s, 2) == RunResult::Faulted(
            s2,
            Fault::ProgramCounterOutOfRange { pc: s2.pc, len: 1 },
        ),
        forall|m: nat| m >= 2 ==> run(prog, s, m) == RunResult::Faulted(
            s2,
            Fault::ProgramCounterOutOfRange { pc: s2.pc, len: 1 },
        ),
{
    reveal_with_fuel(run, 3);
    assert(run(prog, s, 2) == RunResult::Faulted(
        s2,
        Fault::ProgramCounterOutOfRange { pc: s2.pc, len: 1 },
    ));
    assert forall|m: nat| m >= 2 implies run(prog, s, m) == RunResult::Faulted(
        s2,
        Fault::ProgramCounterOutOfRange { pc: s2.pc, len: 1 },
    ) by {
        lemma_run_stable(prog, s, 2, m);
    }
}

/// Division-by-zero fault: a division instruction whose divisor register
/// holds zero faults with `DivisionByZero`, whatever the dividend
/// register holds and whatever the destination is.
pub proof fn lemma_division_by_zero_faults(
    prog: Seq<Instruction>,
    s: State,
    destination: Register,
    source1: Register,
    source2: Register,
)
    requires
        0 <= s.pc < prog.len(),
        prog[s.pc as int] == (Instruction::Div { destination, source1, source2 }),
        reg_read(s.regs, source2) == 0,
    ensures
        step(prog, s) == StepResult::Faulted(Fault::DivisionByZero { pc: s.pc }),
{
}

} // verus!
