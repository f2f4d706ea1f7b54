//! The execution engine: the register file, the sparse memory, the output
//! stream, and the fetch-decode-execute loop, each step proved to follow
//! the small-step semantics in `semantics`.

use vstd::prelude::*;

verus! {

use crate::assembly::Instruction;
use crate::assembly::Register;
use crate::semantics::Fault;
use crate::semantics::RunResult;
use crate::semantics::State;
use crate::semantics::StepResult;
use crate::semantics::byte_at;
use crate::semantics::lemma_run_stable;
use crate::semantics::lemma_run_succ;
use crate::semantics::load_word;
use crate::semantics::reg_read;
use crate::semantics::reg_write;
use crate::semantics::run;
use crate::semantics::step;
use crate::semantics::store_word;
use crate::semantics::stored_bytes;
use crate::semantics::word_addr;
use crate::semantics::word_bytes;
use crate::sundries::format_decimal;
use crate::sundries::int64;
use crate::sundries::signed_bits;
use crate::sundries::to_unsigned;
use vstd::bytes::spec_u64_to_le_bytes;
use vstd::bytes::u64_from_le_bytes;

broadcast use vstd::std_specs::hash::group_hash_axioms;

/// How a bounded run of the machine ended.
#[derive(Clone, Copy, Debug, Hash, PartialEq, Eq, Structural)]
pub enum Outcome {
    /// The step budget ran out before the program halted or faulted.
    Running,
    /// A halt instruction ended the run normally.
    Halted,
    /// A fatal fault ended the run abnormally.
    Faulted(Fault),
}

/// The machine: sixteen word registers (slot 0 hard-wired to zero), a
/// sparse byte memory, and the characters emitted so far.
#[derive(Debug)]
pub struct Cpu {
    /// The sixteen general-purpose registers.
    pub registers: Vec<int64>,
    /// The sparse memory: only addresses that were stored to have entries.
    pub memory: std::collections::HashMap<i64, u8>,
    /// The output stream, in program order.
    pub output: Vec<char>,
}

impl Cpu {
    /// The register file as a sequence of plain words.
    pub open spec fn regs_view(self) -> Seq<i64> {
        self.registers@.map_values(|x: int64| x.0)
    }

    /// A well-formed machine: sixteen registers, register 0 holding zero.
    pub open spec fn wf(self) -> bool {
        &&& self.regs_view().len() == 16
        &&& self.regs_view()[0] == 0
    }

    /// The abstract state of this machine at program counter `pc`.
    pub open spec fn state(self, pc: i64) -> State {
        (State { regs: self.regs_view(), mem: self.memory@, out: self.output@, pc })
    }

    /// A machine with all registers zero, empty memory and empty output.
    pub fn new() -> (c: Cpu)
        ensures
            c.wf(),
            forall|i: int| 0 <= i < 16 ==> c.regs_view()[i] == 0,
            c.memory@ == Map::<i64, u8>::empty(),
            c.output@ == Seq::<char>::empty(),
    {
        let mut registers: Vec<int64> = Vec::new();
        let mut i: usize = 0;
        while i < 16
            invariant
                i <= 16,
                registers@.len() == i,
                forall|j: int| 0 <= j < i ==> registers@[j].0 == 0,
            decreases 16 - i,
        {
            registers.push(int64(0));
            i = i + 1;
        }
        Cpu { registers, memory: std::collections::HashMap::new(), output: Vec::new() }
    }

    /// The word read from register `r`: zero for `r0`, the stored word
    /// otherwise.
    fn read_reg(&self, r: Register) -> (v: int64)
        requires
            self.wf(),
        ensures
            v.0 == reg_read(self.regs_view(), r),
    {
        let i: usize = r.to_index();
        if i == 0 {
            int64(0)
        } else {
            self.registers[i]
        }
    }

    /// Write `v` to register `r`; a write to `r0` is discarded.
    fn write_reg(&mut self, r: Register, v: int64)
        requires
            old(self).wf(),
        ensures
            final(self).wf(),
            final(self).regs_view() == reg_write(old(self).regs_view(), r, v.0),
            final(self).memory@ == old(self).memory@,
            final(self).output@ == old(self).output@,
    {
        let i: usize = r.to_index();
        if i != 0 {
            self.registers[i] = v;
            assert(self.regs_view() =~= reg_write(old(self).regs_view(), r, v.0));
        }
    }

    /// The byte at address `a`, or zero where none was ever stored.
    fn read_byte(&self, a: i64) -> (b: u8)
        ensures
            b == byte_at(self.memory@, a),
    {
        match self.memory.get(&a) {
            Some(b) => *b,
            None => 0,
        }
    }

    /// The word stored in the eight bytes starting at address `a`.
    fn load_word_at(&self, a: i64) -> (v: i64)
        ensures
            v == load_word(self.memory@, a),
    {
        let mut bytes: Vec<u8> = Vec::new();
        let mut k: usize = 0;
        while k < 8
            invariant
                k <= 8,
                bytes@.len() == k,
                forall|j: int| 0 <= j < k ==> bytes@[j] == byte_at(self.memory@, word_addr(a, j)),
            decreases 8 - k,
        {
            bytes.push(self.read_byte(a.wrapping_add(k as i64)));
            k = k + 1;
        }
        assert(bytes@ =~= word_bytes(self.memory@, a));
        signed_bits(u64_from_le_bytes(bytes.as_slice()))
    }

    /// Store the eight bytes of word `v` starting at address `a`.
    fn store_word_at(&mut self, a: i64, v: int64)
        ensures
            final(self).memory@ == store_word(old(self).memory@, a, v.0),
            final(self).registers == old(self).registers,
            final(self).output == old(self).output,
    {
        let bytes: Vec<u8> = v.to_bytes();
        let mut k: usize = 0;
        while k < 8
            invariant
                k <= 8,
                bytes@ == spec_u64_to_le_bytes(to_unsigned(v.0)),
                bytes@.len() == 8,
                self.memory@ == stored_bytes(old(self).memory@, a, bytes@, k as int),
                self.registers == old(self).registers,
                self.output == old(self).output,
            decreases 8 - k,
        {
            self.memory.insert(a.wrapping_add(k as i64), bytes[k]);
            k = k + 1;
        }
    }

    /// Run `program` from program counter 0 until a halt instruction, a
    /// fault, or the end of a budget of `fuel` steps, reading and writing
    /// this machine's registers and memory and appending any emitted
    /// characters to its output.
    ///
    /// The machine is left exactly where the small-step semantics puts a
    /// run of `fuel` steps: halted, faulted with the reported fault, or
    /// still running with the budget spent.
    pub fn execute(&mut self, program: &[Instruction], fuel: u64) -> (res: Outcome)
        requires
            old(self).wf(),
            program@.len() <= i64::MAX,
        ensures
            final(self).wf(),
            exists|pc: i64|
                (match res {
                    Outcome::Running => run(program@, old(self).state(0), fuel as nat)
                        == RunResult::Running(final(self).state(pc)),
                    Outcome::Halted => run(program@, old(self).state(0), fuel as nat)
                        == RunResult::Halted(final(self).state(pc)),
                    Outcome::Faulted(f) => run(program@, old(self).state(0), fuel as nat)
                        == RunResult::Faulted(final(self).state(pc), f),
                }),
    {
        let ghost init = self.state(0);
        let mut pc: i64 = 0;
        let mut left: u64 = fuel;
        loop
            invariant
                self.wf(),
                program@.len() <= i64::MAX,
                init == old(self).state(0),
                left <= fuel,
                run(program@, init, (fuel - left) as nat) == RunResult::Running(self.state(pc)),
            decreases left,
        {
            if left == 0 {
                proof {
                    assert(run(program@, init, fuel as nat) == RunResult::Running(
                        self.state(pc),
                    ));
                }
                return Outcome::Running;
            }
            let ghost spent = (fuel - left) as nat;
            proof {
                lemma_run_succ(program@, init, spent);
            }
            let ghost s0 = self.state(pc);
            if pc < 0 || pc >= program.len() as i64 {
                let f = Fault::ProgramCounterOutOfRange { pc, len: program.len() };
                proof {
                    assert(step(program@, s0) == StepResult::Faulted(f));
                    assert(run(program@, init, spent + 1) == RunResult::Faulted(s0, f));
                    lemma_run_stable(program@, init, spent + 1, fuel as nat);
                }
                return Outcome::Faulted(f);
            }
            let instr: Instruction = program[pc as usize];
            match instr {
                Instruction::Add { destination, source1, source2 } => {
                    let v = self.read_reg(source1).add(self.read_reg(source2));
                    self.write_reg(destination, v);
                    pc = pc.wrapping_add(1);
                    proof {
                        assert(step(program@, s0) == StepResult::Next(self.state(pc)));
                    }
                },
                Instruction::Sub { destination, source1, source2 } => {
                    let v = self.read_reg(source1).sub(self.read_reg(source2));
                    self.write_reg(destination, v);
                    pc = pc.wrapping_add(1);
                    proof {
                        assert(step(program@, s0) == StepResult::Next(self.state(pc)));
                    }
                },
                Instruction::Mul { destination, source1, source2 } => {
                    let v = self.read_reg(source1).mul(self.read_reg(source2));
                    self.write_reg(destination, v);
                    pc = pc.wrapping_add(1);
                    proof {
                        assert(step(program@, s0) == StepResult::Next(self.state(pc)));
                    }
                },
                Instruction::Div { destination, source1, source2 } => {
                    let d = self.read_reg(source2);
                    if d.0 == 0 {
                        let f = Fault::DivisionByZero { pc };
                        proof {
                            assert(step(program@, s0) == StepResult::Faulted(f));
                            assert(run(program@, init, spent + 1) == RunResult::Faulted(s0, f));
                            lemma_run_stable(program@, init, spent + 1, fuel as nat);
                        }
                        return Outcome::Faulted(f);
                    }
                    let v = self.read_reg(source1).div(d);
                    self.write_reg(destination, v);
                    pc = pc.wrapping_add(1);
                    proof {
                        assert(step(program@, s0) == StepResult::Next(self.state(pc)));
                    }
                },
                Instruction::Load { destination, source } => {
                    let a = self.read_reg(source);
                    let v = self.load_word_at(a.0);
                    self.write_reg(destination, int64(v));
                    pc = pc.wrapping_add(1);
                    proof {
                        assert(step(program@, s0) == StepResult::Next(self.state(pc)));
                    }
                },
                Instruction::LoadImmediate { destination, value } => {
                    self.write_reg(destination, int64(value));
                    pc = pc.wrapping_add(1);
                    proof {
                        assert(step(program@, s0) == StepResult::Next(self.state(pc)));
                    }
                },
                Instruction::Store { destination, source } => {
                    let a = self.read_reg(destination);
                    let v = self.read_reg(source);
                    self.store_word_at(a.0, v);
                    pc = pc.wrapping_add(1);
                    proof {
                        assert(step(program@, s0) == StepResult::Next(self.state(pc)));
                    }
                },
                Instruction::JumpIfLessThanZero { offset, value } => {
                    let v = self.read_reg(value);
                    pc = if v.0 < 0 {
                        pc.wrapping_add(offset as i64)
                    } else {
                        pc.wrapping_add(1)
                    };
                    proof {
                        assert(step(program@, s0) == StepResult::Next(self.state(pc)));
                    }
                },
                Instruction::PutChar(r) => {
                    let c = self.read_reg(r).to_char();
                    self.output.push(c);
                    pc = pc.wrapping_add(1);
                    proof {
                        assert(step(program@, s0) == StepResult::Next(self.state(pc)));
                    }
                },
                Instruction::PutInt(r) => {
                    let v = self.read_reg(r);
                    let mut text = format_decimal(v.0);
                    self.output.append(&mut text);
                    pc = pc.wrapping_add(1);
                    proof {
                        assert(step(program@, s0) == StepResult::Next(self.state(pc)));
                    }
                },
                Instruction::Halt => {
                    proof {
                        assert(step(program@, s0) == StepResult::Halted);
                        assert(run(program@, init, spent + 1) == RunResult::Halted(s0));
                        lemma_run_stable(program@, init, spent + 1, fuel as nat);
                    }
                    return Outcome::Halted;
                },
            }
            left = left - 1;
        }
    }
}

impl Default for Cpu {
    /// A machine with all registers zero, empty memory and empty output.
    fn default() -> (c: Cpu)
        ensures
            c.wf(),
            forall|i: int| 0 <= i < 16 ==> c.regs_view()[i] == 0,
            c.memory@ == Map::<i64, u8>::empty(),
            c.output@ == Seq::<char>::empty(),
    {
        Cpu::new()
    }
}

} // verus!
