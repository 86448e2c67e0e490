//! The machine as a mathematical value, and what one instruction does to it.

use crate::opcode::{mode_of, operation_of, Mode, Operation};
use vstd::prelude::*;

verus! {

/// Where a machine rests once it has given control back.
#[derive(PartialEq, Eq, Debug, Clone, Copy, Structural)]
pub enum ExecutionState {
    WaitForInput,
    Halted,
}

/// Why an instruction cannot be carried out.
#[derive(PartialEq, Eq, Debug, Clone, Copy, Structural)]
pub enum Fault {
    /// The machine has halted: nothing more can run.
    Halted,
    /// The program counter lies outside memory.
    PcOutOfRange,
    /// The instruction word selects no operation.
    UnknownOpcode,
    /// A parameter's mode digit is neither position nor immediate.
    UnknownMode,
    /// A parameter, an address or a jump target lies outside memory.
    AddressOutOfRange,
    /// A sum or a product does not fit a memory cell.
    Overflow,
}

/// How a bounded run came to its end.
#[derive(PartialEq, Eq, Debug, Clone, Copy, Structural)]
pub enum Stop {
    /// The machine waits for input or has halted.
    Settled,
    /// The next instruction cannot be carried out; the machine stands before it.
    Faulted(Fault),
    /// The allowance of instructions is used up.
    Exhausted,
}

/// The whole state of a machine.
pub struct Machine {
    pub pc: nat,
    pub memory: Seq<isize>,
    pub input: Seq<isize>,
    pub output: Seq<isize>,
    pub state: Option<ExecutionState>,
}

/// The value that a three-parameter operation writes for operands `a` and `b`.
/// No other operation writes one.
pub open spec fn combine(operation: Operation, a: isize, b: isize) -> Result<isize, Fault> {
    match operation {
        Operation::Add => if isize::MIN <= a + b <= isize::MAX {
            Ok((a + b) as isize)
        } else {
            Err(Fault::Overflow)
        },
        Operation::Mul => if isize::MIN <= a * b <= isize::MAX {
            Ok((a * b) as isize)
        } else {
            Err(Fault::Overflow)
        },
        Operation::LessThan => Ok(if a < b { 1isize } else { 0isize }),
        Operation::Equals => Ok(if a == b { 1isize } else { 0isize }),
        _ => Err(Fault::UnknownOpcode),
    }
}

impl Machine {
    /// A freshly loaded program.
    pub open spec fn load(program: Seq<isize>) -> Machine {
        Machine { pc: 0, memory: program, input: Seq::empty(), output: Seq::empty(), state: None }
    }

    /// Whether the machine has halted.
    pub open spec fn is_halted(self) -> bool {
        self.state == Some(ExecutionState::Halted)
    }

    /// Whether the machine waits for input.
    pub open spec fn is_waiting(self) -> bool {
        self.state == Some(ExecutionState::WaitForInput)
    }

    /// Whether the machine has given control back: it waits or has halted.
    pub open spec fn at_rest(self) -> bool {
        self.state.is_some()
    }

    /// The cell at `address`.
    pub open spec fn cell(self, address: int) -> Result<isize, Fault> {
        if 0 <= address < self.memory.len() {
            Ok(self.memory[address])
        } else {
            Err(Fault::AddressOutOfRange)
        }
    }

    /// The raw value of parameter `k` of the instruction at the program counter.
    pub open spec fn raw(self, k: nat) -> Result<isize, Fault> {
        self.cell((self.pc + k) as int)
    }

    /// The value of parameter `k`, read by the mode that `instruction` gives it.
    pub open spec fn operand(self, instruction: int, k: nat) -> Result<isize, Fault> {
        match self.raw(k) {
            Err(fault) => Err(fault),
            Ok(raw) => match mode_of(instruction, k) {
                None => Err(Fault::UnknownMode),
                Some(Mode::Immediate) => Ok(raw),
                Some(Mode::Position) => self.cell(raw as int),
            },
        }
    }

    /// The address that parameter `k` names as the cell to write. It is the raw
    /// value whatever the parameter's mode digit says.
    pub open spec fn destination(self, k: nat) -> Result<int, Fault> {
        match self.raw(k) {
            Err(fault) => Err(fault),
            Ok(raw) => if 0 <= raw < self.memory.len() {
                Ok(raw as int)
            } else {
                Err(Fault::AddressOutOfRange)
            },
        }
    }

    /// The machine after `value` went to the cell at `address` and the program
    /// counter moved on by `width`.
    pub open spec fn stored(self, address: int, value: isize, width: nat) -> Machine {
        Machine {
            pc: self.pc + width,
            memory: self.memory.update(address, value),
            state: None,
            ..self
        }
    }

    /// Add, Mul, LessThan and Equals: two operands, one destination.
    pub open spec fn step_binary(self, instruction: int, operation: Operation) -> Result<
        Machine,
        Fault,
    > {
        match self.operand(instruction, 1) {
            Err(fault) => Err(fault),
            Ok(a) => match self.operand(instruction, 2) {
                Err(fault) => Err(fault),
                Ok(b) => match self.destination(3) {
                    Err(fault) => Err(fault),
                    Ok(address) => match combine(operation, a, b) {
                        Err(fault) => Err(fault),
                        Ok(value) => Ok(self.stored(address, value, 4)),
                    },
                },
            },
        }
    }

    /// Input: with an empty queue the machine waits where it stands; else the
    /// oldest value leaves the queue for the destination.
    pub open spec fn step_input(self) -> Result<Machine, Fault> {
        if self.input.len() == 0 {
            Ok(Machine { state: Some(ExecutionState::WaitForInput), ..self })
        } else {
            match self.destination(1) {
                Err(fault) => Err(fault),
                Ok(address) => Ok(
                    Machine {
                        input: self.input.subrange(1, self.input.len() as int),
                        ..self.stored(address, self.input[0], 2)
                    },
                ),
            }
        }
    }

    /// Output: the operand goes to the back of the output queue.
    pub open spec fn step_output(self, instruction: int) -> Result<Machine, Fault> {
        match self.operand(instruction, 1) {
            Err(fault) => Err(fault),
            Ok(value) => Ok(
                Machine { pc: self.pc + 2, output: self.output.push(value), state: None, ..self },
            ),
        }
    }

    /// JumpIfTrue (`when_nonzero`) and JumpIfFalse: where the first operand
    /// meets the condition the program counter becomes the second operand,
    /// which must lie inside memory; else it moves past the instruction.
    pub open spec fn step_jump(self, instruction: int, when_nonzero: bool) -> Result<
        Machine,
        Fault,
    > {
        match self.operand(instruction, 1) {
            Err(fault) => Err(fault),
            Ok(condition) => match self.operand(instruction, 2) {
                Err(fault) => Err(fault),
                Ok(target) => if (condition != 0) == when_nonzero {
                    if 0 <= target < self.memory.len() {
                        Ok(Machine { pc: target as nat, state: None, ..self })
                    } else {
                        Err(Fault::AddressOutOfRange)
                    }
                } else {
                    Ok(Machine { pc: self.pc + 3, state: None, ..self })
                },
            },
        }
    }

    /// One instruction: the machine after it, or why it cannot be carried out.
    /// A machine that comes out at rest has given control back.
    pub open spec fn step(self) -> Result<Machine, Fault> {
        if self.is_halted() {
            Err(Fault::Halted)
        } else if self.pc >= self.memory.len() {
            Err(Fault::PcOutOfRange)
        } else {
            let instruction = self.memory[self.pc as int] as int;
            match operation_of(instruction) {
                None => Err(Fault::UnknownOpcode),
                Some(Operation::Halt) => Ok(
                    Machine { state: Some(ExecutionState::Halted), ..self },
                ),
                Some(Operation::Input) => self.step_input(),
                Some(Operation::Output) => self.step_output(instruction),
                Some(Operation::JumpIfTrue) => self.step_jump(instruction, true),
                Some(Operation::JumpIfFalse) => self.step_jump(instruction, false),
                Some(operation) => self.step_binary(instruction, operation),
            }
        }
    }

    /// The machine after at most `fuel` instructions, and how the run ended: it
    /// ends at the first instruction that leaves the machine at rest, before
    /// the first that cannot be carried out, or when `fuel` is used up.
    pub open spec fn run_for(self, fuel: nat) -> (Machine, Stop)
        decreases fuel,
    {
        if fuel == 0 {
            (self, Stop::Exhausted)
        } else {
            match self.step() {
                Err(fault) => (self, Stop::Faulted(fault)),
                Ok(next) => if next.at_rest() {
                    (next, Stop::Settled)
                } else {
                    next.run_for((fuel - 1) as nat)
                },
            }
        }
    }

    /// Whether a run comes to rest after some number of instructions, none of
    /// which faults.
    pub open spec fn settles(self) -> bool {
        exists|fuel: nat| (#[trigger] self.run_for(fuel)).1 == Stop::Settled
    }

    /// The machine at rest that a run which settles ends in.
    pub open spec fn outcome(self) -> Machine {
        self.run_for(choose|fuel: nat| (#[trigger] self.run_for(fuel)).1 == Stop::Settled).0
    }
}

/// A run that has settled is not changed by a larger allowance.
pub proof fn lemma_more_fuel(machine: Machine, fuel: nat, more: nat)
    requires
        fuel <= more,
        machine.run_for(fuel).1 == Stop::Settled,
    ensures
        machine.run_for(more) == machine.run_for(fuel),
    decreases fuel,
{
    if fuel > 0 {
        match machine.step() {
            Err(_) => {},
            Ok(next) => {
                if !next.at_rest() {
                    lemma_more_fuel(next, (fuel - 1) as nat, (more - 1) as nat);
                }
            },
        }
    }
}

/// A run whose allowance is used up goes on, with a further allowance, from
/// the machine it has reached.
pub proof fn lemma_run_resumes(machine: Machine, fuel: nat, further: nat)
    requires
        machine.run_for(fuel).1 == Stop::Exhausted,
    ensures
        machine.run_for(fuel + further) == machine.run_for(fuel).0.run_for(further),
    decreases fuel,
{
    if fuel > 0 {
        match machine.step() {
            Err(_) => {},
            Ok(next) => {
                if !next.at_rest() {
                    lemma_run_resumes(next, (fuel - 1) as nat, further);
                    assert((fuel + further - 1) as nat == (fuel - 1) as nat + further);
                }
            },
        }
    }
}

/// A run that settles within `fuel` instructions settles, and its outcome is
/// the machine reached with that allowance.
pub proof fn lemma_outcome(machine: Machine, fuel: nat)
    requires
        machine.run_for(fuel).1 == Stop::Settled,
    ensures
        machine.settles(),
        machine.outcome() == machine.run_for(fuel).0,
{
    let chosen = choose|fuel: nat| (#[trigger] machine.run_for(fuel)).1 == Stop::Settled;
    if chosen <= fuel {
        lemma_more_fuel(machine, chosen, fuel);
    } else {
        lemma_more_fuel(machine, fuel, chosen);
    }
}

} // verus!
