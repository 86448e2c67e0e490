//! The interpreter: a machine held in memory, stepped and run in place.

use crate::machine::{combine, lemma_outcome, ExecutionState, Fault, Machine, Stop};
use crate::opcode::{Mode, Opcode, Operation};
use std::collections::VecDeque;
use vstd::prelude::*;

verus! {

/// One interpreter instance. It owns its memory, its program counter and its
/// two queues; `input` is filled and `output` is drained by the caller, in
/// verified code through `push_input` and `pop_output`, whose contracts say
/// what becomes of the machine.
pub struct Intcode {
    pc: usize,
    memory: Vec<isize>,
    pub input: VecDeque<isize>,
    pub output: VecDeque<isize>,
    execution_state: Option<ExecutionState>,
}

impl View for Intcode {
    type V = Machine;

    closed spec fn view(&self) -> Machine {
        Machine {
            pc: self.pc as nat,
            memory: self.memory@,
            input: self.input@,
            output: self.output@,
            state: self.execution_state,
        }
    }
}

/// The value that a three-parameter operation writes, or the overflow of a
/// sum or product.
fn try_combine(operation: Operation, a: isize, b: isize) -> (value: Result<isize, Fault>)
    ensures
        value == combine(operation, a, b),
{
    match operation {
        Operation::Add => match a.checked_add(b) {
            Some(sum) => Ok(sum),
            None => Err(Fault::Overflow),
        },
        Operation::Mul => match a.checked_mul(b) {
            Some(product) => Ok(product),
            None => Err(Fault::Overflow),
        },
        Operation::LessThan => Ok(if a < b { 1 } else { 0 }),
        Operation::Equals => Ok(if a == b { 1 } else { 0 }),
        _ => Err(Fault::UnknownOpcode),
    }
}

impl Intcode {
    /// Loads a program: the program counter at 0, both queues empty, ready to run.
    pub fn new(program: Vec<isize>) -> (intcode: Self)
        ensures
            intcode@ == Machine::load(program@),
    {
        Intcode {
            pc: 0,
            memory: program,
            input: VecDeque::new(),
            output: VecDeque::new(),
            execution_state: None,
        }
    }

    /// The number of memory cells.
    pub fn memory_len(&self) -> (len: usize)
        ensures
            len == self@.memory.len(),
    {
        self.memory.len()
    }

    /// The index of the next instruction.
    pub fn pc(&self) -> (pc: usize)
        ensures
            pc == self@.pc,
    {
        self.pc
    }

    /// The cell at `addr`.
    pub fn read_memory(&self, addr: usize) -> (value: isize)
        requires
            addr < self@.memory.len(),
        ensures
            value == self@.memory[addr as int],
    {
        self.memory[addr]
    }

    /// Overwrites the cell at `addr`.
    pub fn write_memory(&mut self, addr: usize, val: isize)
        requires
            addr < old(self)@.memory.len(),
        ensures
            final(self)@ == (Machine {
                memory: old(self)@.memory.update(addr as int, val),
                ..old(self)@
            }),
    {
        self.memory.set(addr, val);
    }

    /// Whether the machine has halted: nothing more can run.
    pub fn is_halted(&self) -> (halted: bool)
        ensures
            halted == self@.is_halted(),
    {
        match self.execution_state {
            Some(ExecutionState::Halted) => true,
            _ => false,
        }
    }

    /// Whether the machine gave control back for want of input.
    pub fn is_waiting(&self) -> (waiting: bool)
        ensures
            waiting == self@.is_waiting(),
    {
        match self.execution_state {
            Some(ExecutionState::WaitForInput) => true,
            _ => false,
        }
    }

    /// Appends `value` to the back of the input queue.
    pub fn push_input(&mut self, value: isize)
        ensures
            final(self)@ == (Machine { input: old(self)@.input.push(value), ..old(self)@ }),
    {
        self.input.push_back(value);
    }

    /// Empties the output queue.
    pub fn clear_output(&mut self)
        ensures
            final(self)@ == (Machine { output: Seq::empty(), ..old(self)@ }),
    {
        self.output.clear();
    }

    /// Removes the oldest value from the output queue, if there is one.
    pub fn pop_output(&mut self) -> (value: Option<isize>)
        ensures
            match value {
                Some(front) => old(self)@.output.len() > 0 && front == old(self)@.output[0]
                    && final(self)@ == (Machine {
                    output: old(self)@.output.subrange(1, old(self)@.output.len() as int),
                    ..old(self)@
                }),
                None => old(self)@.output.len() == 0 && final(self)@ == old(self)@,
            },
    {
        self.output.pop_front()
    }

    /// The cell at `address`, which may be any number.
    fn try_cell(&self, address: isize) -> (value: Result<isize, Fault>)
        ensures
            value == self@.cell(address as int),
    {
        if address < 0 {
            return Err(Fault::AddressOutOfRange);
        }
        let at: usize = address as usize;
        if at < self.memory.len() {
            Ok(self.memory[at])
        } else {
            Err(Fault::AddressOutOfRange)
        }
    }

    /// The raw value of the parameter at `offset` from the program counter.
    fn try_raw(&self, offset: usize) -> (value: Result<isize, Fault>)
        ensures
            value == self@.raw(offset as nat),
            value.is_ok() ==> self@.pc + offset < self@.memory.len() <= usize::MAX,
    {
        let len: usize = self.memory.len();
        if self.pc < len && offset < len - self.pc {
            Ok(self.memory[self.pc + offset])
        } else {
            Err(Fault::AddressOutOfRange)
        }
    }

    /// The address that the parameter at `offset` names as the cell to write.
    fn try_destination(&self, offset: usize) -> (address: Result<usize, Fault>)
        ensures
            match self@.destination(offset as nat) {
                Ok(at) => address == Ok::<usize, Fault>(at as usize) && at < self@.memory.len(),
                Err(fault) => address == Err::<usize, Fault>(fault),
            },
            address.is_ok() ==> self@.pc + offset < self@.memory.len() <= usize::MAX,
    {
        match self.try_raw(offset) {
            Err(fault) => Err(fault),
            Ok(raw) => {
                if raw < 0 {
                    return Err(Fault::AddressOutOfRange);
                }
                let at: usize = raw as usize;
                if at < self.memory.len() {
                    Ok(at)
                } else {
                    Err(Fault::AddressOutOfRange)
                }
            },
        }
    }

    /// The value of the parameter at `offset`, read by the mode that `opcode`
    /// gives it, or the fault that stops the reading.
    pub fn try_parameter(&self, offset: usize, opcode: &Opcode) -> (value: Result<isize, Fault>)
        requires
            offset >= 1,
        ensures
            value == self@.operand(opcode.orig as int, offset as nat),
            value.is_ok() ==> self@.pc + offset < self@.memory.len() <= usize::MAX,
    {
        match self.try_raw(offset) {
            Err(fault) => Err(fault),
            Ok(raw) => match opcode.try_mode(offset) {
                None => Err(Fault::UnknownMode),
                Some(Mode::Immediate) => Ok(raw),
                Some(Mode::Position) => self.try_cell(raw),
            },
        }
    }

    /// The value of the parameter at `offset`, where it can be read.
    pub fn parameter(&self, offset: usize, opcode: &Opcode) -> (value: isize)
        requires
            offset >= 1,
            self@.operand(opcode.orig as int, offset as nat).is_ok(),
        ensures
            self@.operand(opcode.orig as int, offset as nat) == Ok::<isize, Fault>(value),
    {
        match self.try_parameter(offset, opcode) {
            Ok(value) => value,
            Err(_) => unreached(),
        }
    }

    /// Add, Mul, LessThan and Equals.
    fn step_binary(&mut self, opcode: &Opcode, operation: Operation) -> (done: Result<(), Fault>)
        ensures
            match old(self)@.step_binary(opcode.orig as int, operation) {
                Ok(next) => done.is_ok() && final(self)@ == next,
                Err(fault) => done == Err::<(), Fault>(fault) && final(self)@ == old(self)@,
            },
    {
        let a: isize = match self.try_parameter(1, opcode) {
            Ok(a) => a,
            Err(fault) => {
                return Err(fault);
            },
        };
        let b: isize = match self.try_parameter(2, opcode) {
            Ok(b) => b,
            Err(fault) => {
                return Err(fault);
            },
        };
        let address: usize = match self.try_destination(3) {
            Ok(address) => address,
            Err(fault) => {
                return Err(fault);
            },
        };
        let value: isize = match try_combine(operation, a, b) {
            Ok(value) => value,
            Err(fault) => {
                return Err(fault);
            },
        };
        self.memory.set(address, value);
        self.pc = self.pc + 4;
        self.execution_state = None;
        Ok(())
    }

    /// Input: waits where the queue is empty, else stores its front.
    fn step_input(&mut self) -> (done: Result<(), Fault>)
        ensures
            match old(self)@.step_input() {
                Ok(next) => done.is_ok() && final(self)@ == next,
                Err(fault) => done == Err::<(), Fault>(fault) && final(self)@ == old(self)@,
            },
    {
        if self.input.len() == 0 {
            self.execution_state = Some(ExecutionState::WaitForInput);
            return Ok(());
        }
        let address: usize = match self.try_destination(1) {
            Ok(address) => address,
            Err(fault) => {
                return Err(fault);
            },
        };
        match self.input.pop_front() {
            Some(value) => {
                self.memory.set(address, value);
                self.pc = self.pc + 2;
                self.execution_state = None;
                Ok(())
            },
            None => unreached(),
        }
    }

    /// Output: appends the operand to the output queue.
    fn step_output(&mut self, opcode: &Opcode) -> (done: Result<(), Fault>)
        ensures
            match old(self)@.step_output(opcode.orig as int) {
                Ok(next) => done.is_ok() && final(self)@ == next,
                Err(fault) => done == Err::<(), Fault>(fault) && final(self)@ == old(self)@,
            },
    {
        match self.try_parameter(1, opcode) {
            Err(fault) => Err(fault),
            Ok(value) => {
                self.output.push_back(value);
                self.pc = self.pc + 2;
                self.execution_state = None;
                Ok(())
            },
        }
    }

    /// JumpIfTrue (`when_nonzero`) and JumpIfFalse.
    fn step_jump(&mut self, opcode: &Opcode, when_nonzero: bool) -> (done: Result<(), Fault>)
        ensures
            match old(self)@.step_jump(opcode.orig as int, when_nonzero) {
                Ok(next) => done.is_ok() && final(self)@ == next,
                Err(fault) => done == Err::<(), Fault>(fault) && final(self)@ == old(self)@,
            },
    {
        let condition: isize = match self.try_parameter(1, opcode) {
            Ok(condition) => condition,
            Err(fault) => {
                return Err(fault);
            },
        };
        let target: isize = match self.try_parameter(2, opcode) {
            Ok(target) => target,
            Err(fault) => {
                return Err(fault);
            },
        };
        if (condition != 0) == when_nonzero {
            if target < 0 {
                return Err(Fault::AddressOutOfRange);
            }
            let to: usize = target as usize;
            if to >= self.memory.len() {
                return Err(Fault::AddressOutOfRange);
            }
            self.pc = to;
        } else {
            self.pc = self.pc + 3;
        }
        self.execution_state = None;
        Ok(())
    }

    /// Carries out the instruction at the program counter. Where it cannot be
    /// carried out the machine is left as it was and the fault is returned.
    pub fn try_step(&mut self) -> (done: Result<(), Fault>)
        ensures
            match old(self)@.step() {
                Ok(next) => done.is_ok() && final(self)@ == next,
                Err(fault) => done == Err::<(), Fault>(fault) && final(self)@ == old(self)@,
            },
    {
        if self.is_halted() {
            return Err(Fault::Halted);
        }
        if self.pc >= self.memory.len() {
            return Err(Fault::PcOutOfRange);
        }
        let opcode = Opcode::new(self.memory[self.pc]);
        match opcode.try_operation() {
            None => Err(Fault::UnknownOpcode),
            Some(Operation::Halt) => {
                self.execution_state = Some(ExecutionState::Halted);
                Ok(())
            },
            Some(Operation::Input) => self.step_input(),
            Some(Operation::Output) => self.step_output(&opcode),
            Some(Operation::JumpIfTrue) => self.step_jump(&opcode, true),
            Some(Operation::JumpIfFalse) => self.step_jump(&opcode, false),
            Some(operation) => self.step_binary(&opcode, operation),
        }
    }

    /// Runs at most `fuel` instructions: until the machine waits for input or
    /// halts, until an instruction cannot be carried out, or until the
    /// allowance is used up.
    pub fn run_for(&mut self, fuel: usize) -> (stop: Stop)
        ensures
            (final(self)@, stop) == old(self)@.run_for(fuel as nat),
    {
        let mut left: usize = fuel;
        while left > 0
            invariant
                self@.run_for(left as nat) == old(self)@.run_for(fuel as nat),
            decreases left,
        {
            match self.try_step() {
                Err(fault) => {
                    return Stop::Faulted(fault);
                },
                Ok(_) => {
                    if self.execution_state.is_some() {
                        return Stop::Settled;
                    }
                },
            }
            left = left - 1;
        }
        Stop::Exhausted
    }

    /// Runs the program until it waits for input or halts.
    pub fn run(&mut self)
        requires
            !old(self)@.is_halted(),
            old(self)@.settles(),
        ensures
            final(self)@ == old(self)@.outcome(),
            final(self)@.at_rest(),
    {
        let ghost mut fuel: nat = choose|fuel: nat|
            (#[trigger] self@.run_for(fuel)).1 == Stop::Settled;
        proof {
            lemma_outcome(self@, fuel);
        }
        loop
            invariant
                self@.run_for(fuel).1 == Stop::Settled,
                self@.run_for(fuel).0 == old(self)@.outcome(),
            decreases fuel,
        {
            match self.try_step() {
                Err(_) => unreached(),
                Ok(_) => {
                    if self.execution_state.is_some() {
                        return;
                    }
                },
            }
            proof {
                fuel = (fuel - 1) as nat;
            }
        }
    }
}

} // verus!
