//! What holds of every machine, proved from the definition of a step.

use crate::machine::{combine, ExecutionState, Fault, Machine, Stop};
use crate::opcode::{mode_of, operation_of, Mode, Operation};
use crate::pipeline::{chain_spec, feedback_spec, launched, relay_spec, Breakdown};
use vstd::prelude::*;

verus! {

/// The instruction word at the program counter.
pub open spec fn word(machine: Machine) -> int {
    machine.memory[machine.pc as int] as int
}

/// An Add or a Mul with two immediate operands `a` and `b` and the destination
/// `d` writes `a + b`, or `a * b`, to the cell at `d`, changes no other cell
/// and moves the program counter on by 4. This holds where `d` lies inside
/// memory and the result fits a cell.
pub proof fn lemma_immediate_arithmetic(machine: Machine, a: isize, b: isize, d: isize)
    requires
        !machine.is_halted(),
        machine.pc + 3 < machine.memory.len(),
        operation_of(word(machine)) == Some(Operation::Add) || operation_of(word(machine)) == Some(
            Operation::Mul,
        ),
        mode_of(word(machine), 1) == Some(Mode::Immediate),
        mode_of(word(machine), 2) == Some(Mode::Immediate),
        mode_of(word(machine), 3) == Some(Mode::Position),
        machine.memory[machine.pc as int + 1] == a,
        machine.memory[machine.pc as int + 2] == b,
        machine.memory[machine.pc as int + 3] == d,
        0 <= d < machine.memory.len(),
        operation_of(word(machine)) == Some(Operation::Add) ==> isize::MIN <= a + b <= isize::MAX,
        operation_of(word(machine)) == Some(Operation::Mul) ==> isize::MIN <= a * b <= isize::MAX,
    ensures
        machine.step().is_ok(),
        machine.step().unwrap().pc == machine.pc + 4,
        operation_of(word(machine)) == Some(Operation::Add) ==> machine.step().unwrap().memory
            == machine.memory.update(d as int, (a + b) as isize)
            && machine.step().unwrap().memory[d as int] == a + b,
        operation_of(word(machine)) == Some(Operation::Mul) ==> machine.step().unwrap().memory
            == machine.memory.update(d as int, (a * b) as isize)
            && machine.step().unwrap().memory[d as int] == a * b,
        machine.step().unwrap().input == machine.input,
        machine.step().unwrap().output == machine.output,
        !machine.step().unwrap().at_rest(),
{
}

/// LessThan and Equals never fault on their operands, and what they write is
/// exactly 1 where the comparison holds and exactly 0 where it does not.
pub proof fn lemma_comparison_value(operation: Operation, a: isize, b: isize)
    requires
        operation == Operation::LessThan || operation == Operation::Equals,
    ensures
        combine(operation, a, b) == Ok::<isize, Fault>(0) || combine(operation, a, b) == Ok::<
            isize,
            Fault,
        >(1),
        operation == Operation::LessThan ==> (combine(operation, a, b) == Ok::<isize, Fault>(1)
            <==> a < b),
        operation == Operation::Equals ==> (combine(operation, a, b) == Ok::<isize, Fault>(1)
            <==> a == b),
{
}

/// A LessThan or an Equals whose operands read as `a` and `b` and whose
/// destination is `d` writes 1 or 0 to the cell at `d`, as the comparison
/// holds or not, and moves the program counter on by 4.
pub proof fn lemma_comparison_step(machine: Machine, a: isize, b: isize, d: int)
    requires
        !machine.is_halted(),
        machine.pc < machine.memory.len(),
        operation_of(word(machine)) == Some(Operation::LessThan) || operation_of(word(machine))
            == Some(Operation::Equals),
        machine.operand(word(machine), 1) == Ok::<isize, Fault>(a),
        machine.operand(word(machine), 2) == Ok::<isize, Fault>(b),
        machine.destination(3) == Ok::<int, Fault>(d),
    ensures
        machine.step().is_ok(),
        machine.step().unwrap().pc == machine.pc + 4,
        machine.step().unwrap().memory[d] == 0 || machine.step().unwrap().memory[d] == 1,
        operation_of(word(machine)) == Some(Operation::LessThan) ==> (
        machine.step().unwrap().memory[d] == 1 <==> a < b),
        operation_of(word(machine)) == Some(Operation::Equals) ==> (
        machine.step().unwrap().memory[d] == 1 <==> a == b),
        machine.step().unwrap().memory == machine.memory.update(
            d,
            machine.step().unwrap().memory[d],
        ),
{
}

/// Whether a jump instruction with the first operand `condition` is taken.
pub open spec fn jump_taken(operation: Operation, condition: isize) -> bool {
    (operation == Operation::JumpIfTrue && condition != 0) || (operation
        == Operation::JumpIfFalse && condition == 0)
}

/// A jump that is taken sets the program counter to the value of its second
/// operand: the raw parameter in immediate mode, the cell that the raw
/// parameter names in position mode. A jump that is not taken moves on by 3.
/// A target outside memory is a fault.
pub proof fn lemma_jump_step(machine: Machine, condition: isize, target: isize)
    requires
        !machine.is_halted(),
        machine.pc < machine.memory.len(),
        operation_of(word(machine)) == Some(Operation::JumpIfTrue) || operation_of(word(machine))
            == Some(Operation::JumpIfFalse),
        machine.operand(word(machine), 1) == Ok::<isize, Fault>(condition),
        machine.operand(word(machine), 2) == Ok::<isize, Fault>(target),
    ensures
        mode_of(word(machine), 2) == Some(Mode::Immediate) ==> target == machine.memory[machine.pc as int + 2],
        mode_of(word(machine), 2) == Some(Mode::Position) ==> target
            == machine.memory[machine.memory[machine.pc as int + 2] as int],
        jump_taken(operation_of(word(machine)).unwrap(), condition) && 0 <= target
            < machine.memory.len() ==> machine.step() == Ok::<Machine, Fault>(
            Machine { pc: target as nat, state: None, ..machine },
        ),
        jump_taken(operation_of(word(machine)).unwrap(), condition) && !(0 <= target
            < machine.memory.len()) ==> machine.step() == Err::<Machine, Fault>(
            Fault::AddressOutOfRange,
        ),
        !jump_taken(operation_of(word(machine)).unwrap(), condition) ==> machine.step() == Ok::<
            Machine,
            Fault,
        >(Machine { pc: machine.pc + 3, state: None, ..machine }),
{
}

/// Halted is final: a halted machine carries out no instruction, however it
/// is run, and no run of it settles.
pub proof fn lemma_halted_is_final(machine: Machine)
    requires
        machine.is_halted(),
    ensures
        machine.step() == Err::<Machine, Fault>(Fault::Halted),
        forall|fuel: nat|
            fuel > 0 ==> #[trigger] machine.run_for(fuel) == (machine, Stop::Faulted(Fault::Halted)),
        !machine.settles(),
{
    assert forall|fuel: nat| (#[trigger] machine.run_for(fuel)).1 != Stop::Settled by {
        if fuel > 0 {
        }
    }
}

/// An Input instruction that finds the queue empty leaves memory, program
/// counter and queues as they are and marks the machine as waiting; a run
/// from there ends at once, in that machine. So running a waiting machine
/// again without input changes nothing.
pub proof fn lemma_input_waits(machine: Machine)
    requires
        !machine.is_halted(),
        machine.pc < machine.memory.len(),
        operation_of(word(machine)) == Some(Operation::Input),
        machine.input.len() == 0,
    ensures
        machine.step() == Ok::<Machine, Fault>(
            Machine { state: Some(ExecutionState::WaitForInput), ..machine },
        ),
        machine.settles(),
        machine.outcome() == (Machine { state: Some(ExecutionState::WaitForInput), ..machine }),
        machine.outcome().outcome() == machine.outcome(),
{
    let waiting = Machine { state: Some(ExecutionState::WaitForInput), ..machine };
    assert(machine.run_for(1) == (waiting, Stop::Settled));
    crate::machine::lemma_outcome(machine, 1);
    assert(waiting.run_for(1) == (waiting, Stop::Settled));
    crate::machine::lemma_outcome(waiting, 1);
}

/// A Halt instruction changes nothing but the state, which becomes Halted.
pub proof fn lemma_halt_step(machine: Machine)
    requires
        !machine.is_halted(),
        machine.pc < machine.memory.len(),
        operation_of(word(machine)) == Some(Operation::Halt),
    ensures
        machine.step() == Ok::<Machine, Fault>(
            Machine { state: Some(ExecutionState::Halted), ..machine },
        ),
        machine.settles(),
        machine.outcome() == (Machine { state: Some(ExecutionState::Halted), ..machine }),
{
    let halted = Machine { state: Some(ExecutionState::Halted), ..machine };
    assert(machine.run_for(1) == (halted, Stop::Settled));
    crate::machine::lemma_outcome(machine, 1);
}

/// What an instruction may touch. The instruction stands inside memory; the
/// length of memory stays; the input queue stays or, under Input, loses its
/// front; the output queue stays or, under Output, gains one value at its
/// back; and the program counter ends inside memory or just behind it.
pub proof fn lemma_step_frame(machine: Machine)
    requires
        machine.step().is_ok(),
    ensures
        machine.pc < machine.memory.len(),
        machine.step().unwrap().memory.len() == machine.memory.len(),
        machine.step().unwrap().pc <= machine.memory.len(),
        machine.step().unwrap().input == machine.input || (operation_of(word(machine)) == Some(
            Operation::Input,
        ) && machine.input.len() > 0 && machine.step().unwrap().input == machine.input.subrange(
            1,
            machine.input.len() as int,
        )),
        machine.step().unwrap().output == machine.output || (operation_of(word(machine)) == Some(
            Operation::Output,
        ) && machine.step().unwrap().output.len() == machine.output.len() + 1
            && machine.step().unwrap().output.subrange(0, machine.output.len() as int)
            == machine.output),
{
    let next = machine.step().unwrap();
    if operation_of(word(machine)) == Some(Operation::Output) {
        assert(next.output.subrange(0, machine.output.len() as int) =~= machine.output);
    }
}

/// However long a machine runs, its memory keeps its length, and where the
/// run settles the machine is at rest.
pub proof fn lemma_run_frame(machine: Machine, fuel: nat)
    ensures
        machine.run_for(fuel).0.memory.len() == machine.memory.len(),
        machine.run_for(fuel).1 == Stop::Settled ==> machine.run_for(fuel).0.at_rest(),
    decreases fuel,
{
    if fuel > 0 {
        match machine.step() {
            Err(_) => {},
            Ok(next) => {
                lemma_step_frame(machine);
                if !next.at_rest() {
                    lemma_run_frame(next, (fuel - 1) as nat);
                }
            },
        }
    }
}

/// A run never tries to step a halted machine, unless it is started on one.
pub proof fn lemma_run_spares_halted(machine: Machine, fuel: nat)
    requires
        !machine.is_halted(),
    ensures
        machine.run_for(fuel).1 != Stop::Faulted(Fault::Halted),
    decreases fuel,
{
    if fuel > 0 {
        match machine.step() {
            Err(_) => {},
            Ok(next) => {
                if !next.at_rest() {
                    lemma_run_spares_halted(next, (fuel - 1) as nat);
                }
            },
        }
    }
}

/// A hand-over to a stage that has not halted never breaks down as a step of
/// a halted machine.
pub proof fn lemma_relay_spares_halted(stage: Machine, signal: isize, fuel: nat)
    requires
        !stage.is_halted(),
    ensures
        relay_spec(stage, signal, fuel).1 != Err::<isize, Breakdown>(
            Breakdown::Faulted(Fault::Halted),
        ),
{
    let fed = Machine { input: stage.input.push(signal), output: Seq::empty(), ..stage };
    lemma_run_spares_halted(fed, fuel);
}

/// A chain never resumes a halted stage: each stage is fresh.
pub proof fn lemma_chain_spares_halted(
    program: Seq<isize>,
    phases: Seq<isize>,
    signal: isize,
    fuel: nat,
)
    ensures
        chain_spec(program, phases, signal, fuel) != Err::<isize, Breakdown>(
            Breakdown::Faulted(Fault::Halted),
        ),
    decreases phases.len(),
{
    if phases.len() > 0 {
        lemma_relay_spares_halted(launched(program, phases[0]), signal, fuel);
        match relay_spec(launched(program, phases[0]), signal, fuel).1 {
            Err(_) => {},
            Ok(handed) => {
                lemma_chain_spares_halted(program, phases.drop_first(), handed, fuel);
            },
        }
    }
}

/// A ring driven round-robin never resumes a halted stage, whatever the
/// stages hold: the drive looks before each hand-over and ends at the first
/// stage that has halted, with what the last stage wrote most recently.
pub proof fn lemma_feedback_spares_halted(
    ring: Seq<Machine>,
    position: nat,
    signal: isize,
    last: isize,
    fuel: nat,
    turns: nat,
)
    ensures
        feedback_spec(ring, position, signal, last, fuel, turns) != Err::<isize, Breakdown>(
            Breakdown::Faulted(Fault::Halted),
        ),
        ring.len() > 0 && ring[0].is_halted() ==> feedback_spec(
            ring,
            position,
            signal,
            last,
            fuel,
            turns,
        ) == Ok::<isize, Breakdown>(last),
    decreases turns,
{
    if ring.len() > 0 && !ring[0].is_halted() && turns > 0 {
        lemma_relay_spares_halted(ring[0], signal, fuel);
        let (ran, handed) = relay_spec(ring[0], signal, fuel);
        match handed {
            Err(_) => {},
            Ok(value) => {
                lemma_feedback_spares_halted(
                    ring.drop_first().push(ran),
                    if position + 1 == ring.len() {
                        0
                    } else {
                        position + 1
                    },
                    value,
                    if position + 1 == ring.len() {
                        value
                    } else {
                        last
                    },
                    fuel,
                    (turns - 1) as nat,
                );
            },
        }
    }
}

} // verus!
