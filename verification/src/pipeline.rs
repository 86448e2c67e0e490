//! Several instances driven in turn, each one's output handed to the next as
//! its input.

use crate::arrangements::{arrangements, firsts, is_rearrangement, permutations_of, rows};
use crate::intcode::Intcode;
use crate::machine::{Fault, Machine, Stop};
use std::collections::VecDeque;
use vstd::prelude::*;

verus! {

/// Why a stage could not hand a signal on.
#[derive(PartialEq, Eq, Debug, Clone, Copy, Structural)]
pub enum Breakdown {
    /// An instruction of the stage could not be carried out.
    Faulted(Fault),
    /// The allowance of instructions, or of turns, was used up.
    Exhausted,
    /// The stage came to rest without writing anything.
    NoOutput,
}

/// How the stages are connected.
#[derive(PartialEq, Eq, Debug, Clone, Copy, Structural)]
pub enum Wiring {
    /// Each stage runs once and hands its output to the next.
    Chain,
    /// The last stage hands its output back to the first, round after round.
    Feedback,
}

/// A stage as it is launched: the program loaded, the phase waiting as its
/// first input.
pub open spec fn launched(program: Seq<isize>, phase: isize) -> Machine {
    Machine { input: seq![phase], ..Machine::load(program) }
}

/// One hand-over: the signal joins the stage's input, the stage runs with an
/// emptied output queue for at most `fuel` instructions until it rests, and
/// the first value it wrote is handed on. The machine is the stage afterwards.
pub open spec fn relay_spec(stage: Machine, signal: isize, fuel: nat) -> (
    Machine,
    Result<isize, Breakdown>,
) {
    let fed = Machine { input: stage.input.push(signal), output: Seq::empty(), ..stage };
    let (ran, stop) = fed.run_for(fuel);
    match stop {
        Stop::Faulted(fault) => (ran, Err(Breakdown::Faulted(fault))),
        Stop::Exhausted => (ran, Err(Breakdown::Exhausted)),
        Stop::Settled => if ran.output.len() == 0 {
            (ran, Err(Breakdown::NoOutput))
        } else {
            (
                Machine { output: ran.output.subrange(1, ran.output.len() as int), ..ran },
                Ok(ran.output[0]),
            )
        },
    }
}

/// A chain: one fresh stage per phase, each run once, the signal threaded
/// through them in order. The result is what the last stage wrote.
pub open spec fn chain_spec(program: Seq<isize>, phases: Seq<isize>, signal: isize, fuel: nat)
    -> Result<isize, Breakdown>
    decreases phases.len(),
{
    if phases.len() == 0 {
        Ok(signal)
    } else {
        match relay_spec(launched(program, phases[0]), signal, fuel).1 {
            Err(breakdown) => Err(breakdown),
            Ok(handed) => chain_spec(program, phases.drop_first(), handed, fuel),
        }
    }
}

/// The stages of a ring as they are launched, the first at the front.
pub open spec fn ring_of(program: Seq<isize>, phases: Seq<isize>) -> Seq<Machine> {
    Seq::new(phases.len(), |i: int| launched(program, phases[i]))
}

/// A ring driven round-robin. `ring[0]` is the stage whose turn it is and
/// `position` its place in the ring; after its turn it goes to the back. The
/// drive ends when the stage whose turn it is has halted, and its result is
/// `last`: what the stage in the last place wrote most recently. At most
/// `turns` hand-overs are made.
pub open spec fn feedback_spec(
    ring: Seq<Machine>,
    position: nat,
    signal: isize,
    last: isize,
    fuel: nat,
    turns: nat,
) -> Result<isize, Breakdown>
    decreases turns,
{
    if ring.len() == 0 || ring[0].is_halted() {
        Ok(last)
    } else if turns == 0 {
        Err(Breakdown::Exhausted)
    } else {
        let (ran, handed) = relay_spec(ring[0], signal, fuel);
        match handed {
            Err(breakdown) => Err(breakdown),
            Ok(value) => feedback_spec(
                ring.drop_first().push(ran),
                if position + 1 == ring.len() {
                    0
                } else {
                    position + 1
                },
                value,
                if position + 1 == ring.len() {
                    value
                } else {
                    last
                },
                fuel,
                (turns - 1) as nat,
            ),
        }
    }
}

/// Hands `signal` to `stage`, runs it and takes the first value it writes.
pub fn relay(stage: &mut Intcode, signal: isize, fuel: usize) -> (handed: Result<isize, Breakdown>)
    ensures
        (final(stage)@, handed) == relay_spec(old(stage)@, signal, fuel as nat),
{
    stage.push_input(signal);
    stage.clear_output();
    match stage.run_for(fuel) {
        Stop::Faulted(fault) => Err(Breakdown::Faulted(fault)),
        Stop::Exhausted => Err(Breakdown::Exhausted),
        Stop::Settled => match stage.pop_output() {
            Some(value) => Ok(value),
            None => Err(Breakdown::NoOutput),
        },
    }
}

/// A fresh instance of `program` with `phase` as its first input.
pub fn launch(program: &Vec<isize>, phase: isize) -> (stage: Intcode)
    ensures
        stage@ == launched(program@, phase),
{
    let mut memory: Vec<isize> = Vec::new();
    let mut i: usize = 0;
    while i < program.len()
        invariant
            i <= program.len(),
            memory@ == program@.subrange(0, i as int),
        decreases program.len() - i,
    {
        memory.push(program[i]);
        proof {
            assert(memory@ =~= program@.subrange(0, i + 1));
        }
        i = i + 1;
    }
    proof {
        assert(memory@ =~= program@);
    }
    let mut stage = Intcode::new(memory);
    stage.push_input(phase);
    proof {
        assert(stage@.input =~= seq![phase]);
    }
    stage
}

/// Threads `signal` through a chain of fresh stages, one per phase, each
/// allowed `fuel` instructions.
pub fn chain(program: &Vec<isize>, phases: &Vec<isize>, signal: isize, fuel: usize) -> (out: Result<
    isize,
    Breakdown,
>)
    ensures
        out == chain_spec(program@, phases@, signal, fuel as nat),
{
    let mut current: isize = signal;
    let mut i: usize = 0;
    proof {
        assert(phases@.subrange(0, phases@.len() as int) =~= phases@);
    }
    while i < phases.len()
        invariant
            i <= phases.len(),
            chain_spec(program@, phases@.subrange(i as int, phases@.len() as int), current, fuel as nat)
                == chain_spec(program@, phases@, signal, fuel as nat),
        decreases phases.len() - i,
    {
        let ghost rest = phases@.subrange(i as int, phases@.len() as int);
        proof {
            assert(rest.drop_first() =~= phases@.subrange(i + 1, phases@.len() as int));
        }
        let mut stage = launch(program, phases[i]);
        match relay(&mut stage, current, fuel) {
            Err(breakdown) => {
                return Err(breakdown);
            },
            Ok(handed) => {
                current = handed;
            },
        }
        i = i + 1;
    }
    Ok(current)
}

/// Drives a ring of fresh stages, one per phase, round-robin from `signal`
/// until the stage whose turn it is has halted. Each run is allowed `fuel`
/// instructions, the whole drive `turns` hand-overs.
pub fn feedback(
    program: &Vec<isize>,
    phases: &Vec<isize>,
    signal: isize,
    fuel: usize,
    turns: usize,
) -> (out: Result<isize, Breakdown>)
    ensures
        out == feedback_spec(ring_of(program@, phases@), 0, signal, 0, fuel as nat, turns as nat),
{
    let mut stages: VecDeque<Intcode> = VecDeque::new();
    let ghost mut ring: Seq<Machine> = Seq::empty();
    let mut i: usize = 0;
    while i < phases.len()
        invariant
            i <= phases.len(),
            stages@.len() == i,
            ring == ring_of(program@, phases@.subrange(0, i as int)),
            forall|k: int| 0 <= k < i ==> (#[trigger] stages@[k])@ == ring[k],
        decreases phases.len() - i,
    {
        let stage = launch(program, phases[i]);
        stages.push_back(stage);
        proof {
            ring = ring.push(launched(program@, phases@[i as int]));
            assert(ring =~= ring_of(program@, phases@.subrange(0, i + 1)));
        }
        i = i + 1;
    }
    proof {
        assert(phases@.subrange(0, i as int) =~= phases@);
    }
    let mut position: usize = 0;
    let mut current: isize = signal;
    let mut last: isize = 0;
    let mut left: usize = turns;
    loop
        invariant
            stages@.len() == phases@.len(),
            ring.len() == phases@.len(),
            forall|k: int| 0 <= k < ring.len() ==> (#[trigger] stages@[k])@ == ring[k],
            position < phases@.len() || phases@.len() == 0,
            feedback_spec(ring, position as nat, current, last, fuel as nat, left as nat)
                == feedback_spec(
                ring_of(program@, phases@),
                0,
                signal,
                0,
                fuel as nat,
                turns as nat,
            ),
        decreases left,
    {
        let mut stage = match stages.pop_front() {
            Some(stage) => stage,
            None => {
                return Ok(last);
            },
        };
        assert(stage@ == ring[0]);
        if stage.is_halted() {
            return Ok(last);
        }
        if left == 0 {
            return Err(Breakdown::Exhausted);
        }
        match relay(&mut stage, current, fuel) {
            Err(breakdown) => {
                return Err(breakdown);
            },
            Ok(handed) => {
                current = handed;
                if position == phases.len() - 1 {
                    last = handed;
                    position = 0;
                } else {
                    position = position + 1;
                }
            },
        }
        proof {
            ring = ring.drop_first().push(stage@);
        }
        stages.push_back(stage);
        left = left - 1;
    }
}

/// The signal that comes out of stages wired as `wiring`, one per phase, when
/// the signal 0 goes in.
pub open spec fn drive_spec(
    wiring: Wiring,
    program: Seq<isize>,
    phases: Seq<isize>,
    fuel: nat,
    turns: nat,
) -> Result<isize, Breakdown> {
    match wiring {
        Wiring::Chain => chain_spec(program, phases, 0, fuel),
        Wiring::Feedback => feedback_spec(ring_of(program, phases), 0, 0, 0, fuel, turns),
    }
}

/// The largest signal among `best` and what each of `orders` gives, tried in
/// turn; the first order that breaks down ends the trial.
pub open spec fn strongest_spec(
    wiring: Wiring,
    program: Seq<isize>,
    orders: Seq<Seq<isize>>,
    best: isize,
    fuel: nat,
    turns: nat,
) -> Result<isize, Breakdown>
    decreases orders.len(),
{
    if orders.len() == 0 {
        Ok(best)
    } else {
        match drive_spec(wiring, program, orders[0], fuel, turns) {
            Err(breakdown) => Err(breakdown),
            Ok(signal) => strongest_spec(
                wiring,
                program,
                orders.drop_first(),
                if signal > best {
                    signal
                } else {
                    best
                },
                fuel,
                turns,
            ),
        }
    }
}

/// What a trial of `orders` comes to. Where it succeeds, its result is no less
/// than `best` and than the signal of any order, and it is `best` or the
/// signal of one of the orders. Where it fails, one of the orders broke down
/// in that way.
pub proof fn lemma_strongest(
    wiring: Wiring,
    program: Seq<isize>,
    orders: Seq<Seq<isize>>,
    best: isize,
    fuel: nat,
    turns: nat,
)
    ensures
        match strongest_spec(wiring, program, orders, best, fuel, turns) {
            Ok(top) => {
                &&& top >= best
                &&& forall|i: int|
                    0 <= i < orders.len() ==> match #[trigger] drive_spec(
                        wiring,
                        program,
                        orders[i],
                        fuel,
                        turns,
                    ) {
                        Ok(signal) => signal <= top,
                        Err(_) => false,
                    }
                &&& (top == best || exists|i: int|
                    0 <= i < orders.len() && #[trigger] drive_spec(
                        wiring,
                        program,
                        orders[i],
                        fuel,
                        turns,
                    ) == Ok::<isize, Breakdown>(top))
            },
            Err(breakdown) => exists|i: int|
                0 <= i < orders.len() && #[trigger] drive_spec(
                    wiring,
                    program,
                    orders[i],
                    fuel,
                    turns,
                ) == Err::<isize, Breakdown>(breakdown),
        },
    decreases orders.len(),
{
    if orders.len() > 0 {
        let rest = orders.drop_first();
        match drive_spec(wiring, program, orders[0], fuel, turns) {
            Err(breakdown) => {},
            Ok(signal) => {
                let raised = if signal > best {
                    signal
                } else {
                    best
                };
                lemma_strongest(wiring, program, rest, raised, fuel, turns);
                assert forall|i: int| 0 <= i < rest.len() implies rest[i] == orders[i + 1] by {}
                match strongest_spec(wiring, program, rest, raised, fuel, turns) {
                    Ok(top) => {
                        assert forall|i: int| 0 <= i < orders.len() implies match #[trigger] drive_spec(
                            wiring,
                            program,
                            orders[i],
                            fuel,
                            turns,
                        ) {
                            Ok(signal) => signal <= top,
                            Err(_) => false,
                        } by {
                            if i > 0 {
                                assert(rest[i - 1] == orders[i]);
                            }
                        }
                        if top != best {
                            if top == raised {
                                assert(drive_spec(wiring, program, orders[0], fuel, turns) == Ok::<
                                    isize,
                                    Breakdown,
                                >(top));
                            } else {
                                let i = choose|i: int|
                                    0 <= i < rest.len() && #[trigger] drive_spec(
                                        wiring,
                                        program,
                                        rest[i],
                                        fuel,
                                        turns,
                                    ) == Ok::<isize, Breakdown>(top);
                                assert(rest[i] == orders[i + 1]);
                            }
                        }
                    },
                    Err(breakdown) => {
                        let i = choose|i: int|
                            0 <= i < rest.len() && #[trigger] drive_spec(
                                wiring,
                                program,
                                rest[i],
                                fuel,
                                turns,
                            ) == Err::<isize, Breakdown>(breakdown);
                        assert(rest[i] == orders[i + 1]);
                    },
                }
            },
        }
    }
}

/// Sends the signal 0 through stages wired as `wiring`, one per phase.
pub fn drive(wiring: Wiring, program: &Vec<isize>, phases: &Vec<isize>, fuel: usize, turns: usize)
    -> (out: Result<isize, Breakdown>)
    ensures
        out == drive_spec(wiring, program@, phases@, fuel as nat, turns as nat),
{
    match wiring {
        Wiring::Chain => chain(program, phases, 0, fuel),
        Wiring::Feedback => feedback(program, phases, 0, fuel, turns),
    }
}

/// Tries each of `orders` as the phases of the stages and returns the largest
/// signal that comes out, or 0 where none is larger.
pub fn strongest_of(
    wiring: Wiring,
    program: &Vec<isize>,
    orders: &Vec<Vec<isize>>,
    fuel: usize,
    turns: usize,
) -> (out: Result<isize, Breakdown>)
    ensures
        out == strongest_spec(wiring, program@, rows(orders@), 0, fuel as nat, turns as nat),
{
    let mut best: isize = 0;
    let mut i: usize = 0;
    proof {
        assert(rows(orders@).subrange(0, orders@.len() as int) =~= rows(orders@));
    }
    while i < orders.len()
        invariant
            i <= orders.len(),
            strongest_spec(
                wiring,
                program@,
                rows(orders@).subrange(i as int, orders@.len() as int),
                best,
                fuel as nat,
                turns as nat,
            ) == strongest_spec(wiring, program@, rows(orders@), 0, fuel as nat, turns as nat),
        decreases orders.len() - i,
    {
        let ghost rest = rows(orders@).subrange(i as int, orders@.len() as int);
        proof {
            assert(rest.drop_first() =~= rows(orders@).subrange(i + 1, orders@.len() as int));
            assert(rest[0] == orders@[i as int]@);
        }
        match drive(wiring, program, &orders[i], fuel, turns) {
            Err(breakdown) => {
                return Err(breakdown);
            },
            Ok(signal) => {
                if signal > best {
                    best = signal;
                }
            },
        }
        i = i + 1;
    }
    Ok(best)
}

/// Tries every order of `settings` as the phases of the stages, each once, in
/// the order in which the permutations first give it. Where every order gives
/// a signal, the result is the largest of them, or 0 where none is larger.
/// Where some order breaks down, so does the trial, in the way of the first
/// order that does.
pub fn strongest(
    wiring: Wiring,
    program: &Vec<isize>,
    settings: &Vec<isize>,
    fuel: usize,
    turns: usize,
) -> (out: Result<isize, Breakdown>)
    ensures
        out == strongest_spec(
            wiring,
            program@,
            firsts(permutations_of(settings@)),
            0,
            fuel as nat,
            turns as nat,
        ),
        match out {
            Ok(top) => {
                &&& top >= 0
                &&& forall|order: Seq<isize>| #[trigger]
                    is_rearrangement(order, settings@) ==> match drive_spec(
                        wiring,
                        program@,
                        order,
                        fuel as nat,
                        turns as nat,
                    ) {
                        Ok(signal) => signal <= top,
                        Err(_) => false,
                    }
                &&& (top == 0 || exists|order: Seq<isize>| #[trigger]
                    is_rearrangement(order, settings@) && drive_spec(
                        wiring,
                        program@,
                        order,
                        fuel as nat,
                        turns as nat,
                    ) == Ok::<isize, Breakdown>(top))
            },
            Err(breakdown) => exists|order: Seq<isize>| #[trigger]
                is_rearrangement(order, settings@) && drive_spec(
                    wiring,
                    program@,
                    order,
                    fuel as nat,
                    turns as nat,
                ) == Err::<isize, Breakdown>(breakdown),
        },
{
    let orders = arrangements(settings);
    let out = strongest_of(wiring, program, &orders, fuel, turns);
    proof {
        let listed = rows(orders@);
        lemma_strongest(wiring, program@, listed, 0, fuel as nat, turns as nat);
        match out {
            Ok(top) => {
                assert forall|order: Seq<isize>| #[trigger]
                    is_rearrangement(order, settings@) implies match drive_spec(
                    wiring,
                    program@,
                    order,
                    fuel as nat,
                    turns as nat,
                ) {
                    Ok(signal) => signal <= top,
                    Err(_) => false,
                } by {
                    assert(listed.contains(order));
                    let i = choose|i: int| 0 <= i < listed.len() && listed[i] == order;
                    assert(listed[i] == order);
                }
                if top != 0 {
                    let i = choose|i: int|
                        0 <= i < listed.len() && #[trigger] drive_spec(
                            wiring,
                            program@,
                            listed[i],
                            fuel as nat,
                            turns as nat,
                        ) == Ok::<isize, Breakdown>(top);
                    assert(listed.contains(listed[i]));
                    assert(is_rearrangement(listed[i], settings@));
                }
            },
            Err(breakdown) => {
                let i = choose|i: int|
                    0 <= i < listed.len() && #[trigger] drive_spec(
                        wiring,
                        program@,
                        listed[i],
                        fuel as nat,
                        turns as nat,
                    ) == Err::<isize, Breakdown>(breakdown);
                assert(listed.contains(listed[i]));
                assert(is_rearrangement(listed[i], settings@));
            },
        }
    }
    out
}

} // verus!
