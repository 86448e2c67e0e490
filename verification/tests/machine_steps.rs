use intcode::{Fault, Intcode, Mode, Opcode, Operation, Stop};

fn memory_of(intcode: &Intcode) -> Vec<isize> {
    (0..intcode.memory_len()).map(|addr| intcode.read_memory(addr)).collect()
}

#[test]
fn new_machine_is_ready() {
    let intcode = Intcode::new(vec![99, 7]);
    assert_eq!(intcode.pc(), 0);
    assert_eq!(intcode.memory_len(), 2);
    assert!(!intcode.is_halted());
    assert!(!intcode.is_waiting());
    assert!(intcode.input.is_empty());
    assert!(intcode.output.is_empty());
}

#[test]
fn write_then_read_memory() {
    let mut intcode = Intcode::new(vec![1, 0, 0, 0, 99]);
    intcode.write_memory(1, 4);
    intcode.write_memory(2, 4);
    assert_eq!(intcode.read_memory(1), 4);
    intcode.run();
    assert_eq!(memory_of(&intcode), vec![198, 4, 4, 0, 99]);
}

#[test]
fn immediate_add_single_step() {
    let mut intcode = Intcode::new(vec![1101, 5, 7, 0, 99]);
    assert_eq!(intcode.try_step(), Ok(()));
    assert_eq!(intcode.read_memory(0), 12);
    assert_eq!(intcode.pc(), 4);
    assert!(!intcode.is_halted());
    assert!(!intcode.is_waiting());
}

#[test]
fn immediate_mul_single_step() {
    let mut intcode = Intcode::new(vec![1102, -6, 7, 5, 99, 0]);
    assert_eq!(intcode.try_step(), Ok(()));
    assert_eq!(memory_of(&intcode), vec![1102, -6, 7, 5, 99, -42]);
    assert_eq!(intcode.pc(), 4);
}

#[test]
fn position_add_reads_cells() {
    let mut intcode = Intcode::new(vec![1, 5, 6, 7, 99, 20, 22, 0]);
    assert_eq!(intcode.try_step(), Ok(()));
    assert_eq!(intcode.read_memory(7), 42);
}

#[test]
fn destination_ignores_its_mode_digit() {
    let mut intcode = Intcode::new(vec![11101, 2, 3, 5, 99, 0]);
    intcode.run();
    assert_eq!(intcode.read_memory(5), 5);
    assert_eq!(intcode.read_memory(3), 5);
}

#[test]
fn suspend_and_resume() {
    let mut intcode = Intcode::new(vec![3, 0, 99]);
    intcode.run();
    assert!(intcode.is_waiting());
    assert!(!intcode.is_halted());
    assert_eq!(intcode.pc(), 0);
    assert_eq!(memory_of(&intcode), vec![3, 0, 99]);

    intcode.run();
    assert!(intcode.is_waiting());
    assert_eq!(intcode.pc(), 0);

    intcode.push_input(77);
    intcode.run();
    assert!(intcode.is_halted());
    assert!(!intcode.is_waiting());
    assert_eq!(intcode.read_memory(0), 77);
    assert_eq!(intcode.pc(), 2);
    assert!(intcode.input.is_empty());
}

#[test]
fn input_is_taken_from_the_front() {
    let mut intcode = Intcode::new(vec![3, 7, 3, 8, 99, 0, 0, 0, 0]);
    intcode.push_input(10);
    intcode.push_input(20);
    intcode.push_input(30);
    intcode.run();
    assert!(intcode.is_halted());
    assert_eq!(intcode.read_memory(7), 10);
    assert_eq!(intcode.read_memory(8), 20);
    assert_eq!(intcode.input.len(), 1);
    assert_eq!(intcode.input[0], 30);
}

#[test]
fn output_round_trip() {
    let mut intcode = Intcode::new(vec![3, 0, 4, 0, 99]);
    intcode.push_input(1234);
    intcode.run();
    assert_eq!(intcode.read_memory(0), 1234);
    assert_eq!(intcode.pop_output(), Some(1234));
    assert_eq!(intcode.pop_output(), None);
}

#[test]
fn output_keeps_order() {
    let mut intcode = Intcode::new(vec![104, 5, 4, 1, 104, -9, 99]);
    intcode.run();
    assert_eq!(intcode.pop_output(), Some(5));
    assert_eq!(intcode.pop_output(), Some(5));
    assert_eq!(intcode.pop_output(), Some(-9));
    assert_eq!(intcode.pop_output(), None);
}

fn compare(instruction: isize, a: isize, b: isize) -> isize {
    let mut intcode = Intcode::new(vec![instruction, a, b, 5, 99, -1]);
    intcode.run();
    assert_eq!(intcode.pc(), 4);
    intcode.read_memory(5)
}

#[test]
fn less_than_is_zero_or_one() {
    assert_eq!(compare(1107, 1, 2), 1);
    assert_eq!(compare(1107, 2, 1), 0);
    assert_eq!(compare(1107, 3, 3), 0);
    assert_eq!(compare(1107, -3, -3), 0);
    assert_eq!(compare(1107, -5, -3), 1);
    assert_eq!(compare(1107, -3, -5), 0);
    assert_eq!(compare(1107, isize::MIN, isize::MAX), 1);
    assert_eq!(compare(1107, isize::MAX, isize::MIN), 0);
}

#[test]
fn equals_is_zero_or_one() {
    assert_eq!(compare(1108, 8, 8), 1);
    assert_eq!(compare(1108, 8, 9), 0);
    assert_eq!(compare(1108, -8, -8), 1);
    assert_eq!(compare(1108, -8, 8), 0);
    assert_eq!(compare(1108, 0, 0), 1);
    assert_eq!(compare(1108, isize::MIN, isize::MIN), 1);
}

#[test]
fn comparison_in_position_mode() {
    let mut intcode = Intcode::new(vec![7, 5, 6, 7, 99, -2, -1, 9]);
    intcode.run();
    assert_eq!(intcode.read_memory(7), 1);
    let mut intcode = Intcode::new(vec![8, 5, 6, 7, 99, -2, -1, 9]);
    intcode.run();
    assert_eq!(intcode.read_memory(7), 0);
}

#[test]
fn jump_if_true_immediate_target_is_the_value() {
    let mut intcode = Intcode::new(vec![1105, 1, 4, 99, 104, 42, 99]);
    assert_eq!(intcode.try_step(), Ok(()));
    assert_eq!(intcode.pc(), 4);
    intcode.run();
    assert_eq!(intcode.pop_output(), Some(42));
}

#[test]
fn jump_if_true_position_target_is_the_cell() {
    let mut intcode = Intcode::new(vec![5, 7, 8, 99, 104, 42, 99, 1, 4]);
    assert_eq!(intcode.try_step(), Ok(()));
    assert_eq!(intcode.pc(), 4);
}

#[test]
fn jump_if_true_not_taken_moves_on() {
    let mut intcode = Intcode::new(vec![1105, 0, 5, 99, 0, 0]);
    assert_eq!(intcode.try_step(), Ok(()));
    assert_eq!(intcode.pc(), 3);
}

#[test]
fn jump_if_false_taken_and_not_taken() {
    let mut intcode = Intcode::new(vec![1106, 0, 4, 99, 99]);
    assert_eq!(intcode.try_step(), Ok(()));
    assert_eq!(intcode.pc(), 4);
    let mut intcode = Intcode::new(vec![1106, 3, 4, 99, 99]);
    assert_eq!(intcode.try_step(), Ok(()));
    assert_eq!(intcode.pc(), 3);
    let mut intcode = Intcode::new(vec![6, 5, 6, 99, 99, 0, 4]);
    assert_eq!(intcode.try_step(), Ok(()));
    assert_eq!(intcode.pc(), 4);
}

#[test]
fn jump_outside_memory_is_a_fault() {
    let mut intcode = Intcode::new(vec![1105, 1, 50, 99]);
    assert_eq!(intcode.try_step(), Err(Fault::AddressOutOfRange));
    assert_eq!(intcode.pc(), 0);
    let mut intcode = Intcode::new(vec![1105, 1, -1, 99]);
    assert_eq!(intcode.try_step(), Err(Fault::AddressOutOfRange));
}

#[test]
fn halted_machine_rejects_a_step() {
    let mut intcode = Intcode::new(vec![99]);
    intcode.run();
    assert!(intcode.is_halted());
    assert_eq!(intcode.try_step(), Err(Fault::Halted));
    assert_eq!(intcode.run_for(10), Stop::Faulted(Fault::Halted));
    assert!(intcode.is_halted());
    assert_eq!(intcode.pc(), 0);
}

#[test]
fn fault_unknown_opcode() {
    let mut intcode = Intcode::new(vec![42, 0, 0, 0]);
    assert_eq!(intcode.try_step(), Err(Fault::UnknownOpcode));
    let mut intcode = Intcode::new(vec![-99]);
    assert_eq!(intcode.try_step(), Err(Fault::UnknownOpcode));
    let mut intcode = Intcode::new(vec![0]);
    assert_eq!(intcode.try_step(), Err(Fault::UnknownOpcode));
}

#[test]
fn fault_unknown_mode() {
    let mut intcode = Intcode::new(vec![201, 0, 0, 0, 99]);
    assert_eq!(intcode.try_step(), Err(Fault::UnknownMode));
    assert_eq!(memory_of(&intcode), vec![201, 0, 0, 0, 99]);
}

#[test]
fn fault_address_out_of_range() {
    let mut intcode = Intcode::new(vec![1, 0, 0, 9, 99]);
    assert_eq!(intcode.try_step(), Err(Fault::AddressOutOfRange));
    let mut intcode = Intcode::new(vec![1, -1, 0, 0, 99]);
    assert_eq!(intcode.try_step(), Err(Fault::AddressOutOfRange));
    let mut intcode = Intcode::new(vec![1, 0, 0]);
    assert_eq!(intcode.try_step(), Err(Fault::AddressOutOfRange));
    let mut intcode = Intcode::new(vec![3, 5, 99]);
    intcode.push_input(1);
    assert_eq!(intcode.try_step(), Err(Fault::AddressOutOfRange));
    assert_eq!(intcode.input.len(), 1);
}

#[test]
fn fault_pc_out_of_range() {
    let mut intcode = Intcode::new(vec![]);
    assert_eq!(intcode.try_step(), Err(Fault::PcOutOfRange));
    let mut intcode = Intcode::new(vec![1101, 1, 1, 0]);
    assert_eq!(intcode.run_for(5), Stop::Faulted(Fault::PcOutOfRange));
    assert_eq!(intcode.pc(), 4);
    assert_eq!(intcode.read_memory(0), 2);
}

#[test]
fn fault_overflow() {
    let mut intcode = Intcode::new(vec![1101, isize::MAX, 1, 0, 99]);
    assert_eq!(intcode.try_step(), Err(Fault::Overflow));
    let mut intcode = Intcode::new(vec![1102, isize::MIN, -1, 0, 99]);
    assert_eq!(intcode.try_step(), Err(Fault::Overflow));
    let mut intcode = Intcode::new(vec![1101, isize::MAX, 0, 0, 99]);
    assert_eq!(intcode.try_step(), Ok(()));
    assert_eq!(intcode.read_memory(0), isize::MAX);
}

#[test]
fn run_for_stops_when_fuel_is_used_up() {
    let mut intcode = Intcode::new(vec![1105, 1, 0]);
    assert_eq!(intcode.run_for(1000), Stop::Exhausted);
    assert_eq!(intcode.pc(), 0);
    assert!(!intcode.is_halted());
    assert!(!intcode.is_waiting());
    assert_eq!(intcode.run_for(0), Stop::Exhausted);
}

#[test]
fn run_for_settles() {
    let mut intcode = Intcode::new(vec![1101, 1, 1, 0, 3, 1, 99]);
    assert_eq!(intcode.run_for(1), Stop::Exhausted);
    assert_eq!(intcode.pc(), 4);
    assert_eq!(intcode.run_for(1), Stop::Settled);
    assert!(intcode.is_waiting());
    assert_eq!(intcode.pc(), 4);
    intcode.push_input(5);
    assert_eq!(intcode.run_for(1), Stop::Exhausted);
    assert!(!intcode.is_waiting());
    assert_eq!(intcode.run_for(1), Stop::Settled);
    assert!(intcode.is_halted());
    assert_eq!(memory_of(&intcode), vec![2, 5, 1, 0, 3, 1, 99]);
}

#[test]
fn self_modifying_program() {
    let mut intcode = Intcode::new(vec![1101, 90, 9, 4, 0]);
    intcode.run();
    assert!(intcode.is_halted());
    assert_eq!(memory_of(&intcode), vec![1101, 90, 9, 4, 99]);
}

#[test]
fn countdown_loop() {
    let mut intcode = Intcode::new(vec![4, 10, 1001, 10, -1, 10, 1005, 10, 0, 99, 3]);
    intcode.run();
    assert!(intcode.is_halted());
    assert_eq!(intcode.pop_output(), Some(3));
    assert_eq!(intcode.pop_output(), Some(2));
    assert_eq!(intcode.pop_output(), Some(1));
    assert_eq!(intcode.pop_output(), None);
}

#[test]
fn parameter_reads_by_mode() {
    let intcode = Intcode::new(vec![1002, 4, 3, 4, 33]);
    let opcode = Opcode::new(1002);
    assert_eq!(intcode.parameter(1, &opcode), 33);
    assert_eq!(intcode.parameter(2, &opcode), 3);
    assert_eq!(intcode.try_parameter(3, &opcode), Ok(33));
    assert_eq!(intcode.try_parameter(5, &opcode), Err(Fault::AddressOutOfRange));
    assert_eq!(intcode.try_parameter(1, &Opcode::new(202)), Err(Fault::UnknownMode));
    let intcode = Intcode::new(vec![2, 9, 0]);
    assert_eq!(intcode.try_parameter(1, &Opcode::new(2)), Err(Fault::AddressOutOfRange));
}

#[test]
fn decode_operations() {
    assert_eq!(Opcode::new(1).try_operation(), Some(Operation::Add));
    assert_eq!(Opcode::new(2).try_operation(), Some(Operation::Mul));
    assert_eq!(Opcode::new(3).try_operation(), Some(Operation::Input));
    assert_eq!(Opcode::new(4).try_operation(), Some(Operation::Output));
    assert_eq!(Opcode::new(5).try_operation(), Some(Operation::JumpIfTrue));
    assert_eq!(Opcode::new(6).try_operation(), Some(Operation::JumpIfFalse));
    assert_eq!(Opcode::new(7).try_operation(), Some(Operation::LessThan));
    assert_eq!(Opcode::new(8).try_operation(), Some(Operation::Equals));
    assert_eq!(Opcode::new(99).try_operation(), Some(Operation::Halt));
    assert_eq!(Opcode::new(11108).operation(), Operation::Equals);
    assert_eq!(Opcode::new(1199).operation(), Operation::Halt);
    assert_eq!(Opcode::new(0).try_operation(), None);
    assert_eq!(Opcode::new(9).try_operation(), None);
    assert_eq!(Opcode::new(98).try_operation(), None);
    assert_eq!(Opcode::new(-1).try_operation(), None);
    assert_eq!(Opcode::new(-99).try_operation(), None);
}

#[test]
fn decode_modes() {
    let opcode = Opcode::new(10102);
    assert_eq!(opcode.try_mode(1), Some(Mode::Immediate));
    assert_eq!(opcode.try_mode(2), Some(Mode::Position));
    assert_eq!(opcode.try_mode(3), Some(Mode::Immediate));
    assert_eq!(opcode.try_mode(4), Some(Mode::Position));
    assert_eq!(opcode.try_mode(40), Some(Mode::Position));
    assert_eq!(opcode.try_mode(usize::MAX), Some(Mode::Position));
    assert_eq!(Opcode::new(20002).try_mode(3), None);
    assert_eq!(Opcode::new(902).try_mode(1), None);
    assert_eq!(Opcode::new(-102).try_mode(1), None);
    assert_eq!(Opcode::new(-1002).try_mode(1), Some(Mode::Position));
    assert_eq!(Opcode::new(isize::MAX).try_mode(17), None);
    assert_eq!(Opcode::new(isize::MIN).try_mode(30), Some(Mode::Position));
}

#[test]
fn memory_keeps_its_length() {
    let mut intcode = Intcode::new(vec![3, 11, 1001, 11, 5, 11, 4, 11, 1105, 1, 12, 0, 99]);
    let len = intcode.memory_len();
    intcode.run();
    assert_eq!(intcode.memory_len(), len);
    intcode.push_input(37);
    intcode.run();
    assert_eq!(intcode.memory_len(), len);
    assert!(intcode.is_halted());
    assert_eq!(intcode.pop_output(), Some(42));
}

#[test]
fn halt_changes_only_the_state() {
    let mut intcode = Intcode::new(vec![99, 1, 2]);
    intcode.push_input(4);
    assert_eq!(intcode.try_step(), Ok(()));
    assert!(intcode.is_halted());
    assert_eq!(intcode.pc(), 0);
    assert_eq!(memory_of(&intcode), vec![99, 1, 2]);
    assert_eq!(intcode.input.len(), 1);
    assert!(intcode.output.is_empty());
}

#[test]
fn run_in_parts_is_the_whole_run() {
    let program = vec![4, 10, 1001, 10, -1, 10, 1005, 10, 0, 99, 3];
    let mut whole = Intcode::new(program.clone());
    assert_eq!(whole.run_for(100), Stop::Settled);
    let mut parts = Intcode::new(program);
    assert_eq!(parts.run_for(4), Stop::Exhausted);
    assert_eq!(parts.run_for(96), Stop::Settled);
    assert_eq!(memory_of(&parts), memory_of(&whole));
    assert_eq!(parts.pc(), whole.pc());
    assert_eq!(parts.output, whole.output);
    assert!(parts.is_halted());
}

#[test]
fn run_and_run_for_agree() {
    let program = vec![3, 0, 1002, 0, 3, 0, 4, 0, 99];
    let mut by_run = Intcode::new(program.clone());
    by_run.push_input(14);
    by_run.run();
    let mut by_fuel = Intcode::new(program);
    by_fuel.push_input(14);
    assert_eq!(by_fuel.run_for(4), Stop::Settled);
    assert_eq!(memory_of(&by_run), memory_of(&by_fuel));
    assert_eq!(by_run.output, by_fuel.output);
    assert_eq!(by_run.pop_output(), Some(42));
    assert!(by_run.is_halted() && by_fuel.is_halted());
}

#[test]
fn clear_output_drops_what_was_written() {
    let mut intcode = Intcode::new(vec![104, 1, 104, 2, 99]);
    intcode.run();
    assert_eq!(intcode.output.len(), 2);
    intcode.clear_output();
    assert_eq!(intcode.pop_output(), None);
    assert!(intcode.is_halted());
}
