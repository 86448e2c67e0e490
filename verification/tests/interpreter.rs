use intcode::{csv_to_vec, Intcode, Mode, Opcode, Operation};

fn assert_memory(intcode: &Intcode, expected: Vec<isize>) {
    for (addr, val) in expected.iter().enumerate() {
        assert_eq!(intcode.read_memory(addr), *val);
    }
}

#[test]
fn test_csv_to_vec() {
    assert_eq!(csv_to_vec("1,2,3".to_string()), vec![1, 2, 3]);
}

#[test]
fn intcode_add() {
    let mut intcode = Intcode::new(vec![1, 0, 0, 0, 99]);
    intcode.run();
    assert_memory(&intcode, vec![2, 0, 0, 0, 99]);
}

#[test]
fn intcode_mul() {
    {
        let mut intcode = Intcode::new(vec![2, 3, 0, 3, 99]);
        intcode.run();
        assert_memory(&intcode, vec![2, 3, 0, 6, 99]);
    }
    {
        let mut intcode = Intcode::new(vec![2, 4, 4, 5, 99, 0]);
        intcode.run();
        assert_memory(&intcode, vec![2, 4, 4, 5, 99, 9801]);
    }
}

#[test]
fn intcode_add_and_mul() {
    let mut intcode = Intcode::new(vec![1, 1, 1, 4, 99, 5, 6, 0, 99]);
    intcode.run();
    assert_memory(&intcode, vec![30, 1, 1, 4, 2, 5, 6, 0, 99]);
}

#[test]
fn intcode_parameters() {
    let mut intcode = Intcode::new(vec![1002, 4, 3, 4, 33]);
    intcode.run();
    assert_memory(&intcode, vec![1002, 4, 3, 4, 99]);
}

#[test]
fn intcode_input() {
    let mut intcode = Intcode::new(vec![3, 0, 99]);
    intcode.input.push_back(1234);
    intcode.run();
    assert_memory(&intcode, vec![1234, 0, 99]);
}

#[test]
fn intcode_input_output() {
    let mut intcode = Intcode::new(vec![3, 0, 4, 0, 99]);
    intcode.input.push_back(1234);
    intcode.run();
    assert_memory(&intcode, vec![1234, 0, 4, 0, 99]);
    assert_eq!(intcode.output.pop_front().unwrap(), 1234);
}

#[test]
fn opcode_operation() {
    assert_eq!(Opcode { orig: 1 }.operation(), Operation::Add);
}

#[test]
fn opcode_mode() {
    let opcode = Opcode::new(1002);
    assert_eq!(opcode.mode(1), Mode::Position);
    assert_eq!(opcode.mode(2), Mode::Immediate);
    assert_eq!(opcode.mode(3), Mode::Position);
}
