//! Decoding of an instruction word: the operation in its two lowest decimal
//! digits, and one addressing-mode digit per parameter above them.

use vstd::arithmetic::div_mod::lemma_div_denominator;
use vstd::prelude::*;

verus! {

/// The nine operations of the machine.
#[derive(PartialEq, Eq, Debug, Clone, Copy, Structural)]
pub enum Operation {
    Add,
    Mul,
    Input,
    Output,
    JumpIfTrue,
    JumpIfFalse,
    LessThan,
    Equals,
    Halt,
}

/// How a parameter's raw value is read: as an address, or as the value itself.
#[derive(PartialEq, Eq, Debug, Clone, Copy, Structural)]
pub enum Mode {
    Position,
    Immediate,
}

/// An instruction word as it stands in memory.
#[derive(PartialEq, Eq, Debug, Clone, Copy, Structural)]
pub struct Opcode {
    pub orig: isize,
}

/// Ten to the power `e`.
pub open spec fn pow10(e: nat) -> nat
    decreases e,
{
    if e == 0 {
        1
    } else {
        10 * pow10((e - 1) as nat)
    }
}

/// Division that rounds towards zero, for a positive divisor.
pub open spec fn quotient_towards_zero(v: int, d: int) -> int {
    if v >= 0 {
        v / d
    } else {
        -((-v) / d)
    }
}

/// The operation that an instruction word selects: its value modulo 100.
/// A negative word, and any other number, selects none.
pub open spec fn operation_of(instruction: int) -> Option<Operation> {
    if instruction < 0 {
        None
    } else {
        let code = instruction % 100;
        if code == 1 {
            Some(Operation::Add)
        } else if code == 2 {
            Some(Operation::Mul)
        } else if code == 3 {
            Some(Operation::Input)
        } else if code == 4 {
            Some(Operation::Output)
        } else if code == 5 {
            Some(Operation::JumpIfTrue)
        } else if code == 6 {
            Some(Operation::JumpIfFalse)
        } else if code == 7 {
            Some(Operation::LessThan)
        } else if code == 8 {
            Some(Operation::Equals)
        } else if code == 99 {
            Some(Operation::Halt)
        } else {
            None
        }
    }
}

/// The decimal digit of `instruction` that holds the mode of parameter `k`
/// (counted from 1): the digit at `10^(1+k)`. It carries the sign of the word.
pub open spec fn mode_digit(instruction: int, k: nat) -> int {
    let shifted = quotient_towards_zero(instruction, pow10(k + 1) as int);
    if shifted >= 0 {
        shifted % 10
    } else {
        -((-shifted) % 10)
    }
}

/// The addressing mode of parameter `k`: digit 0 is position, digit 1 is
/// immediate, and no other digit is a mode.
pub open spec fn mode_of(instruction: int, k: nat) -> Option<Mode> {
    let digit = mode_digit(instruction, k);
    if digit == 0 {
        Some(Mode::Position)
    } else if digit == 1 {
        Some(Mode::Immediate)
    } else {
        None
    }
}

/// Powers of ten are positive.
pub proof fn lemma_pow10_positive(e: nat)
    ensures
        pow10(e) >= 1,
    decreases e,
{
    if e > 0 {
        lemma_pow10_positive((e - 1) as nat);
    }
}

/// Dividing towards zero by ten, once more, is dividing by the next power of ten.
proof fn lemma_shift_once_more(v: int, e: nat)
    ensures
        quotient_towards_zero(quotient_towards_zero(v, pow10(e) as int), 10)
            == quotient_towards_zero(v, pow10(e + 1) as int),
{
    lemma_pow10_positive(e);
    let p = pow10(e) as int;
    let a = if v >= 0 { v } else { -v };
    lemma_div_denominator(a, p, 10);
    assert(pow10(e + 1) == 10 * pow10(e));
    assert(p * 10 == pow10(e + 1) as int);
    assert(a / p >= 0) by (nonlinear_arith)
        requires
            a >= 0,
            p > 0,
    ;
}

/// Once the shifted word is zero it stays zero under any larger power of ten.
proof fn lemma_shift_stays_zero(v: int, e: nat, f: nat)
    requires
        e <= f,
        quotient_towards_zero(v, pow10(e) as int) == 0,
    ensures
        quotient_towards_zero(v, pow10(f) as int) == 0,
    decreases f - e,
{
    if e < f {
        lemma_shift_once_more(v, e);
        lemma_shift_stays_zero(v, e + 1, f);
    }
}

impl Opcode {
    /// Wraps an instruction word.
    pub fn new(instruction: isize) -> (opcode: Self)
        ensures
            opcode.orig == instruction,
    {
        Self { orig: instruction }
    }

    /// The operation of this word, or `None` where it selects none.
    pub fn try_operation(&self) -> (found: Option<Operation>)
        ensures
            found == operation_of(self.orig as int),
    {
        if self.orig < 0 {
            return None;
        }
        let code: isize = self.orig % 100;
        if code == 1 {
            Some(Operation::Add)
        } else if code == 2 {
            Some(Operation::Mul)
        } else if code == 3 {
            Some(Operation::Input)
        } else if code == 4 {
            Some(Operation::Output)
        } else if code == 5 {
            Some(Operation::JumpIfTrue)
        } else if code == 6 {
            Some(Operation::JumpIfFalse)
        } else if code == 7 {
            Some(Operation::LessThan)
        } else if code == 8 {
            Some(Operation::Equals)
        } else if code == 99 {
            Some(Operation::Halt)
        } else {
            None
        }
    }

    /// The operation of a word that selects one.
    pub fn operation(&self) -> (operation: Operation)
        requires
            operation_of(self.orig as int).is_some(),
        ensures
            operation_of(self.orig as int) == Some(operation),
    {
        match self.try_operation() {
            Some(operation) => operation,
            None => unreached(),
        }
    }

    /// The mode digit of parameter `n`, found by dividing by ten `n + 1` times.
    fn digit(&self, n: usize) -> (digit: isize)
        ensures
            digit == mode_digit(self.orig as int, n as nat),
    {
        let mut shifted: isize = self.orig / 10;
        let mut left: usize = n;
        proof {
            assert(pow10(1) == 10) by {
                reveal_with_fuel(pow10, 2);
            }
        }
        while left > 0 && shifted != 0
            invariant
                left <= n,
                shifted == quotient_towards_zero(self.orig as int, pow10((n - left + 1) as nat) as int),
            decreases left,
        {
            proof {
                lemma_shift_once_more(self.orig as int, (n - left + 1) as nat);
            }
            shifted = shifted / 10;
            left = left - 1;
        }
        proof {
            if left > 0 {
                lemma_shift_stays_zero(self.orig as int, (n - left + 1) as nat, (n + 1) as nat);
            }
        }
        shifted % 10
    }

    /// The addressing mode of parameter `n`, or `None` where its digit is no mode.
    pub fn try_mode(&self, n: usize) -> (found: Option<Mode>)
        requires
            n >= 1,
        ensures
            found == mode_of(self.orig as int, n as nat),
    {
        let digit: isize = self.digit(n);
        if digit == 0 {
            Some(Mode::Position)
        } else if digit == 1 {
            Some(Mode::Immediate)
        } else {
            None
        }
    }

    /// The addressing mode of parameter `n` of a word whose digit there is a mode.
    pub fn mode(&self, n: usize) -> (mode: Mode)
        requires
            n >= 1,
            mode_of(self.orig as int, n as nat).is_some(),
        ensures
            mode_of(self.orig as int, n as nat) == Some(mode),
    {
        match self.try_mode(n) {
            Some(mode) => mode,
            None => unreached(),
        }
    }
}

} // verus!
