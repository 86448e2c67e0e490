//! A virtual machine for a linear, self-modifying program of integers, which
//! pauses when it needs input and resumes when it is run again.

pub mod arrangements;
pub mod csv;
pub mod intcode;
pub mod machine;
pub mod opcode;
pub mod pipeline;
pub mod theorems;

pub use crate::arrangements::arrangements;
pub use crate::csv::{csv_to_vec, parse_number, try_csv_to_vec};
pub use crate::intcode::Intcode;
pub use crate::machine::{ExecutionState, Fault, Machine, Stop};
pub use crate::opcode::{Mode, Opcode, Operation};
pub use crate::pipeline::{
    chain, drive, feedback, launch, relay, strongest, strongest_of, Breakdown, Wiring,
};
