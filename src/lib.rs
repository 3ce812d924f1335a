//! The execution core of an Ethereum-style virtual machine: 256-bit words,
//! the instruction table, gas rules, machine state, journaled world state and
//! accrued substate, the interpreter with nested calls and creations, and
//! transaction execution with settlement.
use vstd::prelude::*;

pub mod gas;
pub mod interpreter;
pub mod machine;
pub mod operations;
pub mod state;
pub mod transaction;
pub mod word;

verus! {

} // verus!
