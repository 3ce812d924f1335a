use vstd::prelude::*;

verus! {

/// The instructions this machine knows, by mnemonic. `PUSH` stands for the
/// pushes of two to thirty-one bytes and `DUP` for `DUP2` to `DUP16`; the
/// operation's byte tells them apart.
#[derive(Clone, Copy, PartialEq, Eq, Structural, Debug)]
pub enum OpCode {
    STOP,
    ADD,
    MUL,
    SUB,
    DIV,
    LT,
    GT,
    SLT,
    EQ,
    ISZERO,
    ADDRESS,
    BALANCE,
    ORIGIN,
    CALLER,
    CALLVALUE,
    POP,
    MLOAD,
    MSTORE,
    SLOAD,
    SSTORE,
    JUMP,
    JUMPI,
    JUMPDEST,
    PUSH1,
    PUSH,
    PUSH32,
    DUP1,
    DUP,
    LOG0,
    LOG1,
    LOG2,
    LOG3,
    LOG4,
    CREATE,
    CALL,
    RETURN,
    REVERT,
    SELFDESTRUCT,
}

/// One entry of the instruction table: the opcode byte, the items it takes
/// from the stack (`delta`), the items it puts back (`alpha`) and its static
/// gas cost.
#[derive(Clone, Copy, PartialEq, Eq, Structural, Debug)]
pub struct Operation {
    pub index: u8,
    pub name: OpCode,
    pub delta: u8,
    pub alpha: u8,
    pub gas: usize,
}

impl Operation {
    pub fn new(index: u8, name: OpCode, delta: u8, alpha: u8, gas: usize) -> (r: Self)
        ensures
            r == (Operation { index, name, delta, alpha, gas }),
    {
        Operation { index, name, delta, alpha, gas }
    }
}

/// The instruction table: the operation a byte stands for, if any.
pub open spec fn operation_of(b: u8) -> Option<Operation> {
    match b {
        0x00u8 => Some(Operation { index: b, name: OpCode::STOP, delta: 0, alpha: 0, gas: 0 }),
        0x01u8 => Some(Operation { index: b, name: OpCode::ADD, delta: 2, alpha: 1, gas: 3 }),
        0x02u8 => Some(Operation { index: b, name: OpCode::MUL, delta: 2, alpha: 1, gas: 5 }),
        0x03u8 => Some(Operation { index: b, name: OpCode::SUB, delta: 2, alpha: 1, gas: 3 }),
        0x04u8 => Some(Operation { index: b, name: OpCode::DIV, delta: 2, alpha: 1, gas: 5 }),
        0x10u8 => Some(Operation { index: b, name: OpCode::LT, delta: 2, alpha: 1, gas: 3 }),
        0x11u8 => Some(Operation { index: b, name: OpCode::GT, delta: 2, alpha: 1, gas: 3 }),
        0x12u8 => Some(Operation { index: b, name: OpCode::SLT, delta: 2, alpha: 1, gas: 3 }),
        0x14u8 => Some(Operation { index: b, name: OpCode::EQ, delta: 2, alpha: 1, gas: 3 }),
        0x15u8 => Some(Operation { index: b, name: OpCode::ISZERO, delta: 1, alpha: 1, gas: 3 }),
        0x30u8 => Some(Operation { index: b, name: OpCode::ADDRESS, delta: 0, alpha: 1, gas: 2 }),
        0x31u8 => Some(Operation { index: b, name: OpCode::BALANCE, delta: 1, alpha: 1, gas: 0 }),
        0x32u8 => Some(Operation { index: b, name: OpCode::ORIGIN, delta: 0, alpha: 1, gas: 2 }),
        0x33u8 => Some(Operation { index: b, name: OpCode::CALLER, delta: 0, alpha: 1, gas: 2 }),
        0x34u8 => Some(Operation { index: b, name: OpCode::CALLVALUE, delta: 0, alpha: 1, gas: 2 }),
        0x50u8 => Some(Operation { index: b, name: OpCode::POP, delta: 1, alpha: 0, gas: 2 }),
        0x51u8 => Some(Operation { index: b, name: OpCode::MLOAD, delta: 1, alpha: 1, gas: 3 }),
        0x52u8 => Some(Operation { index: b, name: OpCode::MSTORE, delta: 2, alpha: 0, gas: 3 }),
        0x54u8 => Some(Operation { index: b, name: OpCode::SLOAD, delta: 1, alpha: 1, gas: 0 }),
        0x55u8 => Some(Operation { index: b, name: OpCode::SSTORE, delta: 2, alpha: 0, gas: 0 }),
        0x56u8 => Some(Operation { index: b, name: OpCode::JUMP, delta: 1, alpha: 0, gas: 8 }),
        0x57u8 => Some(Operation { index: b, name: OpCode::JUMPI, delta: 2, alpha: 0, gas: 10 }),
        0x5bu8 => Some(Operation { index: b, name: OpCode::JUMPDEST, delta: 0, alpha: 0, gas: 1 }),
        0x60u8 => Some(Operation { index: b, name: OpCode::PUSH1, delta: 0, alpha: 1, gas: 3 }),
        0x61u8..=0x7eu8 => Some(Operation { index: b, name: OpCode::PUSH, delta: 0, alpha: 1, gas: 3 }),
        0x7fu8 => Some(Operation { index: b, name: OpCode::PUSH32, delta: 0, alpha: 1, gas: 3 }),
        0x80u8 => Some(Operation { index: b, name: OpCode::DUP1, delta: 1, alpha: 2, gas: 3 }),
        0x81u8..=0x8fu8 => Some(Operation { index: b, name: OpCode::DUP, delta: (b - 0x7f) as u8, alpha: (b - 0x7e) as u8, gas: 3 }),
        0xa0u8 => Some(Operation { index: b, name: OpCode::LOG0, delta: 2, alpha: 0, gas: 375 }),
        0xa1u8 => Some(Operation { index: b, name: OpCode::LOG1, delta: 3, alpha: 0, gas: 375 }),
        0xa2u8 => Some(Operation { index: b, name: OpCode::LOG2, delta: 4, alpha: 0, gas: 375 }),
        0xa3u8 => Some(Operation { index: b, name: OpCode::LOG3, delta: 5, alpha: 0, gas: 375 }),
        0xa4u8 => Some(Operation { index: b, name: OpCode::LOG4, delta: 6, alpha: 0, gas: 375 }),
        0xf0u8 => Some(Operation { index: b, name: OpCode::CREATE, delta: 3, alpha: 1, gas: 32000 }),
        0xf1u8 => Some(Operation { index: b, name: OpCode::CALL, delta: 7, alpha: 1, gas: 0 }),
        0xf3u8 => Some(Operation { index: b, name: OpCode::RETURN, delta: 2, alpha: 0, gas: 0 }),
        0xfdu8 => Some(Operation { index: b, name: OpCode::REVERT, delta: 2, alpha: 0, gas: 0 }),
        0xffu8 => Some(Operation { index: b, name: OpCode::SELFDESTRUCT, delta: 1, alpha: 0, gas: 5000 }),
        _ => None,
    }
}

/// Looks a byte up in the instruction table.
pub fn lookup(b: u8) -> (r: Option<Operation>)
    ensures
        r == operation_of(b),
{
    match b {
        0x00u8 => Some(Operation { index: b, name: OpCode::STOP, delta: 0, alpha: 0, gas: 0 }),
        0x01u8 => Some(Operation { index: b, name: OpCode::ADD, delta: 2, alpha: 1, gas: 3 }),
        0x02u8 => Some(Operation { index: b, name: OpCode::MUL, delta: 2, alpha: 1, gas: 5 }),
        0x03u8 => Some(Operation { index: b, name: OpCode::SUB, delta: 2, alpha: 1, gas: 3 }),
        0x04u8 => Some(Operation { index: b, name: OpCode::DIV, delta: 2, alpha: 1, gas: 5 }),
        0x10u8 => Some(Operation { index: b, name: OpCode::LT, delta: 2, alpha: 1, gas: 3 }),
        0x11u8 => Some(Operation { index: b, name: OpCode::GT, delta: 2, alpha: 1, gas: 3 }),
        0x12u8 => Some(Operation { index: b, name: OpCode::SLT, delta: 2, alpha: 1, gas: 3 }),
        0x14u8 => Some(Operation { index: b, name: OpCode::EQ, delta: 2, alpha: 1, gas: 3 }),
        0x15u8 => Some(Operation { index: b, name: OpCode::ISZERO, delta: 1, alpha: 1, gas: 3 }),
        0x30u8 => Some(Operation { index: b, name: OpCode::ADDRESS, delta: 0, alpha: 1, gas: 2 }),
        0x31u8 => Some(Operation { index: b, name: OpCode::BALANCE, delta: 1, alpha: 1, gas: 0 }),
        0x32u8 => Some(Operation { index: b, name: OpCode::ORIGIN, delta: 0, alpha: 1, gas: 2 }),
        0x33u8 => Some(Operation { index: b, name: OpCode::CALLER, delta: 0, alpha: 1, gas: 2 }),
        0x34u8 => Some(Operation { index: b, name: OpCode::CALLVALUE, delta: 0, alpha: 1, gas: 2 }),
        0x50u8 => Some(Operation { index: b, name: OpCode::POP, delta: 1, alpha: 0, gas: 2 }),
        0x51u8 => Some(Operation { index: b, name: OpCode::MLOAD, delta: 1, alpha: 1, gas: 3 }),
        0x52u8 => Some(Operation { index: b, name: OpCode::MSTORE, delta: 2, alpha: 0, gas: 3 }),
        0x54u8 => Some(Operation { index: b, name: OpCode::SLOAD, delta: 1, alpha: 1, gas: 0 }),
        0x55u8 => Some(Operation { index: b, name: OpCode::SSTORE, delta: 2, alpha: 0, gas: 0 }),
        0x56u8 => Some(Operation { index: b, name: OpCode::JUMP, delta: 1, alpha: 0, gas: 8 }),
        0x57u8 => Some(Operation { index: b, name: OpCode::JUMPI, delta: 2, alpha: 0, gas: 10 }),
        0x5bu8 => Some(Operation { index: b, name: OpCode::JUMPDEST, delta: 0, alpha: 0, gas: 1 }),
        0x60u8 => Some(Operation { index: b, name: OpCode::PUSH1, delta: 0, alpha: 1, gas: 3 }),
        0x61u8..=0x7eu8 => Some(Operation { index: b, name: OpCode::PUSH, delta: 0, alpha: 1, gas: 3 }),
        0x7fu8 => Some(Operation { index: b, name: OpCode::PUSH32, delta: 0, alpha: 1, gas: 3 }),
        0x80u8 => Some(Operation { index: b, name: OpCode::DUP1, delta: 1, alpha: 2, gas: 3 }),
        0x81u8..=0x8fu8 => Some(Operation { index: b, name: OpCode::DUP, delta: (b - 0x7f) as u8, alpha: (b - 0x7e) as u8, gas: 3 }),
        0xa0u8 => Some(Operation { index: b, name: OpCode::LOG0, delta: 2, alpha: 0, gas: 375 }),
        0xa1u8 => Some(Operation { index: b, name: OpCode::LOG1, delta: 3, alpha: 0, gas: 375 }),
        0xa2u8 => Some(Operation { index: b, name: OpCode::LOG2, delta: 4, alpha: 0, gas: 375 }),
        0xa3u8 => Some(Operation { index: b, name: OpCode::LOG3, delta: 5, alpha: 0, gas: 375 }),
        0xa4u8 => Some(Operation { index: b, name: OpCode::LOG4, delta: 6, alpha: 0, gas: 375 }),
        0xf0u8 => Some(Operation { index: b, name: OpCode::CREATE, delta: 3, alpha: 1, gas: 32000 }),
        0xf1u8 => Some(Operation { index: b, name: OpCode::CALL, delta: 7, alpha: 1, gas: 0 }),
        0xf3u8 => Some(Operation { index: b, name: OpCode::RETURN, delta: 2, alpha: 0, gas: 0 }),
        0xfdu8 => Some(Operation { index: b, name: OpCode::REVERT, delta: 2, alpha: 0, gas: 0 }),
        0xffu8 => Some(Operation { index: b, name: OpCode::SELFDESTRUCT, delta: 1, alpha: 0, gas: 5000 }),
        _ => None,
    }
}

/// Every defined operation's stack effect leaves room for the stack bound:
/// it takes at most seventeen items and adds at most one.
pub proof fn lemma_table_shape(b: u8)
    ensures
        operation_of(b) matches Some(op) ==> op.index == b && op.delta <= 17 && op.alpha <= op.delta + 1
            && op.alpha <= 17,
{
}

} // verus!
