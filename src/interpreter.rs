use crate::gas::{
    access_cost, call_stipend, call_value_cost, sstore_cost_spec, log_cost, sstore_cost, COLD_ACCOUNT_ACCESS_COST, COLD_SLOAD_COST, NEW_ACCOUNT_COST, WARM_ACCESS_COST, CALL_VALUE_COST,
    SSTORE_CLEAR_REFUND,
};
use crate::gas::{LOG_BYTE_COST, LOG_TOPIC_COST, MAX_MEMORY_WORDS};
use crate::machine::{
    expansion_cost_spec, grown_words, charge, is_jumpdest, mem_range, mem_read, mem_write, pop, push, push_data, push_width, read_push_data,
    valid_jumpdest, HaltReason,
};
use crate::operations::{lookup, operation_of, OpCode, Operation};
use crate::state::{contains_slot, Address, EVMState, LogEntry, SubState, WorldState, AccountState, STACK_LIMIT};
use crate::word::{be_value, word_modulus, Word};
use vstd::prelude::*;

verus! {

/// The deepest nesting of frames.
pub const MAX_CALL_DEPTH: usize = 1024;

/// How a frame ended. An exceptional halt leaves no gas.
pub enum FrameResult {
    Success { gas_left: u64, output: Vec<u8> },
    Revert { gas_left: u64, output: Vec<u8> },
    Failure { reason: HaltReason },
}

impl FrameResult {
    pub open spec fn gas_left_spec(&self) -> nat {
        match self {
            FrameResult::Success { gas_left, .. } => *gas_left as nat,
            FrameResult::Revert { gas_left, .. } => *gas_left as nat,
            FrameResult::Failure { .. } => 0,
        }
    }

    /// The gas a frame hands back to its caller.
    pub fn gas_left(&self) -> (r: u64)
        ensures
            r as nat == self.gas_left_spec(),
    {
        match self {
            FrameResult::Success { gas_left, .. } => *gas_left,
            FrameResult::Revert { gas_left, .. } => *gas_left,
            FrameResult::Failure { .. } => 0,
        }
    }
}

/// The context of one frame: whose code runs, who called it, who began the
/// transaction, the value sent along, and how deep the frame is nested.
#[derive(Clone, Copy, PartialEq, Eq, Structural, Debug)]
pub struct Env {
    pub address: Address,
    pub caller: Address,
    pub origin: Address,
    pub value: Word,
    pub depth: usize,
}

/// `s1` was reached from `s0` by accruing alone: every list only grew.
pub open spec fn sub_extends(s1: &SubState, s0: &SubState) -> bool {
    &&& s0.self_destruct_set@.is_prefix_of(s1.self_destruct_set@)
    &&& s0.logs@.is_prefix_of(s1.logs@)
    &&& s0.touched_accounts@.is_prefix_of(s1.touched_accounts@)
    &&& s1.access_grows(s0)
}

/// `s1` is `s0` with nothing kept but what the access sets gained.
pub open spec fn sub_rolled_back(s1: &SubState, s0: &SubState) -> bool {
    &&& s1.self_destruct_set@ == s0.self_destruct_set@
    &&& s1.logs@ == s0.logs@
    &&& s1.touched_accounts@ == s0.touched_accounts@
    &&& s1.refund == s0.refund
    &&& s1.access_grows(s0)
}

/// What every step keeps: the machine state well formed, gas never gained,
/// the world and the substate only written forward, and a halting frame
/// handing back no more gas than it had.
pub open spec fn step_post(
    ms0: &EVMState,
    ms1: &EVMState,
    w0: &WorldState,
    w1: &WorldState,
    s0: &SubState,
    s1: &SubState,
    r: &Option<FrameResult>,
) -> bool {
    &&& ms1.wf()
    &&& ms1.gas <= ms0.gas
    &&& w1.extends(w0)
    &&& sub_extends(s1, s0)
    &&& r matches Some(res) ==> res.gas_left_spec() <= ms0.gas
}

proof fn lemma_prefix_refl<T>(s: Seq<T>)
    ensures
        s.is_prefix_of(s),
{
    assert(s.subrange(0, s.len() as int) == s);
}

proof fn lemma_prefix_trans<T>(a: Seq<T>, b: Seq<T>, c: Seq<T>)
    requires
        a.is_prefix_of(b),
        b.is_prefix_of(c),
    ensures
        a.is_prefix_of(c),
{
    assert(c.subrange(0, a.len() as int) == b.subrange(0, a.len() as int));
}

proof fn lemma_unchanged(w: &WorldState, s: &SubState)
    ensures
        w.extends(w),
        sub_extends(s, s),
{
    lemma_prefix_refl(w.trie@);
    lemma_prefix_refl(w.codes@);
    lemma_prefix_refl(w.storage@);
    lemma_sub_unchanged(s);
}

proof fn lemma_sub_unchanged(s: &SubState)
    ensures
        sub_extends(s, s),
{
    lemma_prefix_refl(s.self_destruct_set@);
    lemma_prefix_refl(s.logs@);
    lemma_prefix_refl(s.touched_accounts@);
    lemma_prefix_refl(s.accessed_accounts@);
    lemma_prefix_refl(s.accessed_storage@);
}

proof fn lemma_chain(w0: &WorldState, w1: &WorldState, w2: &WorldState, s0: &SubState, s1: &SubState, s2: &SubState)
    requires
        w1.extends(w0),
        w2.extends(w1),
        sub_extends(s1, s0),
        sub_extends(s2, s1),
    ensures
        w2.extends(w0),
        sub_extends(s2, s0),
{
    lemma_prefix_trans(w0.trie@, w1.trie@, w2.trie@);
    lemma_prefix_trans(w0.codes@, w1.codes@, w2.codes@);
    lemma_prefix_trans(w0.storage@, w1.storage@, w2.storage@);
    lemma_prefix_trans(s0.self_destruct_set@, s1.self_destruct_set@, s2.self_destruct_set@);
    lemma_prefix_trans(s0.logs@, s1.logs@, s2.logs@);
    lemma_prefix_trans(s0.touched_accounts@, s1.touched_accounts@, s2.touched_accounts@);
    lemma_prefix_trans(s0.accessed_accounts@, s1.accessed_accounts@, s2.accessed_accounts@);
    lemma_prefix_trans(s0.accessed_storage@, s1.accessed_storage@, s2.accessed_storage@);
}

/// What a two-operand instruction computes from the top word `a` and the
/// one below it `b`, modulo 2^256; comparisons give one or zero.
pub open spec fn binary_result(name: OpCode, a: Word, b: Word) -> nat {
    match name {
        OpCode::ADD => (a.value() + b.value()) % word_modulus(),
        OpCode::MUL => (a.value() * b.value()) % word_modulus(),
        OpCode::SUB => ((a.value() + word_modulus() - b.value()) % (word_modulus() as int)) as nat,
        OpCode::DIV => if b.value() == 0 { 0 } else { a.value() / b.value() },
        OpCode::LT => if a.value() < b.value() { 1 } else { 0 },
        OpCode::GT => if a.value() > b.value() { 1 } else { 0 },
        OpCode::SLT => if a.signed_value() < b.signed_value() { 1 } else { 0 },
        _ => if a.value() == b.value() { 1 } else { 0 },
    }
}

/// `ms` with `g` gas taken: the state a handler starts from once the static
/// cost is paid.
pub open spec fn charged(ms: EVMState, g: nat) -> EVMState {
    EVMState { gas: (ms.gas - g) as u64, pc: ms.pc, m: ms.m, i: ms.i, s: ms.s, o: ms.o }
}

/// The effect of the arithmetic, comparison and zero-test instructions.
pub open spec fn arith_post(ms0: EVMState, ms1: EVMState, name: OpCode) -> bool {
    let s0 = ms0.s@;
    let s1 = ms1.s@;
    &&& ms1.gas == ms0.gas && ms1.m == ms0.m && ms1.i == ms0.i
    &&& name == OpCode::ISZERO ==> s1 == s0.drop_last().push(s1.last()) && s1.last().value() == if s0.last().value()
        == 0 {
        1nat
    } else {
        0nat
    }
    &&& name != OpCode::ISZERO ==> s1 == s0.subrange(0, s0.len() - 2).push(s1.last()) && s1.last().value()
        == binary_result(name, s0.last(), s0[s0.len() - 2])
}

/// The effect of `ADDRESS`, `CALLER`, `ORIGIN` and `CALLVALUE`.
pub open spec fn env_post(ms0: EVMState, ms1: EVMState, env: Env, name: OpCode) -> bool {
    &&& ms1.gas == ms0.gas && ms1.m == ms0.m && ms1.i == ms0.i
    &&& ms1.s@ == ms0.s@.push(
        match name {
            OpCode::ADDRESS => env.address.to_word_spec(),
            OpCode::CALLER => env.caller.to_word_spec(),
            OpCode::ORIGIN => env.origin.to_word_spec(),
            _ => env.value,
        },
    )
}

/// The effect of `BALANCE`: warm or cold price, then the balance pushed.
pub open spec fn balance_post(ms0: EVMState, ms1: EVMState, w: WorldState, s0: SubState, s1: SubState, r: Option<FrameResult>) -> bool {
    let a = Address::from_word_spec(ms0.s@.last());
    let cost = if s0.accessed_accounts@.contains(a) { WARM_ACCESS_COST } else { COLD_ACCOUNT_ACCESS_COST };
    &&& s1.accessed_accounts@.contains(a)
    &&& ms1.m == ms0.m && ms1.i == ms0.i
    &&& (r.is_none() <==> cost <= ms0.gas)
    &&& r.is_some() ==> r == Some(FrameResult::Failure { reason: HaltReason::OutOfGas })
    &&& r.is_none() ==> ms1.gas == ms0.gas - cost && ms1.s@ == ms0.s@.drop_last().push(ms1.s@.last())
        && ms1.s@.last().value() == w.balance_of(a)
}

/// The effect of `MLOAD` (`store` false) and `MSTORE` (`store` true) on the
/// word at the top offset.
pub open spec fn memory_post(ms0: EVMState, ms1: EVMState, store: bool, r: Option<FrameResult>) -> bool {
    let s0 = ms0.s@;
    let off = s0.last().value();
    let end = off + 32;
    let cost = expansion_cost_spec(ms0.i as nat, end);
    &&& end > MAX_MEMORY_WORDS * 32 ==> r == Some(FrameResult::Failure { reason: HaltReason::InvalidMemoryAccess })
    &&& end <= MAX_MEMORY_WORDS * 32 && cost > ms0.gas ==> r == Some(FrameResult::Failure { reason: HaltReason::OutOfGas })
    &&& end <= MAX_MEMORY_WORDS * 32 && cost <= ms0.gas ==> r.is_none()
    &&& r.is_none() ==> {
        &&& ms1.gas == ms0.gas - cost
        &&& ms1.i == grown_words(ms0.i as nat, end)
        &&& store ==> ms1.s@ == s0.subrange(0, s0.len() - 2) && be_value(ms1.m@.subrange(off as int, end as int))
            == s0[s0.len() - 2].value() && forall|j: int| 0 <= j < ms1.m@.len() && !(off <= j < end) ==> #[trigger] ms1.m@[j]
            == if j < ms0.m@.len() { ms0.m@[j] } else { 0u8 }
        &&& !store ==> ms1.s@ == s0.drop_last().push(ms1.s@.last()) && ms1.s@.last().value() == be_value(
            ms1.m@.subrange(off as int, end as int),
        ) && ms1.m@.subrange(0, ms0.m@.len() as int) == ms0.m@ && forall|j: int| ms0.m@.len() <= j < ms1.m@.len()
            ==> #[trigger] ms1.m@[j] == 0
    }
}

/// The effect of `SLOAD`: warm or cold price, then the slot's value pushed.
pub open spec fn sload_post(ms0: EVMState, ms1: EVMState, env: Env, w: WorldState, s0: SubState, s1: SubState, r: Option<FrameResult>) -> bool {
    let key = ms0.s@.last();
    let cost = if s0.accessed_storage@.contains((env.address, key)) { WARM_ACCESS_COST } else { COLD_SLOAD_COST };
    &&& s1.accessed_storage@.contains((env.address, key))
    &&& ms1.m == ms0.m && ms1.i == ms0.i
    &&& (r.is_none() <==> cost <= ms0.gas)
    &&& r.is_some() ==> r == Some(FrameResult::Failure { reason: HaltReason::OutOfGas })
    &&& r.is_none() ==> ms1.gas == ms0.gas - cost && ms1.s@ == ms0.s@.drop_last().push(ms1.s@.last())
        && ms1.s@.last().value() == w.slot_value(env.address, key)
}

/// The refund after clearing a slot, held at the largest `u64`.
pub open spec fn refund_after_clear(refund: u64) -> u64 {
    if refund <= u64::MAX - SSTORE_CLEAR_REFUND { (refund + SSTORE_CLEAR_REFUND) as u64 } else { u64::MAX }
}

/// The refund after a cleared slot is set again: the clearing's refund taken
/// back, down to zero at most.
pub open spec fn refund_after_reset(refund: u64) -> u64 {
    if refund >= SSTORE_CLEAR_REFUND { (refund - SSTORE_CLEAR_REFUND) as u64 } else { 0 }
}

/// The effect of `SSTORE`: tiered price, the write, and the refund for a
/// cleared slot. Out of gas, nothing is written.
pub open spec fn sstore_post(ms0: EVMState, ms1: EVMState, env: Env, w0: WorldState, w1: WorldState, s0: SubState, s1: SubState, r: Option<FrameResult>) -> bool {
    let st = ms0.s@;
    let key = st.last();
    let value = st[st.len() - 2];
    let current = w0.slot_value(env.address, key);
    let cold: nat = if s0.accessed_storage@.contains((env.address, key)) { 0 } else { COLD_SLOAD_COST as nat };
    let cost = sstore_cost_spec(current == 0, current == value.value()) + cold;
    &&& s1.accessed_storage@.contains((env.address, key))
    &&& ms1.m == ms0.m && ms1.i == ms0.i
    &&& (r.is_none() <==> cost <= ms0.gas)
    &&& r.is_some() ==> r == Some(FrameResult::Failure { reason: HaltReason::OutOfGas }) && w1.same(&w0)
    &&& r.is_none() ==> {
        &&& ms1.gas == ms0.gas - cost
        &&& ms1.s@ == st.subrange(0, st.len() - 2)
        &&& w1.slots() == w0.slots().insert((env.address, key), value)
        &&& w1.trie == w0.trie && w1.codes == w0.codes
        &&& s1.refund == if current != 0 && value.value() == 0 {
            refund_after_clear(s0.refund)
        } else if current == 0 && value.value() != 0 && s0.cleared_slots@.contains((env.address, key)) {
            refund_after_reset(s0.refund)
        } else {
            s0.refund
        }
    }
}

/// The effect of `JUMP` and `JUMPI` (`conditional`).
pub open spec fn jump_post(ms0: EVMState, ms1: EVMState, code: Seq<u8>, conditional: bool, r: Option<FrameResult>) -> bool {
    let st = ms0.s@;
    let t = st.last().value();
    let taken = !conditional || st[st.len() - 2].value() != 0;
    let rest = if conditional { st.subrange(0, st.len() - 2) } else { st.drop_last() };
    &&& ms1.gas == ms0.gas && ms1.m == ms0.m && ms1.i == ms0.i
    &&& r.is_none() ==> ms1.s@ == rest
    &&& !taken ==> r.is_none() && ms1.pc == ms0.pc + 1
    &&& taken ==> (r.is_none() <==> is_jumpdest(code, t))
    &&& taken && r.is_none() ==> ms1.pc == t
    &&& r.is_some() ==> r == Some(FrameResult::Failure { reason: HaltReason::InvalidJump })
}

/// The bytes that a range of memory holds, none for an empty range.
pub open spec fn mem_slice(m: Seq<u8>, off: nat, size: nat) -> Seq<u8> {
    if size == 0 { Seq::empty() } else { m.subrange(off as int, (off + size) as int) }
}

/// The memory surcharge for a range, none for an empty one.
pub open spec fn range_cost(i: nat, off: nat, size: nat) -> nat {
    if size == 0 { 0 } else { expansion_cost_spec(i, off + size) }
}

/// Whether a range lies within the addressable memory.
pub open spec fn range_fits(off: nat, size: nat) -> bool {
    size == 0 || off + size <= MAX_MEMORY_WORDS * 32
}

/// The effect of `RETURN` (`revert` false) and `REVERT` (`revert` true): the
/// frame ends with the memory slice as output and the gas that is left.
pub open spec fn return_post(ms0: EVMState, ms1: EVMState, revert: bool, r: Option<FrameResult>) -> bool {
    let st = ms0.s@;
    let off = st.last().value();
    let size = st[st.len() - 2].value();
    let cost = range_cost(ms0.i as nat, off, size);
    &&& !range_fits(off, size) ==> r == Some(FrameResult::Failure { reason: HaltReason::InvalidMemoryAccess })
    &&& range_fits(off, size) && cost > ms0.gas ==> r == Some(FrameResult::Failure { reason: HaltReason::OutOfGas })
    &&& range_fits(off, size) && cost <= ms0.gas ==> ms1.gas == ms0.gas - cost && match r {
        Some(FrameResult::Success { gas_left, output }) => !revert && gas_left == ms1.gas && output@ == mem_slice(ms1.m@, off, size),
        Some(FrameResult::Revert { gas_left, output }) => revert && gas_left == ms1.gas && output@ == mem_slice(ms1.m@, off, size),
        _ => false,
    }
}

/// The effect of `LOG0` to `LOG4`: memory and per-topic, per-byte price, then
/// one log record of the running account with the topics and the memory slice.
pub open spec fn log_post(ms0: EVMState, ms1: EVMState, env: Env, s0: SubState, s1: SubState, n: nat, r: Option<FrameResult>) -> bool {
    let st = ms0.s@;
    let off = st.last().value();
    let size = st[st.len() - 2].value();
    let cost = range_cost(ms0.i as nat, off, size) + LOG_TOPIC_COST * n + LOG_BYTE_COST * size;
    &&& !range_fits(off, size) ==> r == Some(FrameResult::Failure { reason: HaltReason::InvalidMemoryAccess })
    &&& range_fits(off, size) && cost > ms0.gas ==> r == Some(FrameResult::Failure { reason: HaltReason::OutOfGas })
    &&& range_fits(off, size) && cost <= ms0.gas ==> r.is_none()
    &&& r.is_some() ==> s1.logs@ == s0.logs@
    &&& r.is_none() ==> {
        let e = s1.logs@.last();
        &&& ms1.gas == ms0.gas - cost
        &&& ms1.s@ == st.subrange(0, st.len() - 2 - n)
        &&& s1.logs@.drop_last() == s0.logs@ && s1.logs@.len() == s0.logs@.len() + 1
        &&& e.address == env.address
        &&& e.data@ == mem_slice(ms1.m@, off, size)
        &&& e.topics@.len() == n
        &&& forall|x: int| 0 <= x < n ==> #[trigger] e.topics@[x] == st[st.len() - 3 - x]
    }
}

/// The gas a `CREATE` has left once its memory is paid for.
pub open spec fn create_gas(ms0: EVMState) -> int {
    let st = ms0.s@;
    ms0.gas - range_cost(ms0.i as nat, st[st.len() - 2].value(), st[st.len() - 3].value())
}

/// The world a created account's init code starts in: the creator's nonce
/// raised by one and the value moved from the creator to the fresh account,
/// which has nonce zero.
pub open spec fn create_start(w: WorldState, w0: WorldState, creator: Address, a: Address, value: Word) -> bool {
    &&& w.nonce_of(creator) == w0.nonce_of(creator) + 1
    &&& w.balance_of(creator) == w0.balance_of(creator) - value.value()
    &&& w.accounts().contains_key(a)
    &&& w.nonce_of(a) == 0
    &&& w.balance_of(a) == value.value()
}

/// How a creator stands after the init code's run ended in `res` at `last`,
/// having kept `kept` gas back while it ran: on success the derived address
/// pushed, the output as the account's code and the child's substate taken;
/// otherwise zero pushed, the world as before but for the creator's nonce,
/// and the rolled-back parts of the substate as before.
pub open spec fn create_done(
    ms1: EVMState,
    env: Env,
    w0: WorldState,
    w1: WorldState,
    s0: SubState,
    s1: SubState,
    a: Address,
    last: (EVMState, WorldState, SubState),
    res: FrameResult,
    kept: int,
) -> bool {
    &&& ms1.gas == kept + res.gas_left_spec()
    &&& res is Success ==> {
        &&& ms1.s@.last() == a.to_word_spec()
        &&& ms1.o@.len() == 0
        &&& w1.code_map() == last.1.code_map().insert(a, output_of(res))
        &&& w1.accounts() == last.1.accounts()
        &&& w1.slots() == last.1.slots()
        &&& s1 == last.2
    }
    &&& !(res is Success) ==> {
        &&& ms1.s@.last().value() == 0
        &&& ms1.o@ == output_of(res)
        &&& w1.accounts() == w0.accounts().insert(
            env.address,
            AccountState { nonce: (w0.nonce_of(env.address) + 1) as u64, balance: w0.accounts()[env.address].balance },
        )
        &&& w1.code_map() == w0.code_map()
        &&& w1.slots() == w0.slots()
        &&& s1.self_destruct_set@ == s0.self_destruct_set@
        &&& s1.logs@ == s0.logs@
        &&& s1.touched_accounts@ == s0.touched_accounts@
        &&& s1.refund == s0.refund
        &&& s1.accessed_accounts == last.2.accessed_accounts
        &&& s1.accessed_storage == last.2.accessed_storage
    }
}

/// The effect of `CREATE` with the init code's run: when creation can start
/// at a fresh address, the init code (the memory slice) runs one level deeper
/// on sixty-three sixty-fourths of the gas left, from `create_start`, and the
/// creator stands as `create_done` says of that run.
pub open spec fn create_post(ms0: EVMState, ms1: EVMState, env: Env, w0: WorldState, w1: WorldState, s0: SubState, s1: SubState, r: Option<FrameResult>) -> bool {
    let st = ms0.s@;
    let n = st.len();
    let value = st[n - 1];
    let nonce = w0.nonce_of(env.address);
    let early = env.depth >= MAX_CALL_DEPTH || w0.balance_of(env.address) < value.value() || nonce == u64::MAX;
    let a = created_address(env.address, nonce as u64);
    let g = create_gas(ms0);
    &&& create_post_basic(ms0, ms1, env, w0, w1, r)
    &&& r.is_none() && !early && a != env.address && w0.is_empty_spec(a) && w0.accounts().contains_key(env.address) ==> exists|
        t: Seq<(EVMState, WorldState, SubState)>,
        last: (EVMState, WorldState, SubState),
        res: FrameResult,
    |
        #[trigger] is_run(mem_slice(ms1.m@, st[n - 2].value(), st[n - 3].value()), child_env(env, a, value), g * 63 / 64, t, last, res)
            && create_start(t[0].1, w0, env.address, a, value) && create_done(ms1, env, w0, w1, s0, s1, a, last, res, g - g * 63 / 64)
}

/// The effect of `SELFDESTRUCT`: the cold and new-account surcharges, the
/// balance handed to the beneficiary, the account scheduled for deletion.
pub open spec fn selfdestruct_post(ms0: EVMState, ms1: EVMState, env: Env, w0: WorldState, w1: WorldState, s0: SubState, s1: SubState, r: Option<FrameResult>) -> bool {
    let b = Address::from_word_spec(ms0.s@.last());
    let bal = w0.balance_of(env.address);
    let cold: nat = if s0.accessed_accounts@.contains(b) { 0 } else { COLD_ACCOUNT_ACCESS_COST as nat };
    let fresh: nat = if bal != 0 && !w0.accounts().contains_key(b) { NEW_ACCOUNT_COST as nat } else { 0 };
    let cost = cold + fresh;
    &&& s1.accessed_accounts@.contains(b)
    &&& cost > ms0.gas ==> r == Some(FrameResult::Failure { reason: HaltReason::OutOfGas }) && w1.same(&w0)
    &&& cost <= ms0.gas ==> {
        &&& r matches Some(FrameResult::Success { gas_left, output }) && gas_left == ms0.gas - cost && output@.len() == 0
        &&& s1.self_destruct_set@.contains(env.address)
        &&& w1.accounts().contains_key(env.address) && w1.accounts().contains_key(b)
        &&& b != env.address ==> w1.balance_of(env.address) == 0 && w1.balance_of(b) == (w0.balance_of(b) + bal) % word_modulus()
        &&& b == env.address ==> w1.balance_of(b) == bal
    }
}

/// The arithmetic, comparison and bitwise-test instructions: take one or two
/// words off the stack and push the result.
pub fn exec_arith(ms: &mut EVMState, name: OpCode) -> (r: Option<FrameResult>)
    requires
        old(ms).wf(),
        old(ms).s@.len() >= 2 || (name == OpCode::ISZERO && old(ms).s@.len() >= 1),
    ensures
        final(ms).wf(),
        r.is_none(),
        final(ms).pc == old(ms).pc,
        arith_post(*old(ms), *final(ms), name),
{
    let a = pop(ms);
    if name == OpCode::ISZERO {
        let v = if a.is_zero() { Word::from_u64(1) } else { Word::zero() };
        push(ms, v);
    } else {
        let b = pop(ms);
        let v = match name {
            OpCode::ADD => a.wrapping_add(b),
            OpCode::MUL => a.wrapping_mul(b),
            OpCode::SUB => a.wrapping_sub(b),
            OpCode::DIV => match a.checked_div(b) {
                Some(q) => q,
                None => Word::zero(),
            },
            OpCode::LT => if a.lt(b) { Word::from_u64(1) } else { Word::zero() },
            OpCode::GT => if b.lt(a) { Word::from_u64(1) } else { Word::zero() },
            OpCode::SLT => if a.slt(b) { Word::from_u64(1) } else { Word::zero() },
            _ => if a.eq_word(b) { Word::from_u64(1) } else { Word::zero() },
        };
        push(ms, v);
        assert(old(ms).s@.drop_last().drop_last() == old(ms).s@.subrange(0, old(ms).s@.len() - 2));
    }
    None
}

/// The environment instructions: push a word that the frame's context holds.
pub fn exec_env(ms: &mut EVMState, env: &Env, name: OpCode) -> (r: Option<FrameResult>)
    requires
        old(ms).wf(),
        old(ms).s@.len() < STACK_LIMIT,
    ensures
        final(ms).wf(),
        r.is_none(),
        final(ms).pc == old(ms).pc,
        env_post(*old(ms), *final(ms), *env, name),
{
    let w = match name {
        OpCode::ADDRESS => env.address.to_word(),
        OpCode::CALLER => env.caller.to_word(),
        OpCode::ORIGIN => env.origin.to_word(),
        _ => env.value,
    };
    push(ms, w);
    None
}

/// `BALANCE`: the balance of the account the top word names, at the warm or
/// cold access price; the account joins the accessed set either way.
pub fn exec_balance(ms: &mut EVMState, world: &WorldState, sub: &mut SubState) -> (r: Option<FrameResult>)
    requires
        old(ms).wf(),
        old(ms).s@.len() >= 1,
    ensures
        step_post(old(ms), final(ms), world, world, old(sub), final(sub), &r),
        final(ms).pc == old(ms).pc,
        balance_post(*old(ms), *final(ms), *world, *old(sub), *final(sub), r),
{
    let a = Address::from_word(pop(ms));
    let warm = sub.access_account(a);
    proof { lemma_unchanged(world, old(sub)); lemma_prefix_refl(sub.accessed_storage@); }
    if !charge(ms, access_cost(warm, COLD_ACCOUNT_ACCESS_COST)) {
        return Some(FrameResult::Failure { reason: HaltReason::OutOfGas });
    }
    push(ms, world.balance(a));
    None
}

/// `MLOAD` and `MSTORE`: one word of memory, big-endian, after growing memory
/// to cover it.
pub fn exec_memory(ms: &mut EVMState, store: bool) -> (r: Option<FrameResult>)
    requires
        old(ms).wf(),
        old(ms).s@.len() >= 2 || (!store && old(ms).s@.len() >= 1),
    ensures
        final(ms).wf(),
        final(ms).gas <= old(ms).gas,
        final(ms).pc == old(ms).pc,
        memory_post(*old(ms), *final(ms), store, r),
{
    let offset = pop(ms);
    if store {
        let value = pop(ms);
        match mem_range(ms, offset, Word::from_u64(32)) {
            Err(e) => Some(FrameResult::Failure { reason: e }),
            Ok((start, _)) => {
                let bytes = value.to_be_bytes();
                mem_write(ms, start, &bytes, 32);
                assert(bytes@.subrange(0, 32) == bytes@);
                assert(old(ms).s@.drop_last().drop_last() == old(ms).s@.subrange(0, old(ms).s@.len() - 2));
                None
            },
        }
    } else {
        match mem_range(ms, offset, Word::from_u64(32)) {
            Err(e) => Some(FrameResult::Failure { reason: e }),
            Ok((start, _)) => {
                let bytes = mem_read(ms, start, 32);
                push(ms, Word::from_be_slice(bytes.as_slice()));
                None
            },
        }
    }
}

/// `SLOAD`: the value of a slot of the running account, at the warm or cold
/// price.
pub fn exec_sload(ms: &mut EVMState, env: &Env, world: &WorldState, sub: &mut SubState) -> (r: Option<FrameResult>)
    requires
        old(ms).wf(),
        old(ms).s@.len() >= 1,
    ensures
        step_post(old(ms), final(ms), world, world, old(sub), final(sub), &r),
        final(ms).pc == old(ms).pc,
        sload_post(*old(ms), *final(ms), *env, *world, *old(sub), *final(sub), r),
{
    let key = pop(ms);
    let warm = sub.access_slot(env.address, key);
    proof { lemma_unchanged(world, old(sub)); lemma_prefix_refl(sub.accessed_accounts@); }
    if !charge(ms, access_cost(warm, COLD_SLOAD_COST)) {
        return Some(FrameResult::Failure { reason: HaltReason::OutOfGas });
    }
    push(ms, world.storage_at(env.address, key));
    None
}

/// `SSTORE`: writes a slot of the running account at the tiered price, and
/// credits the refund when a nonzero slot is cleared.
pub fn exec_sstore(ms: &mut EVMState, env: &Env, world: &mut WorldState, sub: &mut SubState) -> (r: Option<FrameResult>)
    requires
        old(ms).wf(),
        old(ms).s@.len() >= 2,
    ensures
        step_post(old(ms), final(ms), old(world), final(world), old(sub), final(sub), &r),
        final(ms).pc == old(ms).pc,
        sstore_post(*old(ms), *final(ms), *env, *old(world), *final(world), *old(sub), *final(sub), r),
{
    let key = pop(ms);
    let value = pop(ms);
    assert(ms.s@ =~= old(ms).s@.subrange(0, old(ms).s@.len() - 2));
    let warm = sub.access_slot(env.address, key);
    proof { lemma_unchanged(old(world), old(sub)); lemma_prefix_refl(sub.accessed_accounts@); }
    let current = world.storage_at(env.address, key);
    let current_zero = current.is_zero();
    let cost = sstore_cost(current_zero, current.eq_word(value), warm);
    if !charge(ms, cost) {
        return Some(FrameResult::Failure { reason: HaltReason::OutOfGas });
    }
    if !current_zero && value.is_zero() {
        sub.refund = if sub.refund <= u64::MAX - SSTORE_CLEAR_REFUND {
            sub.refund + SSTORE_CLEAR_REFUND
        } else {
            u64::MAX
        };
        sub.cleared_slots.push((env.address, key));
    } else if current_zero && !value.is_zero() && contains_slot(&sub.cleared_slots, env.address, key) {
        sub.refund = if sub.refund >= SSTORE_CLEAR_REFUND {
            sub.refund - SSTORE_CLEAR_REFUND
        } else {
            0
        };
    }
    world.set_storage(env.address, key, value);
    None
}

/// `JUMP` and `JUMPI`: move to the target if the jump is taken and the target
/// is a `JUMPDEST`; else stop with `InvalidJump`. An untaken `JUMPI` moves on.
pub fn exec_jump(ms: &mut EVMState, code: &Vec<u8>, conditional: bool) -> (r: Option<FrameResult>)
    requires
        old(ms).wf(),
        old(ms).s@.len() >= 2 || (!conditional && old(ms).s@.len() >= 1),
        old(ms).pc < code@.len(),
    ensures
        final(ms).wf(),
        jump_post(*old(ms), *final(ms), code@, conditional, r),
{
    let len = code.len();
    let dest = pop(ms);
    if conditional {
        let cond = pop(ms);
        assert(ms.s@ =~= old(ms).s@.subrange(0, old(ms).s@.len() - 2));
        if cond.is_zero() {
            ms.pc = if ms.pc < len { ms.pc + 1 } else { len };
            return None;
        }
    }
    match dest.to_u64() {
        Some(d) => {
            if d < len as u64 && valid_jumpdest(code, d as usize) {
                ms.pc = d as usize;
                None
            } else {
                Some(FrameResult::Failure { reason: HaltReason::InvalidJump })
            }
        },
        None => Some(FrameResult::Failure { reason: HaltReason::InvalidJump }),
    }
}

/// `RETURN` and `REVERT`: end the frame with a slice of memory as output.
pub fn exec_return(ms: &mut EVMState, revert: bool) -> (r: Option<FrameResult>)
    requires
        old(ms).wf(),
        old(ms).s@.len() >= 2,
    ensures
        final(ms).wf(),
        final(ms).gas <= old(ms).gas,
        r.is_some(),
        r matches Some(FrameResult::Success { gas_left, .. }) ==> gas_left <= old(ms).gas,
        r matches Some(FrameResult::Revert { gas_left, .. }) ==> gas_left <= old(ms).gas,
        return_post(*old(ms), *final(ms), revert, r),
{
    let offset = pop(ms);
    let size = pop(ms);
    match mem_range(ms, offset, size) {
        Err(e) => Some(FrameResult::Failure { reason: e }),
        Ok((start, len)) => {
            let output = mem_read(ms, start, len);
            proof {
                if size.value() == 0 {
                    assert(output@ =~= mem_slice(ms.m@, offset.value(), size.value()));
                }
            }
            if revert {
                Some(FrameResult::Revert { gas_left: ms.gas, output })
            } else {
                Some(FrameResult::Success { gas_left: ms.gas, output })
            }
        },
    }
}

/// `LOG0` to `LOG4`: records a slice of memory with `n` topics, charged per
/// topic and per byte.
pub fn exec_log(ms: &mut EVMState, env: &Env, sub: &mut SubState, n: usize) -> (r: Option<FrameResult>)
    requires
        old(ms).wf(),
        n <= 4,
        old(ms).s@.len() >= n + 2,
    ensures
        final(ms).wf(),
        final(ms).gas <= old(ms).gas,
        final(ms).pc == old(ms).pc,
        r matches Some(res) ==> (res is Failure),
        sub_extends(final(sub), old(sub)),
        log_post(*old(ms), *final(ms), *env, *old(sub), *final(sub), n as nat, r),
{
    proof { lemma_sub_unchanged(old(sub)); }
    let offset = pop(ms);
    let size = pop(ms);
    let mut topics: Vec<Word> = Vec::new();
    let mut j: usize = 0;
    while j < n
        invariant
            j <= n,
            n <= 4,
            ms.wf(),
            ms.s@.len() + j >= n,
            ms.s@.len() >= n - j,
            old(ms).s@.len() >= n + 2,
            ms.s@ == old(ms).s@.subrange(0, old(ms).s@.len() - 2 - j),
            topics@.len() == j,
            forall|x: int| 0 <= x < j ==> #[trigger] topics@[x] == old(ms).s@[old(ms).s@.len() - 3 - x],
            ms.gas == old(ms).gas,
            ms.pc == old(ms).pc,
            ms.i == old(ms).i,
            ms.m == old(ms).m,
            *sub == *old(sub),
        decreases n - j,
    {
        let t = pop(ms);
        proof {
            assert(ms.s@ =~= old(ms).s@.subrange(0, old(ms).s@.len() - 2 - (j + 1)));
            assert(t == old(ms).s@[old(ms).s@.len() - 3 - j]);
        }
        topics.push(t);
        j += 1;
    }
    match mem_range(ms, offset, size) {
        Err(e) => Some(FrameResult::Failure { reason: e }),
        Ok((start, len)) => {
            if !charge(ms, log_cost(n as u64, len as u64)) {
                return Some(FrameResult::Failure { reason: HaltReason::OutOfGas });
            }
            let data = mem_read(ms, start, len);
            proof {
                if size.value() == 0 {
                    assert(data@ =~= mem_slice(ms.m@, offset.value(), size.value()));
                }
            }
            sub.logs.push(LogEntry { address: env.address, topics, data });
            proof {
                assert(old(sub).logs@ == sub.logs@.subrange(0, old(sub).logs@.len() as int));
            }
            None
        },
    }
}

/// The address that a creation by `sender` at `nonce` yields.
pub uninterp spec fn created_address(sender: Address, nonce: u64) -> Address;

/// Relies on alloy-primitives' `Address::create`: the last 20 bytes of the
/// keccak-256 digest of the RLP list of sender and nonce, a function of the
/// two alone.
#[verifier::external_body]
pub(crate) fn create_address(sender: Address, nonce: u64) -> (r: Address)
    ensures
        r == created_address(sender, nonce),
{
    let w = ruint::aliases::U256::from_limbs([sender.lo, sender.mid, sender.hi as u64, 0]);
    let a = alloy_primitives::Address::from_word(alloy_primitives::B256::from(w.to_be_bytes::<32>()));
    let b = a.create(nonce).into_word();
    let l = ruint::aliases::U256::from_be_bytes(b.0).into_limbs();
    Address { hi: l[2] as u32, mid: l[1], lo: l[0] }
}

/// The gas a child frame is given out of `g`: what was asked, at most
/// sixty-three sixty-fourths of `g`.
pub open spec fn stipend_spec(g: int, requested: int) -> int {
    if requested <= g * 63 / 64 { requested } else { g * 63 / 64 }
}

/// The output a frame hands back: none after an exceptional halt.
pub open spec fn output_of(res: FrameResult) -> Seq<u8> {
    match res {
        FrameResult::Success { output, .. } => output@,
        FrameResult::Revert { output, .. } => output@,
        FrameResult::Failure { .. } => Seq::empty(),
    }
}

/// The context of a child frame run for `env`'s account at `target`.
pub open spec fn child_env(env: Env, target: Address, value: Word) -> Env {
    Env { address: target, caller: env.address, origin: env.origin, value, depth: (env.depth + 1) as usize }
}

/// How a caller stands after its child's run ended in `res` at `last`, having
/// kept `kept` gas back while the child ran: one pushed and the child's world
/// and substate taken on success; otherwise zero pushed, the world and the
/// rolled-back parts of the substate as before the call, and the access sets
/// as the child left them. Either way the unused gas comes back, the output
/// becomes the return buffer, and as much of it as fits goes into the return
/// range of memory.
pub open spec fn call_done(
    ms1: EVMState,
    w0: WorldState,
    w1: WorldState,
    s0: SubState,
    s1: SubState,
    last: (EVMState, WorldState, SubState),
    res: FrameResult,
    kept: int,
    out_off: nat,
    out_size: nat,
) -> bool {
    let out = output_of(res);
    let n = if out_size < out.len() { out_size } else { out.len() };
    &&& ms1.s@.last().value() == if res is Success { 1nat } else { 0nat }
    &&& ms1.gas == kept + res.gas_left_spec()
    &&& ms1.o@ == out
    &&& n > 0 ==> ms1.m@.subrange(out_off as int, (out_off + n) as int) == out.subrange(0, n as int)
    &&& res is Success ==> w1 == last.1 && s1 == last.2
    &&& !(res is Success) ==> {
        &&& w1.same(&w0)
        &&& s1.self_destruct_set@ == s0.self_destruct_set@
        &&& s1.logs@ == s0.logs@
        &&& s1.touched_accounts@ == s0.touched_accounts@
        &&& s1.refund == s0.refund
        &&& s1.accessed_accounts == last.2.accessed_accounts
        &&& s1.accessed_storage == last.2.accessed_storage
    }
}

/// The gas `CALL` has to pay before its child runs: memory for both
/// ranges, the access price and the value surcharges.
pub open spec fn call_costs(ms0: EVMState, w0: WorldState, s0: SubState) -> int {
    let st = ms0.s@;
    let n = st.len();
    let target = Address::from_word_spec(st[n - 2]);
    let value = st[n - 3];
    let in_off = st[n - 4].value();
    let in_size = st[n - 5].value();
    let out_off = st[n - 6].value();
    let out_size = st[n - 7].value();
    let c1 = range_cost(ms0.i as nat, in_off, in_size);
    let i1 = if in_size == 0 { ms0.i as nat } else { grown_words(ms0.i as nat, in_off + in_size) };
    let c2 = range_cost(i1, out_off, out_size);
    let access: nat = if s0.accessed_accounts@.contains(target) { WARM_ACCESS_COST as nat } else { COLD_ACCOUNT_ACCESS_COST as nat };
    let value_cost: nat = if value.value() == 0 {
        0
    } else if w0.accounts().contains_key(target) {
        CALL_VALUE_COST as nat
    } else {
        (CALL_VALUE_COST + NEW_ACCOUNT_COST) as nat
    };
    (c1 + c2 + access + value_cost) as int
}

/// The gas a `CALL` asks for its child, held to the `u64` range.
pub open spec fn call_requested(ms0: EVMState) -> int {
    let st = ms0.s@;
    if st[st.len() - 1].value() > u64::MAX { u64::MAX as int } else { st[st.len() - 1].value() as int }
}

/// The effect of `CALL` as a step states it, without the child's run. Past
/// the memory, access and value costs, either the call cannot start (depth
/// limit, short balance): zero is pushed, no gas goes to a child and the world is untouched; or the child is given the
/// stipend and hands back some of it unused (the caller keeps between
/// `g - k` and `g` gas, `k` being the stipend): one is pushed and the world has
/// its writes, or zero is pushed and the world is as before the call.
pub open spec fn call_post_basic(ms0: EVMState, ms1: EVMState, env: Env, w0: WorldState, w1: WorldState, s0: SubState, s1: SubState, r: Option<FrameResult>) -> bool {
    let st = ms0.s@;
    let n = st.len();
    let target = Address::from_word_spec(st[n - 2]);
    let value = st[n - 3];
    let in_off = st[n - 4].value();
    let in_size = st[n - 5].value();
    let out_off = st[n - 6].value();
    let out_size = st[n - 7].value();
    let c1 = range_cost(ms0.i as nat, in_off, in_size);
    let i1 = if in_size == 0 { ms0.i as nat } else { grown_words(ms0.i as nat, in_off + in_size) };
    let c2 = range_cost(i1, out_off, out_size);
    let access: nat = if s0.accessed_accounts@.contains(target) { WARM_ACCESS_COST as nat } else { COLD_ACCOUNT_ACCESS_COST as nat };
    let value_cost: nat = if value.value() == 0 {
        0
    } else if w0.accounts().contains_key(target) {
        CALL_VALUE_COST as nat
    } else {
        (CALL_VALUE_COST + NEW_ACCOUNT_COST) as nat
    };
    let ok = range_fits(in_off, in_size) && range_fits(out_off, out_size) && call_costs(ms0, w0, s0) <= ms0.gas;
    let g = ms0.gas - call_costs(ms0, w0, s0);
    let k = stipend_spec(g, call_requested(ms0));
    let pushed = ms1.s@.last().value();
    &&& ok <==> r.is_none()
    &&& r matches Some(res) ==> (res matches FrameResult::Failure { reason } && (reason == HaltReason::OutOfGas
        || reason == HaltReason::InvalidMemoryAccess))
    &&& r.is_none() ==> {
        &&& ms1.s@ == st.subrange(0, n - 7).push(ms1.s@.last())
        &&& pushed == 0 || pushed == 1
        &&& s1.accessed_accounts@.contains(target)
        &&& pushed == 0 ==> w1.same(&w0)
        &&& pushed == 1 ==> w1.extends(&w0)
        &&& env.depth >= MAX_CALL_DEPTH || w0.balance_of(env.address) < value.value() ==> pushed == 0 && ms1.gas == g
        &&& !(env.depth >= MAX_CALL_DEPTH || w0.balance_of(env.address) < value.value()) ==> g - k <= ms1.gas
            <= g
    }
}

/// The effect of `CALL` with its child's run: when the call can start, the
/// child is a run of the target's code on the stipend one level deeper, and
/// the caller stands as `call_done` says of that run.
pub open spec fn call_post(ms0: EVMState, ms1: EVMState, env: Env, w0: WorldState, w1: WorldState, s0: SubState, s1: SubState, r: Option<FrameResult>) -> bool {
    let st = ms0.s@;
    let n = st.len();
    let target = Address::from_word_spec(st[n - 2]);
    let value = st[n - 3];
    let g = ms0.gas - call_costs(ms0, w0, s0);
    let k = stipend_spec(g, call_requested(ms0));
    &&& call_post_basic(ms0, ms1, env, w0, w1, s0, s1, r)
    &&& r.is_none() && !(env.depth >= MAX_CALL_DEPTH || w0.balance_of(env.address) < value.value()) ==> exists|
        t: Seq<(EVMState, WorldState, SubState)>,
        last: (EVMState, WorldState, SubState),
        res: FrameResult,
    |
        #[trigger] is_run(w0.code_of(target), child_env(env, target, value), k, t, last, res) && call_done(
            ms1,
            w0,
            w1,
            s0,
            s1,
            last,
            res,
            g - k,
            st[n - 6].value(),
            st[n - 7].value(),
        )
}

/// The effect of `CREATE` as a step states it, without the init code's run.
/// Past the memory cost, either creation cannot start
/// (depth limit, short balance, nonce at its end): zero is pushed and the
/// world is untouched; or the creator's nonce goes up, the child runs the
/// init code on the stipend and hands back some of it unused, and the pushed
/// word is the derived address on success, zero otherwise, with the world as
/// before but for the nonce.
pub open spec fn create_post_basic(ms0: EVMState, ms1: EVMState, env: Env, w0: WorldState, w1: WorldState, r: Option<FrameResult>) -> bool {
    let st = ms0.s@;
    let n = st.len();
    let value = st[n - 1];
    let off = st[n - 2].value();
    let size = st[n - 3].value();
    let c = range_cost(ms0.i as nat, off, size);
    let ok = range_fits(off, size) && c <= ms0.gas;
    let g = ms0.gas - c;
    let nonce = w0.nonce_of(env.address);
    let early = env.depth >= MAX_CALL_DEPTH || w0.balance_of(env.address) < value.value() || nonce == u64::MAX;
    let a = created_address(env.address, nonce as u64);
    let pushed = ms1.s@.last();
    &&& ok <==> r.is_none()
    &&& r matches Some(res) ==> (res matches FrameResult::Failure { reason } && (reason == HaltReason::OutOfGas
        || reason == HaltReason::InvalidMemoryAccess))
    &&& r.is_none() ==> {
        &&& ms1.s@ == st.subrange(0, n - 3).push(pushed)
        &&& early ==> pushed.value() == 0 && w1.same(&w0) && ms1.gas == g
        &&& !early ==> {
            &&& pushed.value() == 0 || pushed == a.to_word_spec()
            &&& pushed == a.to_word_spec() && pushed.value() != 0 ==> w1.extends(&w0) && w1.code_map().contains_key(a)
            &&& pushed != a.to_word_spec() ==> w1.code_map() == w0.code_map() && w1.slots() == w0.slots() && w1.accounts() == w0.accounts().insert(
                env.address,
                AccountState { nonce: (nonce + 1) as u64, balance: w0.accounts()[env.address].balance },
            ) || (!w0.accounts().contains_key(env.address) && w1.accounts() == w0.accounts().insert(
                env.address,
                AccountState { nonce: 1, balance: Word { l0: 0, l1: 0, l2: 0, l3: 0 } },
            ))
            &&& g - g * 63 / 64 <= ms1.gas <= g
        }
    }
}

/// `SELFDESTRUCT`: hands the running account's balance to the beneficiary and
/// schedules the account for deletion at settlement; it stays in the world
/// state until then.
pub fn exec_selfdestruct(ms: &mut EVMState, env: &Env, world: &mut WorldState, sub: &mut SubState) -> (r: Option<FrameResult>)
    requires
        old(ms).wf(),
        old(ms).s@.len() >= 1,
    ensures
        step_post(old(ms), final(ms), old(world), final(world), old(sub), final(sub), &r),
        r.is_some(),
        r matches Some(FrameResult::Revert { .. }) ==> false,
        r matches Some(FrameResult::Failure { reason }) ==> reason == HaltReason::OutOfGas,
        selfdestruct_post(*old(ms), *final(ms), *env, *old(world), *final(world), *old(sub), *final(sub), r),
{
    let b = Address::from_word(pop(ms));
    let warm = sub.access_account(b);
    proof { lemma_unchanged(old(world), old(sub)); lemma_prefix_refl(sub.accessed_storage@); }
    let ghost s1 = *sub;
    let balance = world.balance(env.address);
    let new_account = !balance.is_zero() && !world.account_exists(b);
    let surcharge: u64 = if new_account { NEW_ACCOUNT_COST } else { 0 };
    let cold: u64 = if warm { 0 } else { COLD_ACCOUNT_ACCESS_COST };
    if !charge(ms, cold + surcharge) {
        return Some(FrameResult::Failure { reason: HaltReason::OutOfGas });
    }
    world.transfer(env.address, b, balance);
    let ghost s2 = *sub;
    sub.schedule_destruct(env.address);
    let ghost s3 = *sub;
    sub.touch(b);
    proof {
        assert(sub.self_destruct_set == s3.self_destruct_set);
        lemma_sub_step(&s1, &s3);
        lemma_sub_step(&s3, sub);
        lemma_chain(old(world), old(world), world, old(sub), &s3, sub);
    }
    Some(FrameResult::Success { gas_left: ms.gas, output: Vec::new() })
}

proof fn lemma_sub_step(s0: &SubState, s1: &SubState)
    requires
        s0.self_destruct_set@.is_prefix_of(s1.self_destruct_set@),
        s0.logs == s1.logs,
        s0.touched_accounts@.is_prefix_of(s1.touched_accounts@),
        s0.accessed_accounts == s1.accessed_accounts,
        s0.accessed_storage == s1.accessed_storage,
    ensures
        sub_extends(s1, s0),
{
    lemma_sub_unchanged(s0);
}

/// Copies as much of a child's output as fits into the caller's return range.
fn copy_output(ms: &mut EVMState, start: usize, len: usize, output: &Vec<u8>)
    requires
        old(ms).wf(),
        start + len <= old(ms).m@.len(),
    ensures
        final(ms).wf(),
        final(ms).gas == old(ms).gas,
        final(ms).pc == old(ms).pc,
        final(ms).s == old(ms).s,
        final(ms).i == old(ms).i,
        ({
            let n = if len < output@.len() { len as int } else { output@.len() as int };
            final(ms).m@.subrange(start as int, start + n) == output@.subrange(0, n)
        }),
{
    let n = if len < output.len() { len } else { output.len() };
    mem_write(ms, start, output, n);
}

/// `CALL`: runs the code of the account the second word names in a child
/// frame, with value and a share of the gas by the 63/64 rule. A call that
/// cannot start (depth limit, short balance) pushes zero and costs the child
/// nothing; a child that fails or reverts has its world writes undone, keeps
/// its access-set growth, and returns its unused gas.
#[verifier::rlimit(100)]
#[verifier::spinoff_prover]
pub fn exec_call(ms: &mut EVMState, env: &Env, world: &mut WorldState, sub: &mut SubState) -> (r: Option<FrameResult>)
    requires
        old(ms).wf(),
        old(ms).s@.len() >= 7,
        env.depth <= MAX_CALL_DEPTH,
    ensures
        step_post(old(ms), final(ms), old(world), final(world), old(sub), final(sub), &r),
        final(ms).pc == old(ms).pc,
        r.is_none() ==> final(ms).gas < old(ms).gas,
        call_post(*old(ms), *final(ms), *env, *old(world), *final(world), *old(sub), *final(sub), r),
    decreases MAX_CALL_DEPTH - env.depth, 0nat,
{
    proof { lemma_unchanged(old(world), old(sub)); }
    let gas_word = pop(ms);
    let target = Address::from_word(pop(ms));
    let value = pop(ms);
    let in_offset = pop(ms);
    let in_size = pop(ms);
    let out_offset = pop(ms);
    let out_size = pop(ms);
    assert(ms.s@ =~= old(ms).s@.subrange(0, old(ms).s@.len() - 7));
    if let Err(e) = mem_range(ms, in_offset, in_size) {
        return Some(FrameResult::Failure { reason: e });
    }
    let (out_start, out_len) = match mem_range(ms, out_offset, out_size) {
        Err(e) => return Some(FrameResult::Failure { reason: e }),
        Ok(rng) => rng,
    };
    let warm = sub.access_account(target);
    proof { lemma_prefix_refl(sub.accessed_storage@); }
    let ghost s1 = *sub;
    let transfers = !value.is_zero();
    let cost = access_cost(warm, COLD_ACCOUNT_ACCESS_COST) + call_value_cost(transfers, world.account_exists(target));
    if !charge(ms, cost) {
        return Some(FrameResult::Failure { reason: HaltReason::OutOfGas });
    }
    let requested = match gas_word.to_u64() {
        Some(g) => g,
        None => u64::MAX,
    };
    let stipend = call_stipend(ms.gas, requested);
    let ghost g = ms.gas;
    let balance = world.balance(env.address);
    if env.depth >= MAX_CALL_DEPTH || balance.lt(value) {
        ms.o = Vec::new();
        push(ms, Word::zero());
        return None;
    }
    ms.gas = ms.gas - stipend;
    let cp = world.checkpoint();
    let ghost w1 = *world;
    world.transfer(env.address, target, value);
    let scp = sub.checkpoint();
    sub.touch(target);
    let ghost s2 = *sub;
    let code = world.code(target);
    let child = Env { address: target, caller: env.address, origin: env.origin, value, depth: env.depth + 1 };
    let ghost w2 = *world;
    let res = run_frame(world, sub, &child, &code, stipend);
    let ghost rg = res;
    let ghost (t, last) = choose|t: Seq<(EVMState, WorldState, SubState)>, last: (EVMState, WorldState, SubState)|
        #[trigger] is_run(code@, child, stipend as int, t, last, rg) && t[0].1 == w2 && t[0].2 == s2 && (rg is Success
            ==> last.1 == *world && last.2 == *sub) && (!(rg is Success) ==> sub.accessed_accounts
            == last.2.accessed_accounts && sub.accessed_storage == last.2.accessed_storage);
    let gas_left = res.gas_left();
    ms.gas = ms.gas + gas_left;
    let ghost u = gas_left as nat;
    assert(ms.gas == g - stipend + u);
    let ok = match &res {
        FrameResult::Success { .. } => true,
        _ => false,
    };
    if !ok {
        world.revert_to(cp);
        sub.revert_to(scp);
        proof {
            assert(w1.trie@ == w2.trie@.subrange(0, cp.accounts as int));
            assert(w1.codes@ == w2.codes@.subrange(0, cp.codes as int));
            assert(w1.storage@ == w2.storage@.subrange(0, cp.slots as int));
            assert(s1.touched_accounts@ == s2.touched_accounts@.subrange(0, scp.touched as int));
            lemma_unchanged(&w1, &s1);
            lemma_prefix_trans(s1.accessed_accounts@, s2.accessed_accounts@, sub.accessed_accounts@);
            lemma_prefix_trans(s1.accessed_storage@, s2.accessed_storage@, sub.accessed_storage@);
        }
    } else {
        proof {
            lemma_sub_step(&s1, &s2);
            lemma_chain(&w1, &w2, world, &s1, &s2, sub);
        }
    }
    let output = match res {
        FrameResult::Success { output, .. } => output,
        FrameResult::Revert { output, .. } => output,
        FrameResult::Failure { .. } => Vec::new(),
    };
    copy_output(ms, out_start, out_len, &output);
    ms.o = output;
    push(ms, if ok { Word::from_u64(1) } else { Word::zero() });
    proof {
        lemma_chain(old(world), &w1, world, old(sub), &s1, sub);
        assert(u <= stipend && ms.gas == g - stipend + u);
        assert(code@ == w1.code_of(target));
        assert(child == child_env(*env, target, value));
        assert(is_run(w1.code_of(target), child_env(*env, target, value), stipend as int, t, last, rg));
        assert(ms.s@.last().value() == if rg is Success { 1nat } else { 0nat });
        assert(ms.gas == (g - stipend) + rg.gas_left_spec());
        assert(ms.o@ == output_of(rg));
        assert(rg is Success ==> *world == last.1 && *sub == last.2);
        assert(call_done(*ms, w1, *world, s1, *sub, last, rg, g - stipend, out_offset.value(), out_size.value()));
        assert(stipend as int == stipend_spec(g as int, requested as int));
        assert(g as int == old(ms).gas - call_costs(*old(ms), w1, *old(sub)));
        assert(requested as int == call_requested(*old(ms)));
        assert(exists|
            t2: Seq<(EVMState, WorldState, SubState)>,
            l2: (EVMState, WorldState, SubState),
            r2: FrameResult,
        |
            #[trigger] is_run(w1.code_of(target), child_env(*env, target, value), stipend_spec(old(ms).gas - call_costs(*old(ms), w1, *old(sub)), call_requested(*old(ms))), t2, l2, r2)
                && call_done(*ms, w1, *world, s1, *sub, l2, r2, (old(ms).gas - call_costs(*old(ms), w1, *old(sub))) - stipend_spec(old(ms).gas - call_costs(*old(ms), w1, *old(sub)), call_requested(*old(ms))), out_offset.value(), out_size.value()));
    }
    None
}

/// `CREATE`: runs the memory slice as init code in a child frame for a fresh
/// account at the derived address, credited with the value sent; on success
/// the child's output becomes the account's code and its address is pushed,
/// otherwise zero. The creator's nonce goes up whenever creation is tried.
#[verifier::rlimit(100)]
#[verifier::spinoff_prover]
pub fn exec_create(ms: &mut EVMState, env: &Env, world: &mut WorldState, sub: &mut SubState) -> (r: Option<FrameResult>)
    requires
        old(ms).wf(),
        old(ms).s@.len() >= 3,
        env.depth <= MAX_CALL_DEPTH,
    ensures
        step_post(old(ms), final(ms), old(world), final(world), old(sub), final(sub), &r),
        final(ms).pc == old(ms).pc,
        create_post(*old(ms), *final(ms), *env, *old(world), *final(world), *old(sub), *final(sub), r),
    decreases MAX_CALL_DEPTH - env.depth, 0nat,
{
    proof { lemma_unchanged(old(world), old(sub)); }
    let value = pop(ms);
    let offset = pop(ms);
    let size = pop(ms);
    assert(ms.s@ =~= old(ms).s@.subrange(0, old(ms).s@.len() - 3));
    let (start, len) = match mem_range(ms, offset, size) {
        Err(e) => return Some(FrameResult::Failure { reason: e }),
        Ok(rng) => rng,
    };
    let init = mem_read(ms, start, len);
    proof {
        if size.value() == 0 {
            assert(init@ =~= mem_slice(ms.m@, offset.value(), size.value()));
        }
    }
    let ghost g0 = ms.gas;
    let sender = match world.get_account(env.address) {
        Some(acc) => acc,
        None => AccountState { nonce: 0, balance: Word::zero() },
    };
    if env.depth >= MAX_CALL_DEPTH || sender.balance.lt(value) || sender.nonce == u64::MAX {
        ms.o = Vec::new();
        push(ms, Word::zero());
        return None;
    }
    let new_address = create_address(env.address, sender.nonce);
    world.set_account(env.address, AccountState { nonce: sender.nonce + 1, balance: sender.balance });
    let ghost w1 = *world;
    let stipend = call_stipend(ms.gas, ms.gas);
    ms.gas = ms.gas - stipend;
    sub.access_account(new_address);
    proof { lemma_prefix_refl(sub.accessed_storage@); }
    let ghost s1 = *sub;
    if !world.is_empty(new_address) {
        ms.o = Vec::new();
        push(ms, Word::zero());
        proof { lemma_chain(old(world), old(world), world, old(sub), old(sub), sub); }
        return None;
    }
    let cp = world.checkpoint();
    proof {
        crate::word::lemma_value_bound(value);
        vstd::arithmetic::div_mod::lemma_small_mod(value.value(), crate::word::word_modulus());
    }
    world.transfer(env.address, new_address, value);
    let scp = sub.checkpoint();
    sub.touch(new_address);
    let ghost s2 = *sub;
    let child = Env { address: new_address, caller: env.address, origin: env.origin, value, depth: env.depth + 1 };
    let ghost w2 = *world;
    let res = run_frame(world, sub, &child, &init, stipend);
    let ghost rg = res;
    let ghost (t, last) = choose|t: Seq<(EVMState, WorldState, SubState)>, last: (EVMState, WorldState, SubState)|
        #[trigger] is_run(init@, child, stipend as int, t, last, rg) && t[0].1 == w2 && t[0].2 == s2 && (rg is Success
            ==> last.1 == *world && last.2 == *sub) && (!(rg is Success) ==> sub.accessed_accounts
            == last.2.accessed_accounts && sub.accessed_storage == last.2.accessed_storage);
    let gas_left = res.gas_left();
    ms.gas = ms.gas + gas_left;
    match res {
        FrameResult::Success { output, .. } => {
            let ghost w3 = *world;
            world.set_code(new_address, output);
            ms.o = Vec::new();
            push(ms, new_address.to_word());
            proof {
                lemma_sub_step(&s1, &s2);
                lemma_chain(&w1, &w2, &w3, &s1, &s2, sub);
                lemma_chain(&w1, &w3, world, &s1, sub, sub);
            }
        },
        other => {
            world.revert_to(cp);
            sub.revert_to(scp);
            proof {
                assert(w1.trie@ == w2.trie@.subrange(0, cp.accounts as int));
                assert(w1.codes@ == w2.codes@.subrange(0, cp.codes as int));
                assert(w1.storage@ == w2.storage@.subrange(0, cp.slots as int));
                assert(s1.touched_accounts@ == s2.touched_accounts@.subrange(0, scp.touched as int));
                lemma_unchanged(&w1, &s1);
                lemma_prefix_trans(s1.accessed_accounts@, s2.accessed_accounts@, sub.accessed_accounts@);
                lemma_prefix_trans(s1.accessed_storage@, s2.accessed_storage@, sub.accessed_storage@);
            }
            ms.o = match other {
                FrameResult::Revert { output, .. } => output,
                _ => Vec::new(),
            };
            push(ms, Word::zero());
        },
    }
    proof {
        lemma_chain(old(world), &w1, world, old(sub), &s1, sub);
        assert(g0 as int == create_gas(*old(ms)));
        assert(stipend as int == create_gas(*old(ms)) * 63 / 64);
        assert(child == child_env(*env, new_address, value));
        assert(is_run(mem_slice(ms.m@, offset.value(), size.value()), child_env(*env, new_address, value), create_gas(*old(ms)) * 63 / 64, t, last, rg));
        if new_address != env.address && old(world).is_empty_spec(new_address) && old(world).accounts().contains_key(env.address) {
            assert(create_start(t[0].1, *old(world), env.address, new_address, value));
            assert(create_done(*ms, *env, *old(world), *world, *old(sub), *sub, new_address, last, rg, create_gas(*old(ms)) - create_gas(*old(ms)) * 63 / 64));
        }
    }
    None
}

/// Whether the stack can take an operation: it holds at least `delta` items,
/// and after the operation holds no more than the limit.
pub open spec fn stack_fits(op: Operation, len: nat) -> bool {
    len >= op.delta && len - op.delta + op.alpha <= STACK_LIMIT
}

/// What one instruction does once its stack check passed and its static cost
/// was paid (`ms0` is the state at that point): the contract of its handler.
pub open spec fn op_post(
    op: Operation,
    ms0: EVMState,
    ms1: EVMState,
    code: Seq<u8>,
    env: Env,
    w0: WorldState,
    w1: WorldState,
    s0: SubState,
    s1: SubState,
    r: Option<FrameResult>,
) -> bool {
    match op.name {
        OpCode::STOP => r matches Some(FrameResult::Success { gas_left, output }) && gas_left == ms0.gas
            && output@.len() == 0,
        OpCode::ADD | OpCode::MUL | OpCode::SUB | OpCode::DIV | OpCode::LT | OpCode::GT | OpCode::SLT
        | OpCode::EQ | OpCode::ISZERO => r.is_none() && arith_post(ms0, ms1, op.name),
        OpCode::ADDRESS | OpCode::ORIGIN | OpCode::CALLER | OpCode::CALLVALUE => r.is_none() && env_post(
            ms0,
            ms1,
            env,
            op.name,
        ),
        OpCode::BALANCE => balance_post(ms0, ms1, w0, s0, s1, r),
        OpCode::POP => r.is_none() && ms1.s@ == ms0.s@.drop_last() && ms1.gas == ms0.gas,
        OpCode::MLOAD => memory_post(ms0, ms1, false, r),
        OpCode::MSTORE => memory_post(ms0, ms1, true, r),
        OpCode::SLOAD => sload_post(ms0, ms1, env, w0, s0, s1, r),
        OpCode::SSTORE => sstore_post(ms0, ms1, env, w0, w1, s0, s1, r),
        OpCode::JUMP => jump_post(ms0, ms1, code, false, r),
        OpCode::JUMPI => jump_post(ms0, ms1, code, true, r),
        OpCode::JUMPDEST => r.is_none() && ms1.s@ == ms0.s@ && ms1.gas == ms0.gas,
        OpCode::PUSH1 | OpCode::PUSH | OpCode::PUSH32 => {
            &&& r.is_none()
            &&& ms1.gas == ms0.gas
            &&& ms1.s@ == ms0.s@.push(ms1.s@.last())
            &&& ms1.s@.last().value() == be_value(push_data(code, ms0.pc as nat, push_width(op.index)))
            &&& ms1.pc == if ms0.pc + push_width(op.index) + 1 <= code.len() {
                ms0.pc + push_width(op.index) + 1
            } else {
                code.len() as int
            }
        },
        OpCode::DUP1 | OpCode::DUP => r.is_none() && ms1.gas == ms0.gas && ms1.s@ == ms0.s@.push(
            ms0.s@[ms0.s@.len() - (op.index - 0x7f)],
        ),
        OpCode::LOG0 => log_post(ms0, ms1, env, s0, s1, 0, r),
        OpCode::LOG1 => log_post(ms0, ms1, env, s0, s1, 1, r),
        OpCode::LOG2 => log_post(ms0, ms1, env, s0, s1, 2, r),
        OpCode::LOG3 => log_post(ms0, ms1, env, s0, s1, 3, r),
        OpCode::LOG4 => log_post(ms0, ms1, env, s0, s1, 4, r),
        OpCode::CREATE => create_post_basic(ms0, ms1, env, w0, w1, r),
        OpCode::CALL => call_post_basic(ms0, ms1, env, w0, w1, s0, s1, r),
        OpCode::RETURN => return_post(ms0, ms1, false, r),
        OpCode::REVERT => return_post(ms0, ms1, true, r),
        OpCode::SELFDESTRUCT => selfdestruct_post(ms0, ms1, env, w0, w1, s0, s1, r),
    }
}

/// The instructions that set the program counter themselves.
pub open spec fn sets_pc(name: OpCode) -> bool {
    name == OpCode::JUMP || name == OpCode::JUMPI || name == OpCode::PUSH1 || name == OpCode::PUSH
        || name == OpCode::PUSH32
}

/// One cycle of the machine from `ms0`, `w0`, `s0` to `ms1`, `w1`, `s1` with
/// result `r`, as `step` performs it.
pub open spec fn step_spec(
    code: Seq<u8>,
    env: Env,
    ms0: EVMState,
    ms1: EVMState,
    w0: WorldState,
    w1: WorldState,
    s0: SubState,
    s1: SubState,
    r: Option<FrameResult>,
) -> bool {
    &&& step_post(&ms0, &ms1, &w0, &w1, &s0, &s1, &r)
    &&& r.is_none() ==> ms1.gas < ms0.gas
    &&& ms0.pc >= code.len() ==> (r matches Some(FrameResult::Success { gas_left, output }) && gas_left
                == ms0.gas && output@.len() == 0)
    &&& ms0.pc < code.len() ==> {
                                        let st = ms0.s@;
                match operation_of(code[ms0.pc as int]) {
                    None => r == Some(FrameResult::Failure { reason: HaltReason::InvalidOpcode }),
                    Some(op) => {
                        &&& (r == Some(FrameResult::Failure { reason: HaltReason::StackUnderflow })) <==> st.len() < op.delta
                        &&& st.len() >= op.delta ==> ((r == Some(FrameResult::Failure { reason: HaltReason::StackOverflow }))
                            <==> st.len() - op.delta + op.alpha > STACK_LIMIT)
                        &&& stack_fits(op, st.len()) && op.gas > ms0.gas ==> r == Some(
                            FrameResult::Failure { reason: HaltReason::OutOfGas },
                        )
                        &&& stack_fits(op, st.len()) && op.gas <= ms0.gas ==> op_post(
                            op,
                            charged(ms0, op.gas as nat),
                            ms1,
                            code,
                            env,
                            w0,
                            w1,
                            s0,
                            s1,
                            r,
                        )
                        &&& stack_fits(op, st.len()) && op.gas <= ms0.gas && r.is_none() && !sets_pc(op.name) ==> ms1.pc
                            == ms0.pc + 1
                        &&& stack_fits(op, st.len()) && op.gas <= ms0.gas && r.is_none() ==> ms1.s@.len() == st.len()
                            - op.delta + op.alpha
                    },
                }
            }
}

/// One cycle of the machine: fetch, decode, check the stack, charge the
/// static cost, execute. `None` means the frame runs on.
#[verifier::rlimit(100)]
#[verifier::spinoff_prover]
pub fn step(ms: &mut EVMState, code: &Vec<u8>, env: &Env, world: &mut WorldState, sub: &mut SubState) -> (r: Option<FrameResult>)
    requires
        old(ms).wf(),
        env.depth <= MAX_CALL_DEPTH,
    ensures
        step_spec(code@, *env, *old(ms), *final(ms), *old(world), *final(world), *old(sub), *final(sub), r),
    decreases MAX_CALL_DEPTH - env.depth, 1nat,
{
    proof { lemma_unchanged(old(world), old(sub)); }
    let len = code.len();
    if ms.pc >= len {
        return Some(FrameResult::Success { gas_left: ms.gas, output: Vec::new() });
    }
    let op = match lookup(code[ms.pc]) {
        None => return Some(FrameResult::Failure { reason: HaltReason::InvalidOpcode }),
        Some(op) => op,
    };
    proof { crate::operations::lemma_table_shape(code@[ms.pc as int]); }
    let depth = ms.s.len();
    if depth < op.delta as usize {
        return Some(FrameResult::Failure { reason: HaltReason::StackUnderflow });
    }
    if depth - op.delta as usize + op.alpha as usize > STACK_LIMIT {
        return Some(FrameResult::Failure { reason: HaltReason::StackOverflow });
    }
    if !charge(ms, op.gas as u64) {
        return Some(FrameResult::Failure { reason: HaltReason::OutOfGas });
    }
    assert(*ms == charged(*old(ms), op.gas as nat));
    let pc = ms.pc;
    let r = match op.name {
        OpCode::STOP => Some(FrameResult::Success { gas_left: ms.gas, output: Vec::new() }),
        OpCode::ADD | OpCode::MUL | OpCode::SUB | OpCode::DIV | OpCode::LT | OpCode::GT | OpCode::SLT
        | OpCode::EQ | OpCode::ISZERO => exec_arith(ms, op.name),
        OpCode::ADDRESS | OpCode::ORIGIN | OpCode::CALLER | OpCode::CALLVALUE => exec_env(ms, env, op.name),
        OpCode::BALANCE => exec_balance(ms, world, sub),
        OpCode::POP => {
            pop(ms);
            None
        },
        OpCode::MLOAD => exec_memory(ms, false),
        OpCode::MSTORE => exec_memory(ms, true),
        OpCode::SLOAD => exec_sload(ms, env, world, sub),
        OpCode::SSTORE => exec_sstore(ms, env, world, sub),
        OpCode::JUMP => exec_jump(ms, code, false),
        OpCode::JUMPI => exec_jump(ms, code, true),
        OpCode::JUMPDEST => None,
        OpCode::PUSH1 | OpCode::PUSH | OpCode::PUSH32 => {
            let n = (op.index - 0x5f) as usize;
            let w = read_push_data(code, pc, n);
            push(ms, w);
            ms.pc = if n < len - pc { pc + n } else { len };
            None
        },
        OpCode::DUP1 | OpCode::DUP => {
            let n = (op.index - 0x7f) as usize;
            let w = ms.s[depth - n];
            push(ms, w);
            None
        },
        OpCode::LOG0 => exec_log(ms, env, sub, 0),
        OpCode::LOG1 => exec_log(ms, env, sub, 1),
        OpCode::LOG2 => exec_log(ms, env, sub, 2),
        OpCode::LOG3 => exec_log(ms, env, sub, 3),
        OpCode::LOG4 => exec_log(ms, env, sub, 4),
        OpCode::CREATE => exec_create(ms, env, world, sub),
        OpCode::CALL => exec_call(ms, env, world, sub),
        OpCode::RETURN => exec_return(ms, false),
        OpCode::REVERT => exec_return(ms, true),
        OpCode::SELFDESTRUCT => exec_selfdestruct(ms, env, world, sub),
    };
    if r.is_none() && op.name != OpCode::JUMP && op.name != OpCode::JUMPI {
        ms.pc = if ms.pc < len { ms.pc + 1 } else { len };
    }
    r
}

/// A frame's start: program counter zero, the given gas, empty stack and memory.
pub open spec fn frame_start(ms: EVMState, gas: int) -> bool {
    ms.pc == 0 && ms.gas == gas && ms.s@.len() == 0 && ms.m@.len() == 0 && ms.i == 0
}

/// Each state of the trace is reached from the one before by a step that runs on.
pub open spec fn run_links(code: Seq<u8>, env: Env, t: Seq<(EVMState, WorldState, SubState)>) -> bool {
    forall|j: int|
        0 <= j < t.len() - 1 ==> #[trigger] step_spec(
            code,
            env,
            t[j].0,
            t[j + 1].0,
            t[j].1,
            t[j + 1].1,
            t[j].2,
            t[j + 1].2,
            None,
        )
}

/// `t` is a run of a frame on `code` with `gas`: it starts fresh, each state
/// steps to the next, and the step from its last state ends in `last` with
/// the frame's result `res`.
pub open spec fn is_run(
    code: Seq<u8>,
    env: Env,
    gas: int,
    t: Seq<(EVMState, WorldState, SubState)>,
    last: (EVMState, WorldState, SubState),
    res: FrameResult,
) -> bool {
    &&& t.len() >= 1
    &&& frame_start(t[0].0, gas)
    &&& run_links(code, env, t)
    &&& step_spec(code, env, t.last().0, last.0, t.last().1, last.1, t.last().2, last.2, Some(res))
}

/// Runs one frame to its halt: the result is that of a run of `step` from a
/// fresh machine state. A frame that fails or reverts leaves the world state
/// as it found it and rolls back its logs, self-destructs, touches and refund,
/// but not what it added to the access sets; a failure leaves no gas. A frame
/// that succeeds leaves the world and substate where its last step left them.
pub fn run_frame(world: &mut WorldState, sub: &mut SubState, env: &Env, code: &Vec<u8>, gas: u64) -> (r: FrameResult)
    requires
        env.depth <= MAX_CALL_DEPTH,
    ensures
        exists|t: Seq<(EVMState, WorldState, SubState)>, last: (EVMState, WorldState, SubState)|
            #[trigger] is_run(code@, *env, gas as int, t, last, r) && t[0].1 == *old(world) && t[0].2 == *old(sub) && (r is Success
                ==> last.1 == *final(world) && last.2 == *final(sub)) && (!(r is Success)
                ==> final(sub).accessed_accounts == last.2.accessed_accounts && final(sub).accessed_storage
                == last.2.accessed_storage),
        r.gas_left_spec() <= gas,
        r is Success ==> final(world).extends(old(world)) && sub_extends(final(sub), old(sub)),
        !(r is Success) ==> final(world).same(old(world)) && sub_rolled_back(final(sub), old(sub)),
        code@.len() == 0 ==> (r matches FrameResult::Success { gas_left, output } && gas_left == gas
            && output@.len() == 0),
        code@.len() > 0 ==> match operation_of(code@[0]) {
            None => r == (FrameResult::Failure { reason: HaltReason::InvalidOpcode }),
            Some(op) => {
                &&& op.delta > 0 ==> r == (FrameResult::Failure { reason: HaltReason::StackUnderflow })
                &&& op.delta == 0 && op.gas > gas ==> r == (FrameResult::Failure { reason: HaltReason::OutOfGas })
            },
        },
    decreases MAX_CALL_DEPTH - env.depth, 2nat,
{
    let cp = world.checkpoint();
    let scp = sub.checkpoint();
    let mut ms = EVMState::new();
    ms.gas = gas;
    proof {
        lemma_unchanged(old(world), old(sub));
        if code@.len() > 0 {
            crate::operations::lemma_table_shape(code@[0]);
        }
    }
    let ghost mut trace: Seq<(EVMState, WorldState, SubState)> = seq![(ms, *world, *sub)];
    assert(trace[0].1 == *old(world) && trace[0].2 == *old(sub));
    let ghost w0 = *world;
    let ghost s0 = *sub;
    match step(&mut ms, code, env, world, sub) {
        None => {
            proof {
                lemma_chain(old(world), &w0, world, old(sub), &s0, sub);
                let t2 = trace.push((ms, *world, *sub));
                assert(t2[0] == trace[0]);
                assert(t2[1] == (ms, *world, *sub));
                assert(step_spec(code@, *env, t2[0].0, t2[1].0, t2[0].1, t2[1].1, t2[0].2, t2[1].2, None));
                trace = t2;
            }
        },
        Some(res) => {
            proof {
                lemma_chain(old(world), &w0, world, old(sub), &s0, sub);
                assert(is_run(code@, *env, gas as int, trace, (ms, *world, *sub), res));
            }
            match res {
                FrameResult::Success { .. } => {},
                _ => {
                    world.revert_to(cp);
                    sub.revert_to(scp);
                },
            }
            return res;
        },
    }
    loop
        invariant
            ms.wf(),
            ms.gas <= gas,
            env.depth <= MAX_CALL_DEPTH,
            world.extends(old(world)),
            sub_extends(sub, old(sub)),
            cp.accounts == old(world).trie@.len(),
            cp.codes == old(world).codes@.len(),
            cp.slots == old(world).storage@.len(),
            scp.self_destructs == old(sub).self_destruct_set@.len(),
            scp.logs == old(sub).logs@.len(),
            scp.touched == old(sub).touched_accounts@.len(),
            scp.refund == old(sub).refund,
            code@.len() > 0,
            operation_of(code@[0]) matches Some(op) && op.delta == 0 && op.gas <= gas,
            trace.len() >= 1,
            frame_start(trace[0].0, gas as int),
            run_links(code@, *env, trace),
            trace.last() == (ms, *world, *sub),
            trace[0].1 == *old(world),
            trace[0].2 == *old(sub),
        decreases ms.gas,
    {
        let ghost w0 = *world;
        let ghost s0 = *sub;
        let ghost m0 = ms;
        match step(&mut ms, code, env, world, sub) {
            None => {
                proof {
                    lemma_chain(old(world), &w0, world, old(sub), &s0, sub);
                    let t2 = trace.push((ms, *world, *sub));
                    assert forall|j: int| 0 <= j < t2.len() - 1 implies #[trigger] step_spec(
                        code@,
                        *env,
                        t2[j].0,
                        t2[j + 1].0,
                        t2[j].1,
                        t2[j + 1].1,
                        t2[j].2,
                        t2[j + 1].2,
                        None,
                    ) by {
                        if j < trace.len() - 1 {
                            assert(t2[j] == trace[j]);
                            assert(t2[j + 1] == trace[j + 1]);
                        } else {
                            assert(t2[j] == trace.last());
                            assert(t2[j + 1] == (ms, *world, *sub));
                        }
                    }
                    assert(t2[0] == trace[0]);
                    trace = t2;
                }
            },
            Some(res) => {
                proof {
                    lemma_chain(old(world), &w0, world, old(sub), &s0, sub);
                    assert(is_run(code@, *env, gas as int, trace, (ms, *world, *sub), res));
                }
                match res {
                    FrameResult::Success { .. } => {},
                    _ => {
                        world.revert_to(cp);
                        sub.revert_to(scp);
                    },
                }
                return res;
            },
        }
    }
}

} // verus!
