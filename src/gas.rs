use vstd::prelude::*;

verus! {

/// The most memory a frame may address, in 32-byte words.
pub const MAX_MEMORY_WORDS: u64 = 0x200_0000;

pub const WARM_ACCESS_COST: u64 = 100;

pub const COLD_ACCOUNT_ACCESS_COST: u64 = 2600;

pub const COLD_SLOAD_COST: u64 = 2100;

pub const SSTORE_SET_COST: u64 = 20000;

pub const SSTORE_RESET_COST: u64 = 2900;

pub const SSTORE_CLEAR_REFUND: u64 = 4800;

pub const LOG_TOPIC_COST: u64 = 375;

pub const LOG_BYTE_COST: u64 = 8;

pub const CALL_VALUE_COST: u64 = 9000;

pub const NEW_ACCOUNT_COST: u64 = 25000;

/// The gas that a memory of `words` words has cost in all.
pub open spec fn memory_cost_spec(words: nat) -> nat {
    3 * words + words * words / 512
}

/// The gas charged for a memory of `words` words.
pub fn memory_cost(words: u64) -> (r: u64)
    requires
        words <= MAX_MEMORY_WORDS,
    ensures
        r as nat == memory_cost_spec(words as nat),
{
    assert(words * words <= 0x200_0000 * 0x200_0000) by (nonlinear_arith)
        requires words <= 0x200_0000;
    3 * words + words * words / 512
}

/// The cost grows with the number of words.
pub proof fn lemma_memory_cost_monotonic(a: nat, b: nat)
    requires
        a <= b,
    ensures
        memory_cost_spec(a) <= memory_cost_spec(b),
{
    assert(a * a <= b * b) by (nonlinear_arith)
        requires a <= b;
    vstd::arithmetic::div_mod::lemma_div_is_ordered((a * a) as int, (b * b) as int, 512);
}

/// The surcharge for growing memory from `old_words` to `new_words` words: the
/// difference of the two totals, or nothing where memory does not grow.
pub fn memory_expansion_cost(old_words: u64, new_words: u64) -> (r: u64)
    requires
        old_words <= MAX_MEMORY_WORDS,
        new_words <= MAX_MEMORY_WORDS,
    ensures
        new_words <= old_words ==> r == 0,
        new_words > old_words ==> r as int == memory_cost_spec(new_words as nat) - memory_cost_spec(
            old_words as nat,
        ),
{
    if new_words <= old_words {
        0
    } else {
        proof {
            lemma_memory_cost_monotonic(old_words as nat, new_words as nat);
        }
        memory_cost(new_words) - memory_cost(old_words)
    }
}

/// The gas a child frame receives: what the caller asked for, but at most
/// sixty-three sixty-fourths of what the caller has, rounded down.
pub fn call_stipend(available: u64, requested: u64) -> (r: u64)
    ensures
        r as int == if requested as int <= available as int * 63 / 64 {
            requested as int
        } else {
            available as int * 63 / 64
        },
{
    let cap: u128 = (available as u128) * 63 / 64;
    if (requested as u128) <= cap {
        requested
    } else {
        cap as u64
    }
}

/// The cost of an access to an account or a storage slot: cold on the first
/// touch in the transaction, warm after it.
pub fn access_cost(warm: bool, cold_cost: u64) -> (r: u64)
    ensures
        r == if warm { WARM_ACCESS_COST } else { cold_cost },
{
    if warm {
        WARM_ACCESS_COST
    } else {
        cold_cost
    }
}

/// The tiered price of a storage write, after any cold surcharge: writing the
/// value already there is cheap, setting a zero slot is dear, changing a
/// nonzero one costs in between.
pub open spec fn sstore_cost_spec(current_is_zero: bool, unchanged: bool) -> nat {
    if unchanged {
        WARM_ACCESS_COST as nat
    } else if current_is_zero {
        SSTORE_SET_COST as nat
    } else {
        SSTORE_RESET_COST as nat
    }
}

pub fn sstore_cost(current_is_zero: bool, unchanged: bool, warm: bool) -> (r: u64)
    ensures
        r as nat == sstore_cost_spec(current_is_zero, unchanged) + if warm {
            0
        } else {
            COLD_SLOAD_COST as nat
        },
{
    let base: u64 = if unchanged {
        WARM_ACCESS_COST
    } else if current_is_zero {
        SSTORE_SET_COST
    } else {
        SSTORE_RESET_COST
    };
    if warm {
        base
    } else {
        base + COLD_SLOAD_COST
    }
}

/// The surcharge of a log beyond its static cost: per topic and per data byte.
pub fn log_cost(topics: u64, size: u64) -> (r: u64)
    requires
        topics <= 4,
        size <= MAX_MEMORY_WORDS * 32,
    ensures
        r as int == LOG_TOPIC_COST * topics + LOG_BYTE_COST * size,
{
    LOG_TOPIC_COST * topics + LOG_BYTE_COST * size
}

/// The surcharge of a call beyond its access cost: one for moving value, and
/// one more for moving it to an account that does not exist yet.
pub fn call_value_cost(transfers_value: bool, target_exists: bool) -> (r: u64)
    ensures
        r as int == if !transfers_value {
            0
        } else if target_exists {
            CALL_VALUE_COST as int
        } else {
            CALL_VALUE_COST + NEW_ACCOUNT_COST
        },
{
    if !transfers_value {
        0
    } else if target_exists {
        CALL_VALUE_COST
    } else {
        CALL_VALUE_COST + NEW_ACCOUNT_COST
    }
}

} // verus!
