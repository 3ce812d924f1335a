use crate::gas::{memory_cost_spec, memory_expansion_cost, MAX_MEMORY_WORDS};
use crate::state::{EVMState, STACK_LIMIT};
use crate::word::{be_value, Word};
use vstd::prelude::*;

verus! {

/// Why a frame stopped exceptionally.
#[derive(Clone, Copy, PartialEq, Eq, Structural, Debug)]
pub enum HaltReason {
    StackUnderflow,
    StackOverflow,
    InvalidOpcode,
    InvalidJump,
    OutOfGas,
    InvalidMemoryAccess,
    StaticCallViolation,
}

/// The bytes of push data that follow an opcode byte.
pub open spec fn push_width(b: u8) -> nat {
    if 0x60 <= b <= 0x7f {
        (b - 0x5f) as nat
    } else {
        0
    }
}

/// Whether `dest` is reached by walking the code instruction by instruction
/// from position `p`, stepping over push data.
pub open spec fn on_boundary(code: Seq<u8>, p: nat, dest: nat) -> bool
    decreases dest - p,
{
    if p >= dest {
        p == dest
    } else if p >= code.len() {
        false
    } else {
        let q = p + 1 + push_width(code[p as int]);
        if q >= dest {
            q == dest
        } else {
            on_boundary(code, q, dest)
        }
    }
}

/// A valid jump target: a `JUMPDEST` byte that is an instruction, not push data.
pub open spec fn is_jumpdest(code: Seq<u8>, dest: nat) -> bool {
    dest < code.len() && code[dest as int] == 0x5b && on_boundary(code, 0, dest)
}

/// Decides `is_jumpdest`.
pub fn valid_jumpdest(code: &Vec<u8>, dest: usize) -> (r: bool)
    ensures
        r == is_jumpdest(code@, dest as nat),
{
    if dest >= code.len() || code[dest] != 0x5b {
        return false;
    }
    let mut p: usize = 0;
    while p < dest
        invariant
            p <= dest,
            dest < code@.len(),
            on_boundary(code@, p as nat, dest as nat) == on_boundary(code@, 0, dest as nat),
        decreases dest - p,
    {
        let b = code[p];
        let step: usize = if 0x60 <= b && b <= 0x7f {
            (b - 0x5f) as usize + 1
        } else {
            1
        };
        if step > dest - p {
            return false;
        }
        p = p + step;
    }
    true
}

/// Takes `cost` from the gas left, if there is that much; else takes nothing
/// and says so.
pub fn charge(ms: &mut EVMState, cost: u64) -> (r: bool)
    ensures
        r == (cost <= old(ms).gas),
        r ==> final(ms).gas == old(ms).gas - cost,
        !r ==> final(ms).gas == old(ms).gas,
        final(ms).pc == old(ms).pc,
        final(ms).m == old(ms).m,
        final(ms).i == old(ms).i,
        final(ms).s == old(ms).s,
        final(ms).o == old(ms).o,
{
    if cost <= ms.gas {
        ms.gas = ms.gas - cost;
        true
    } else {
        false
    }
}

/// Takes the top item off the stack.
pub fn pop(ms: &mut EVMState) -> (r: Word)
    requires
        old(ms).s@.len() > 0,
    ensures
        r == old(ms).s@.last(),
        final(ms).s@ == old(ms).s@.drop_last(),
        final(ms).gas == old(ms).gas,
        final(ms).pc == old(ms).pc,
        final(ms).m == old(ms).m,
        final(ms).i == old(ms).i,
        final(ms).o == old(ms).o,
{
    ms.s.pop().unwrap()
}

/// Puts an item on top of the stack.
pub fn push(ms: &mut EVMState, w: Word)
    requires
        old(ms).s@.len() < STACK_LIMIT,
    ensures
        final(ms).s@ == old(ms).s@.push(w),
        final(ms).gas == old(ms).gas,
        final(ms).pc == old(ms).pc,
        final(ms).m == old(ms).m,
        final(ms).i == old(ms).i,
        final(ms).o == old(ms).o,
{
    ms.s.push(w);
}

/// The words that cover `end` bytes.
pub open spec fn words_for(end: nat) -> nat {
    (end + 31) / 32
}

/// The surcharge for growing a memory of `words` words to cover `end` bytes.
pub open spec fn expansion_cost_spec(words: nat, end: nat) -> nat {
    if words_for(end) > words {
        (memory_cost_spec(words_for(end)) - memory_cost_spec(words)) as nat
    } else {
        0
    }
}

/// The word count of a memory of `words` words grown to cover `end` bytes.
pub open spec fn grown_words(words: nat, end: nat) -> nat {
    if words_for(end) > words {
        words_for(end)
    } else {
        words
    }
}

/// Makes the memory cover `size` bytes from `offset`, charging for the
/// growth. A zero size touches nothing and costs nothing. Returns the range
/// as plain indices.
pub fn mem_range(ms: &mut EVMState, offset: Word, size: Word) -> (r: Result<(usize, usize), HaltReason>)
    requires
        old(ms).wf(),
    ensures
        final(ms).wf(),
        final(ms).pc == old(ms).pc,
        final(ms).s == old(ms).s,
        final(ms).o == old(ms).o,
        final(ms).gas <= old(ms).gas,
        final(ms).m@.len() >= old(ms).m@.len(),
        final(ms).m@.subrange(0, old(ms).m@.len() as int) == old(ms).m@,
        forall|j: int| old(ms).m@.len() <= j < final(ms).m@.len() ==> final(ms).m@[j] == 0,
        size.value() == 0 ==> r == Ok::<(usize, usize), HaltReason>((0usize, 0usize)) && final(ms).gas
            == old(ms).gas && final(ms).m == old(ms).m && final(ms).i == old(ms).i,
        r matches Ok((start, len)) ==> start + len <= final(ms).m@.len() && len as nat == size.value()
            && (len > 0 ==> start as nat == offset.value()),
        r matches Err(e) ==> e == HaltReason::OutOfGas || e == HaltReason::InvalidMemoryAccess,
        size.value() > 0 && offset.value() + size.value() > MAX_MEMORY_WORDS * 32 ==> r
            == Err::<(usize, usize), HaltReason>(HaltReason::InvalidMemoryAccess),
        size.value() > 0 && offset.value() + size.value() <= MAX_MEMORY_WORDS * 32 ==> {
            let cost = expansion_cost_spec(old(ms).i as nat, offset.value() + size.value());
            &&& cost <= old(ms).gas ==> r is Ok && final(ms).gas == old(ms).gas - cost && final(ms).i
                == grown_words(old(ms).i as nat, offset.value() + size.value())
            &&& cost > old(ms).gas ==> r == Err::<(usize, usize), HaltReason>(HaltReason::OutOfGas)
        },
{
    if size.is_zero() {
        return Ok((0, 0));
    }
    let o = offset.to_u64();
    let n = size.to_u64();
    if o.is_none() || n.is_none() {
        return Err(HaltReason::InvalidMemoryAccess);
    }
    let o = o.unwrap();
    let n = n.unwrap();
    if o > MAX_MEMORY_WORDS * 32 || n > MAX_MEMORY_WORDS * 32 - o {
        return Err(HaltReason::InvalidMemoryAccess);
    }
    let end = o + n;
    let new_words = (end + 31) / 32;
    let cost = memory_expansion_cost(ms.i, new_words);
    if !charge(ms, cost) {
        return Err(HaltReason::OutOfGas);
    }
    if new_words > ms.i {
        let target = (new_words * 32) as usize;
        let ghost before = ms.m@;
        let ghost (g0, pc0, s0, o0, i0) = (ms.gas, ms.pc, ms.s, ms.o, ms.i);
        while ms.m.len() < target
            invariant
                target == 32 * new_words,
                before.len() == 32 * i0,
                i0 < new_words,
                ms.gas == g0,
                ms.pc == pc0,
                ms.s == s0,
                ms.o == o0,
                ms.i == i0,
                ms.m@.len() <= target,
                ms.m@.len() >= before.len(),
                ms.m@.subrange(0, before.len() as int) == before,
                forall|j: int| before.len() <= j < ms.m@.len() ==> ms.m@[j] == 0,
            decreases target - ms.m@.len(),
        {
            ms.m.push(0u8);
        }
        ms.i = new_words;
    } else {
        assert(ms.m@.subrange(0, ms.m@.len() as int) == ms.m@);
    }
    Ok((o as usize, n as usize))
}

/// A copy of `len` bytes of memory from `start`.
pub fn mem_read(ms: &EVMState, start: usize, len: usize) -> (r: Vec<u8>)
    requires
        ms.wf(),
        start + len <= ms.m@.len(),
    ensures
        r@ == ms.m@.subrange(start as int, start + len),
{
    let mut out: Vec<u8> = Vec::new();
    let mut j: usize = 0;
    while j < len
        invariant
            j <= len,
            start + len <= ms.m@.len(),
            ms.wf(),
            out@ == ms.m@.subrange(start as int, start + j),
        decreases len - j,
    {
        out.push(ms.m[start + j]);
        j += 1;
        assert(out@ =~= ms.m@.subrange(start as int, start + j));
    }
    out
}

/// Writes bytes into memory from `start` on.
pub fn mem_write(ms: &mut EVMState, start: usize, data: &Vec<u8>, len: usize)
    requires
        old(ms).wf(),
        len <= data@.len(),
        start + len <= old(ms).m@.len(),
    ensures
        final(ms).m@.len() == old(ms).m@.len(),
        final(ms).m@.subrange(start as int, start + len) == data@.subrange(0, len as int),
        forall|j: int| 0 <= j < final(ms).m@.len() && !(start <= j < start + len) ==> final(ms).m@[j]
            == old(ms).m@[j],
        final(ms).gas == old(ms).gas,
        final(ms).pc == old(ms).pc,
        final(ms).i == old(ms).i,
        final(ms).s == old(ms).s,
        final(ms).o == old(ms).o,
{
    let mut j: usize = 0;
    while j < len
        invariant
            j <= len,
            len <= data@.len(),
            start + len <= ms.m@.len(),
            ms.m@.len() == old(ms).m@.len(),
            old(ms).wf(),
            forall|x: int| start <= x < start + j ==> ms.m@[x] == data@[x - start],
            forall|x: int| 0 <= x < ms.m@.len() && !(start <= x < start + j) ==> ms.m@[x] == old(ms).m@[x],
            ms.gas == old(ms).gas,
            ms.pc == old(ms).pc,
            ms.i == old(ms).i,
            ms.s == old(ms).s,
            ms.o == old(ms).o,
        decreases len - j,
    {
        ms.m.set(start + j, data[j]);
        j += 1;
    }
    assert(ms.m@.subrange(start as int, start + len) =~= data@.subrange(0, len as int));
}

/// The value of the push data after position `pc`: `n` bytes, those past the
/// end of the code read as zero.
pub open spec fn push_data(code: Seq<u8>, pc: nat, n: nat) -> Seq<u8> {
    Seq::new(n, |j: int| if pc + 1 + j < code.len() { code[pc + 1 + j] } else { 0u8 })
}

/// Reads the push data that follows position `pc`.
pub fn read_push_data(code: &Vec<u8>, pc: usize, n: usize) -> (r: Word)
    requires
        n <= 32,
    ensures
        r.value() == be_value(push_data(code@, pc as nat, n as nat)),
{
    let mut bytes: Vec<u8> = Vec::new();
    let mut j: usize = 0;
    while j < n
        invariant
            j <= n,
            n <= 32,
            bytes@ == push_data(code@, pc as nat, n as nat).take(j as int),
        decreases n - j,
    {
        let b: u8 = if pc < code.len() && j < code.len() - pc - 1 {
            code[pc + 1 + j]
        } else {
            0
        };
        bytes.push(b);
        j += 1;
        assert(bytes@ =~= push_data(code@, pc as nat, n as nat).take(j as int));
    }
    assert(bytes@ =~= push_data(code@, pc as nat, n as nat));
    Word::from_be_slice(bytes.as_slice())
}

} // verus!
