use evm_core::interpreter::{run_frame, step, Env, FrameResult};
use evm_core::machine::HaltReason;
use evm_core::state::{settle, AccountState, Address, EVMState, SubState, WorldState};
use evm_core::word::Word;

fn caller() -> Address {
    Address::new(0, 0, 0x1)
}

fn env_at(a: Address) -> Env {
    Env { address: a, caller: caller(), origin: caller(), value: Word::zero(), depth: 0 }
}

fn max_word() -> Word {
    Word { l0: u64::MAX, l1: u64::MAX, l2: u64::MAX, l3: u64::MAX }
}

/// Steps a fresh machine over `code` until it halts.
fn run_steps(code: &[u8], gas: u64) -> (EVMState, FrameResult, WorldState, SubState) {
    let code = code.to_vec();
    let mut world = WorldState::new();
    let mut sub = SubState::new();
    let mut ms = EVMState::new();
    ms.gas = gas;
    let env = env_at(Address::new(0, 0, 0xaa));
    loop {
        if let Some(r) = step(&mut ms, &code, &env, &mut world, &mut sub) {
            return (ms, r, world, sub);
        }
    }
}

fn stack_after(code: &[u8]) -> Vec<Word> {
    let (ms, r, _, _) = run_steps(code, 1_000_000);
    assert!(matches!(r, FrameResult::Success { .. }));
    ms.s
}

#[test]
fn add_one_and_one() {
    assert_eq!(stack_after(&[0x60, 0x01, 0x60, 0x01, 0x01]), vec![Word::from_u64(2)]);
}

#[test]
fn add_wraps_at_max() {
    let mut code = vec![0x7f];
    code.extend_from_slice(&[0xff; 32]);
    code.extend_from_slice(&[0x60, 0x01, 0x01]);
    assert_eq!(stack_after(&code), vec![Word::zero()]);
}

#[test]
fn sub_wraps_below_zero() {
    // top is 0, below it 1: 0 - 1
    assert_eq!(stack_after(&[0x60, 0x01, 0x60, 0x00, 0x03]), vec![max_word()]);
}

#[test]
fn mul_wraps() {
    let mut code = vec![0x7f];
    code.extend_from_slice(&[0xff; 32]);
    code.extend_from_slice(&[0x60, 0x02, 0x02]);
    let expected = Word { l0: u64::MAX - 1, l1: u64::MAX, l2: u64::MAX, l3: u64::MAX };
    assert_eq!(stack_after(&code), vec![expected]);
}

#[test]
fn div_rounds_down_and_by_zero_gives_zero() {
    assert_eq!(stack_after(&[0x60, 0x02, 0x60, 0x07, 0x04]), vec![Word::from_u64(3)]);
    assert_eq!(stack_after(&[0x60, 0x00, 0x60, 0x07, 0x04]), vec![Word::zero()]);
}

#[test]
fn comparisons() {
    // LT: 1 < 2
    assert_eq!(stack_after(&[0x60, 0x02, 0x60, 0x01, 0x10]), vec![Word::from_u64(1)]);
    // GT: 1 > 2
    assert_eq!(stack_after(&[0x60, 0x02, 0x60, 0x01, 0x11]), vec![Word::zero()]);
    // EQ
    assert_eq!(stack_after(&[0x60, 0x05, 0x60, 0x05, 0x14]), vec![Word::from_u64(1)]);
    // ISZERO
    assert_eq!(stack_after(&[0x60, 0x00, 0x15]), vec![Word::from_u64(1)]);
    // SLT: -1 < 1 signed
    let mut code = vec![0x60, 0x01, 0x7f];
    code.extend_from_slice(&[0xff; 32]);
    code.push(0x12);
    assert_eq!(stack_after(&code), vec![Word::from_u64(1)]);
}

#[test]
fn push_past_end_of_code_pads_with_zero() {
    // PUSH2 with one byte left: 0x01 then a missing byte read as zero
    assert_eq!(stack_after(&[0x61, 0x01]), vec![Word::from_u64(0x100)]);
}

#[test]
fn dup_copies_deeper_items() {
    assert_eq!(
        stack_after(&[0x60, 0x07, 0x60, 0x08, 0x81]),
        vec![Word::from_u64(7), Word::from_u64(8), Word::from_u64(7)]
    );
}

#[test]
fn memory_store_and_load() {
    // MSTORE 0x2a at 0, MLOAD 0
    let (ms, r, _, _) = run_steps(&[0x60, 0x2a, 0x60, 0x00, 0x52, 0x60, 0x00, 0x51], 1_000_000);
    assert!(matches!(r, FrameResult::Success { .. }));
    assert_eq!(ms.s, vec![Word::from_u64(0x2a)]);
    assert_eq!(ms.m.len(), 32);
    assert_eq!(ms.i, 1);
    // 3 + 3 + (3 + 3 memory) + 3 + 3
    assert_eq!(ms.gas, 1_000_000 - 18);
}

#[test]
fn stack_overflow_on_push_beyond_limit() {
    let mut code = Vec::new();
    for _ in 0..1024 {
        code.extend_from_slice(&[0x60, 0x01]);
    }
    let (ms, r, _, _) = run_steps(&code, 10_000_000);
    assert!(matches!(r, FrameResult::Success { .. }));
    assert_eq!(ms.s.len(), 1024);
    code.extend_from_slice(&[0x60, 0x01]);
    let (ms, r, _, _) = run_steps(&code, 10_000_000);
    assert!(matches!(r, FrameResult::Failure { reason: HaltReason::StackOverflow }));
    assert_eq!(ms.s.len(), 1024);
}

#[test]
fn pop_on_empty_stack_underflows() {
    let mut world = WorldState::new();
    world.set_account(Address::new(0, 0, 0x5), AccountState { nonce: 1, balance: Word::from_u64(9) });
    let before = world.trie.clone();
    let mut sub = SubState::new();
    let r = run_frame(&mut world, &mut sub, &env_at(Address::new(0, 0, 0xaa)), &vec![0x50], 5000);
    assert!(matches!(r, FrameResult::Failure { reason: HaltReason::StackUnderflow }));
    assert_eq!(r.gas_left(), 0);
    assert_eq!(world.trie, before);
}

#[test]
fn gas_of_first_opcode_only_runs_out() {
    let code = [0x60, 0x01, 0x60, 0x01, 0x01];
    let (ms, r, _, _) = run_steps(&code, 3);
    assert!(matches!(r, FrameResult::Failure { reason: HaltReason::OutOfGas }));
    assert_eq!(ms.pc, 2);
    let (ms, r, _, _) = run_steps(&code, 9);
    assert!(matches!(r, FrameResult::Success { gas_left: 0, .. }));
    assert_eq!(ms.s, vec![Word::from_u64(2)]);
}

#[test]
fn invalid_opcode_halts() {
    let (_, r, _, _) = run_steps(&[0x0c], 100);
    assert!(matches!(r, FrameResult::Failure { reason: HaltReason::InvalidOpcode }));
}

#[test]
fn jump_to_non_jumpdest_fails() {
    let (_, r, _, _) = run_steps(&[0x60, 0x03, 0x56, 0x00], 1000);
    assert!(matches!(r, FrameResult::Failure { reason: HaltReason::InvalidJump }));
    // a 0x5b byte inside push data is no jump target
    let (_, r, _, _) = run_steps(&[0x60, 0x04, 0x56, 0x60, 0x5b], 1000);
    assert!(matches!(r, FrameResult::Failure { reason: HaltReason::InvalidJump }));
}

#[test]
fn jump_to_jumpdest_lands() {
    let (ms, r, _, _) = run_steps(&[0x60, 0x04, 0x56, 0x00, 0x5b, 0x60, 0x09], 1000);
    assert!(matches!(r, FrameResult::Success { .. }));
    assert_eq!(ms.s, vec![Word::from_u64(9)]);
}

#[test]
fn return_hands_back_memory() {
    // MSTORE 0x2a at 0; RETURN 32 bytes from 0
    let code = vec![0x60, 0x2a, 0x60, 0x00, 0x52, 0x60, 0x20, 0x60, 0x00, 0xf3];
    let mut world = WorldState::new();
    let mut sub = SubState::new();
    let r = run_frame(&mut world, &mut sub, &env_at(Address::new(0, 0, 0xaa)), &code, 1000);
    match r {
        FrameResult::Success { output, gas_left } => {
            let mut expected = vec![0u8; 32];
            expected[31] = 0x2a;
            assert_eq!(output, expected);
            assert_eq!(gas_left, 1000 - 18);
        },
        _ => panic!("frame did not succeed"),
    }
}

#[test]
fn sstore_then_sload_and_log() {
    // SSTORE 42 at key 1; SLOAD 1; LOG1 with topic 7 and no data
    let code = vec![0x60, 0x2a, 0x60, 0x01, 0x55, 0x60, 0x01, 0x54, 0x60, 0x07, 0x60, 0x00, 0x60, 0x00, 0xa1];
    let me = Address::new(0, 0, 0xaa);
    let mut world = WorldState::new();
    let mut sub = SubState::new();
    let r = run_frame(&mut world, &mut sub, &env_at(me), &code, 100_000);
    assert!(matches!(r, FrameResult::Success { .. }));
    assert_eq!(world.storage_at(me, Word::from_u64(1)), Word::from_u64(42));
    assert_eq!(sub.logs.len(), 1);
    assert_eq!(sub.logs[0].topics, vec![Word::from_u64(7)]);
    // 3+3 + (2100+20000) + 3 + 100 + 3+3+3 + (375+375)
    assert_eq!(r.gas_left(), 100_000 - 22968);
}

#[test]
fn reverted_child_call_keeps_access_sets_only() {
    let parent = Address::new(0, 0, 0xaa);
    let child = Address::new(0, 0, 0xcc);
    let mut world = WorldState::new();
    // child: SSTORE 42 at key 1, then REVERT with no data
    world.set_code(child, vec![0x60, 0x2a, 0x60, 0x01, 0x55, 0x60, 0x00, 0x60, 0x00, 0xfd]);
    let mut code = vec![0x60, 0x00, 0x60, 0x00, 0x60, 0x00, 0x60, 0x00, 0x60, 0x00];
    code.extend_from_slice(&[0x60, 0xcc, 0x61, 0xc3, 0x50, 0xf1, 0x60, 0x00, 0x55, 0x00]);
    let mut sub = SubState::new();
    let r = run_frame(&mut world, &mut sub, &env_at(parent), &code, 100_000);
    assert!(matches!(r, FrameResult::Success { .. }));
    assert_eq!(world.storage_at(child, Word::from_u64(1)), Word::zero());
    assert_eq!(world.storage_at(parent, Word::zero()), Word::zero());
    assert!(sub.accessed_storage.contains(&(child, Word::from_u64(1))));
    assert!(sub.accessed_accounts.contains(&child));
    // parent 21 + call 2600 + child 22112 + 3 + 2200
    assert_eq!(r.gas_left(), 100_000 - 26936);
}

#[test]
fn successful_child_call_keeps_writes() {
    let parent = Address::new(0, 0, 0xaa);
    let child = Address::new(0, 0, 0xcc);
    let mut world = WorldState::new();
    world.set_code(child, vec![0x60, 0x2a, 0x60, 0x01, 0x55, 0x00]);
    let mut code = vec![0x60, 0x00, 0x60, 0x00, 0x60, 0x00, 0x60, 0x00, 0x60, 0x00];
    code.extend_from_slice(&[0x60, 0xcc, 0x61, 0xc3, 0x50, 0xf1, 0x60, 0x00, 0x55, 0x00]);
    let mut sub = SubState::new();
    let r = run_frame(&mut world, &mut sub, &env_at(parent), &code, 100_000);
    assert!(matches!(r, FrameResult::Success { .. }));
    assert_eq!(world.storage_at(child, Word::from_u64(1)), Word::from_u64(42));
    assert_eq!(world.storage_at(parent, Word::zero()), Word::from_u64(1));
}

#[test]
fn call_with_short_balance_fails_without_halting() {
    let parent = Address::new(0, 0, 0xaa);
    let mut world = WorldState::new();
    // CALL with value 5 from an account with nothing
    let mut code = vec![0x60, 0x00, 0x60, 0x00, 0x60, 0x00, 0x60, 0x00, 0x60, 0x05];
    code.extend_from_slice(&[0x60, 0xcc, 0x61, 0xc3, 0x50, 0xf1, 0x00]);
    let mut sub = SubState::new();
    let mut ms = EVMState::new();
    ms.gas = 100_000;
    let env = env_at(parent);
    let r = loop {
        if let Some(r) = step(&mut ms, &code, &env, &mut world, &mut sub) {
            break r;
        }
    };
    assert!(matches!(r, FrameResult::Success { .. }));
    assert_eq!(ms.s, vec![Word::zero()]);
    // 21 for pushes, 2600 cold + 9000 value + 25000 new account
    assert_eq!(ms.gas, 100_000 - 36621);
}

#[test]
fn touched_empty_account_is_pruned_at_settlement() {
    let parent = Address::new(0, 0, 0xaa);
    let empty = Address::new(0, 0, 0xee);
    let mut world = WorldState::new();
    let mut code = vec![0x60, 0x00, 0x60, 0x00, 0x60, 0x00, 0x60, 0x00, 0x60, 0x00];
    code.extend_from_slice(&[0x60, 0xee, 0x61, 0xc3, 0x50, 0xf1, 0x00]);
    let mut sub = SubState::new();
    let r = run_frame(&mut world, &mut sub, &env_at(parent), &code, 100_000);
    assert!(matches!(r, FrameResult::Success { .. }));
    assert!(world.account_exists(empty));
    assert!(sub.touched_accounts.contains(&empty));
    settle(&mut world, &sub);
    assert!(!world.account_exists(empty));
}

#[test]
fn settlement_keeps_touched_accounts_that_are_not_empty() {
    let a = Address::new(0, 0, 0x10);
    let mut world = WorldState::new();
    world.set_account(a, AccountState { nonce: 0, balance: Word::from_u64(1) });
    let mut sub = SubState::new();
    sub.touch(a);
    settle(&mut world, &sub);
    assert!(world.account_exists(a));
}

#[test]
fn selfdestruct_takes_effect_at_settlement() {
    let me = Address::new(0, 0, 0xaa);
    let heir = Address::new(0, 0, 0xbb);
    let mut world = WorldState::new();
    world.set_account(me, AccountState { nonce: 1, balance: Word::from_u64(50) });
    world.set_account(heir, AccountState { nonce: 1, balance: Word::from_u64(0) });
    let mut sub = SubState::new();
    let r = run_frame(&mut world, &mut sub, &env_at(me), &vec![0x60, 0xbb, 0xff], 100_000);
    assert!(matches!(r, FrameResult::Success { .. }));
    assert!(world.account_exists(me));
    assert_eq!(world.balance(me), Word::zero());
    assert_eq!(world.balance(heir), Word::from_u64(50));
    assert!(sub.self_destruct_set.contains(&me));
    settle(&mut world, &sub);
    assert!(!world.account_exists(me));
    assert!(world.account_exists(heir));
}

#[test]
fn create_deploys_empty_code_with_forwarded_value() {
    // the sender and first created address of alloy-primitives' own example
    let sender = Address::new(0xb20a608c, 0x624Ca5003905aA83, 0x4De7156C68b2E1d0);
    let expected = Address::new(0, 0x219ab540356cBB83, 0x9Cbe05303d7705Fa);
    let mut world = WorldState::new();
    world.set_account(sender, AccountState { nonce: 0, balance: Word::from_u64(1000) });
    let code = vec![
        0x64, 0x60, 0x00, 0x60, 0x00, 0xf3, // PUSH5 init code
        0x60, 0x00, 0x52, // MSTORE at 0
        0x60, 0x05, 0x60, 0x1b, 0x60, 0x07, 0xf0, // CREATE value 7, offset 27, size 5
        0x60, 0x00, 0x55, 0x00, // SSTORE the result at key 0
    ];
    let mut sub = SubState::new();
    let r = run_frame(&mut world, &mut sub, &env_at(sender), &code, 200_000);
    assert!(matches!(r, FrameResult::Success { .. }));
    assert_eq!(world.storage_at(sender, Word::zero()), expected.to_word());
    assert_eq!(world.get_account(expected), Some(AccountState { nonce: 0, balance: Word::from_u64(7) }));
    assert_eq!(world.code(expected), Vec::<u8>::new());
    assert_eq!(world.get_account(sender), Some(AccountState { nonce: 1, balance: Word::from_u64(993) }));
}

#[test]
fn mstore_writes_big_endian_bytes() {
    // PUSH32 0xff00..0001 0203..08 ; MSTORE at 0 ; RETURN 32 bytes from 0
    let mut word = [0u8; 32];
    word[0] = 0xff;
    word[24..].copy_from_slice(&[1, 2, 3, 4, 5, 6, 7, 8]);
    let mut code = vec![0x7f];
    code.extend_from_slice(&word);
    code.extend_from_slice(&[0x60, 0x00, 0x52, 0x60, 0x20, 0x60, 0x00, 0xf3]);
    let mut world = WorldState::new();
    let mut sub = SubState::new();
    let r = run_frame(&mut world, &mut sub, &env_at(Address::new(0, 0, 0xaa)), &code, 1000);
    match r {
        FrameResult::Success { output, .. } => assert_eq!(output, word.to_vec()),
        _ => panic!("frame did not succeed"),
    }
}

#[test]
fn mload_reads_what_mstore_wrote() {
    let mut code = vec![0x7f];
    let mut word = [0u8; 32];
    word[0] = 0xff;
    word[31] = 0x08;
    code.extend_from_slice(&word);
    code.extend_from_slice(&[0x60, 0x00, 0x52, 0x60, 0x00, 0x51]);
    let expected = Word { l0: 0x08, l1: 0, l2: 0, l3: 0xff00000000000000 };
    assert_eq!(stack_after(&code), vec![expected]);
}

#[test]
fn mul_of_large_words() {
    // 2^40 * 2^40 = 2^80
    let code = [0x65, 0x01, 0x00, 0x00, 0x00, 0x00, 0x00, 0x65, 0x01, 0x00, 0x00, 0x00, 0x00, 0x00, 0x02];
    assert_eq!(stack_after(&code), vec![Word { l0: 0, l1: 1 << 16, l2: 0, l3: 0 }]);
}

#[test]
fn environment_words() {
    // CALLER ADDRESS ORIGIN CALLVALUE
    assert_eq!(
        stack_after(&[0x33, 0x30, 0x32, 0x34]),
        vec![caller().to_word(), Address::new(0, 0, 0xaa).to_word(), caller().to_word(), Word::zero()]
    );
}

#[test]
fn balance_charges_cold_then_warm() {
    let me = Address::new(0, 0, 0xaa);
    let other = Address::new(0, 0, 0xbb);
    let mut world = WorldState::new();
    world.set_account(other, AccountState { nonce: 0, balance: Word::from_u64(77) });
    let mut sub = SubState::new();
    let mut ms = EVMState::new();
    ms.gas = 10_000;
    let code = vec![0x60, 0xbb, 0x31, 0x60, 0xbb, 0x31];
    let env = env_at(me);
    let r = loop {
        if let Some(r) = step(&mut ms, &code, &env, &mut world, &mut sub) {
            break r;
        }
    };
    assert!(matches!(r, FrameResult::Success { .. }));
    assert_eq!(ms.s, vec![Word::from_u64(77), Word::from_u64(77)]);
    assert_eq!(ms.gas, 10_000 - 2706);
}

#[test]
fn jumpi_taken_and_not_taken() {
    let taken = [0x60, 0x01, 0x60, 0x08, 0x57, 0x60, 0x01, 0x00, 0x5b, 0x60, 0x02];
    assert_eq!(stack_after(&taken), vec![Word::from_u64(2)]);
    let not_taken = [0x60, 0x00, 0x60, 0x08, 0x57, 0x60, 0x01, 0x00, 0x5b, 0x60, 0x02];
    assert_eq!(stack_after(&not_taken), vec![Word::from_u64(1)]);
}

#[test]
fn memory_beyond_bound_is_invalid() {
    let (_, r, _, _) = run_steps(&[0x64, 0x01, 0x00, 0x00, 0x00, 0x00, 0x51], 1_000_000);
    assert!(matches!(r, FrameResult::Failure { reason: HaltReason::InvalidMemoryAccess }));
}

#[test]
fn memory_growth_runs_out_of_gas() {
    let (_, r, _, _) = run_steps(&[0x62, 0x10, 0x00, 0x00, 0x51], 1000);
    assert!(matches!(r, FrameResult::Failure { reason: HaltReason::OutOfGas }));
}

#[test]
fn clearing_a_slot_earns_a_refund() {
    let me = Address::new(0, 0, 0xaa);
    let mut world = WorldState::new();
    world.set_storage(me, Word::from_u64(1), Word::from_u64(5));
    let mut sub = SubState::new();
    let r = run_frame(&mut world, &mut sub, &env_at(me), &vec![0x60, 0x00, 0x60, 0x01, 0x55], 10_000);
    assert!(matches!(r, FrameResult::Success { .. }));
    assert_eq!(sub.refund, 4800);
    assert_eq!(r.gas_left(), 10_000 - 5006);
    assert_eq!(world.storage_at(me, Word::from_u64(1)), Word::zero());
}

#[test]
fn log_records_data_and_topics() {
    // MSTORE 0x2a at 0; LOG2 topics 9, 8 over bytes 31..32
    let code = vec![0x60, 0x2a, 0x60, 0x00, 0x52, 0x60, 0x08, 0x60, 0x09, 0x60, 0x01, 0x60, 0x1f, 0xa2];
    let me = Address::new(0, 0, 0xaa);
    let mut world = WorldState::new();
    let mut sub = SubState::new();
    let r = run_frame(&mut world, &mut sub, &env_at(me), &code, 10_000);
    assert!(matches!(r, FrameResult::Success { .. }));
    assert_eq!(sub.logs.len(), 1);
    assert_eq!(sub.logs[0].address, me);
    assert_eq!(sub.logs[0].data, vec![0x2a]);
    assert_eq!(sub.logs[0].topics, vec![Word::from_u64(9), Word::from_u64(8)]);
}

#[test]
fn reverted_frame_drops_its_logs() {
    // LOG0 of nothing, then REVERT
    let code = vec![0x60, 0x00, 0x60, 0x00, 0xa0, 0x60, 0x00, 0x60, 0x00, 0xfd];
    let mut world = WorldState::new();
    let mut sub = SubState::new();
    let r = run_frame(&mut world, &mut sub, &env_at(Address::new(0, 0, 0xaa)), &code, 10_000);
    assert!(matches!(r, FrameResult::Revert { .. }));
    assert_eq!(sub.logs.len(), 0);
}

#[test]
fn refund_saturates_at_its_limit() {
    let me = Address::new(0, 0, 0xaa);
    let mut world = WorldState::new();
    world.set_storage(me, Word::from_u64(1), Word::from_u64(5));
    let mut sub = SubState::new();
    sub.refund = u64::MAX - 1;
    let r = run_frame(&mut world, &mut sub, &env_at(me), &vec![0x60, 0x00, 0x60, 0x01, 0x55], 10_000);
    assert!(matches!(r, FrameResult::Success { .. }));
    assert_eq!(sub.refund, u64::MAX);
}

#[test]
fn child_failure_pushes_zero_and_parent_runs_on() {
    let parent = Address::new(0, 0, 0xaa);
    let child = Address::new(0, 0, 0xcc);
    let mut world = WorldState::new();
    // child pops an empty stack
    world.set_code(child, vec![0x50]);
    let mut code = vec![0x60, 0x00, 0x60, 0x00, 0x60, 0x00, 0x60, 0x00, 0x60, 0x00];
    code.extend_from_slice(&[0x60, 0xcc, 0x61, 0x03, 0xe8, 0xf1, 0x60, 0x07]);
    let mut sub = SubState::new();
    let mut ms = EVMState::new();
    ms.gas = 100_000;
    let env = env_at(parent);
    let r = loop {
        if let Some(r) = step(&mut ms, &code, &env, &mut world, &mut sub) {
            break r;
        }
    };
    assert!(matches!(r, FrameResult::Success { .. }));
    assert_eq!(ms.s, vec![Word::zero(), Word::from_u64(7)]);
    // 21 for pushes, 2600 cold access, the child's whole stipend of 1000, 3 for the last push
    assert_eq!(ms.gas, 100_000 - 21 - 2600 - 1000 - 3);
}

#[test]
fn setting_a_cleared_slot_again_takes_the_refund_back() {
    let me = Address::new(0, 0, 0xaa);
    let mut world = WorldState::new();
    world.set_storage(me, Word::from_u64(1), Word::from_u64(5));
    let mut sub = SubState::new();
    // clear slot 1, then set it to 7
    let code = vec![0x60, 0x00, 0x60, 0x01, 0x55, 0x60, 0x07, 0x60, 0x01, 0x55];
    let r = run_frame(&mut world, &mut sub, &env_at(me), &code, 100_000);
    assert!(matches!(r, FrameResult::Success { .. }));
    assert_eq!(sub.refund, 0);
    assert_eq!(r.gas_left(), 100_000 - 25012);
    assert_eq!(world.storage_at(me, Word::from_u64(1)), Word::from_u64(7));
}
