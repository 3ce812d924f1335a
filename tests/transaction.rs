use evm_core::machine::HaltReason;
use evm_core::state::{AccountState, Address, WorldState};
use evm_core::transaction::{execute_transaction, Transaction, TxStatus};
use evm_core::word::Word;

fn funded(sender: Address, balance: u64) -> WorldState {
    let mut world = WorldState::new();
    world.set_account(sender, AccountState { nonce: 0, balance: Word::from_u64(balance) });
    world
}

#[test]
fn creation_transaction_deploys_empty_code() {
    let sender = Address::new(0xb20a608c, 0x624Ca5003905aA83, 0x4De7156C68b2E1d0);
    let expected = Address::new(0, 0x219ab540356cBB83, 0x9Cbe05303d7705Fa);
    let mut world = funded(sender, 100);
    let tx = Transaction {
        sender,
        to: None,
        value: Word::from_u64(40),
        data: vec![0x60, 0x00, 0x60, 0x00, 0xf3],
        gas_limit: 50_000,
    };
    let r = execute_transaction(&mut world, &tx);
    assert_eq!(r.status, TxStatus::Success);
    assert_eq!(r.created, Some(expected));
    assert_eq!(r.output, Vec::<u8>::new());
    assert_eq!(r.gas_used, 6);
    assert_eq!(world.get_account(expected), Some(AccountState { nonce: 0, balance: Word::from_u64(40) }));
    assert_eq!(world.code(expected), Vec::<u8>::new());
    assert_eq!(world.get_account(sender), Some(AccountState { nonce: 1, balance: Word::from_u64(60) }));
}

#[test]
fn creation_with_nothing_sent_leaves_no_empty_account() {
    let sender = Address::new(0, 0, 0x77);
    let mut world = funded(sender, 100);
    let tx = Transaction { sender, to: None, value: Word::zero(), data: vec![0x00], gas_limit: 50_000 };
    let r = execute_transaction(&mut world, &tx);
    assert_eq!(r.status, TxStatus::Success);
    let created = r.created.unwrap();
    assert!(!world.account_exists(created));
}

#[test]
fn short_balance_changes_nothing() {
    let sender = Address::new(0, 0, 0x77);
    let mut world = funded(sender, 5);
    let before = world.trie.clone();
    let tx = Transaction { sender, to: Some(Address::new(0, 0, 0x88)), value: Word::from_u64(6), data: vec![], gas_limit: 1000 };
    let r = execute_transaction(&mut world, &tx);
    assert_eq!(r.status, TxStatus::InsufficientBalance);
    assert_eq!(r.gas_used, 0);
    assert_eq!(world.trie, before);
}

#[test]
fn failed_call_uses_all_gas_and_keeps_value() {
    let sender = Address::new(0, 0, 0x77);
    let target = Address::new(0, 0, 0x88);
    let mut world = funded(sender, 100);
    world.set_code(target, vec![0x50]);
    let tx = Transaction { sender, to: Some(target), value: Word::from_u64(10), data: vec![], gas_limit: 1000 };
    let r = execute_transaction(&mut world, &tx);
    assert_eq!(r.status, TxStatus::Failure { reason: HaltReason::StackUnderflow });
    assert_eq!(r.gas_used, 1000);
    assert_eq!(world.get_account(sender), Some(AccountState { nonce: 1, balance: Word::from_u64(100) }));
}

#[test]
fn reverted_call_returns_unused_gas() {
    let sender = Address::new(0, 0, 0x77);
    let target = Address::new(0, 0, 0x88);
    let mut world = funded(sender, 100);
    world.set_code(target, vec![0x60, 0x00, 0x60, 0x00, 0xfd]);
    let tx = Transaction { sender, to: Some(target), value: Word::zero(), data: vec![], gas_limit: 1000 };
    let r = execute_transaction(&mut world, &tx);
    assert_eq!(r.status, TxStatus::Revert);
    assert_eq!(r.gas_used, 6);
}
