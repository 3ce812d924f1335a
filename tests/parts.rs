use evm_core::gas::{
    access_cost, call_stipend, call_value_cost, log_cost, memory_cost, memory_expansion_cost, sstore_cost,
};
use evm_core::machine::valid_jumpdest;
use evm_core::operations::{lookup, OpCode, Operation};
use evm_core::state::{Address, WorldState};
use evm_core::word::Word;

#[test]
fn operation_new_keeps_fields() {
    let op = Operation::new(0x01, OpCode::ADD, 2, 1, 3);
    assert_eq!(op.index, 0x01);
    assert_eq!(op.name, OpCode::ADD);
    assert_eq!(op.delta, 2);
    assert_eq!(op.alpha, 1);
    assert_eq!(op.gas, 3);
}

#[test]
fn table_lookup() {
    assert_eq!(lookup(0x01), Some(Operation::new(0x01, OpCode::ADD, 2, 1, 3)));
    assert_eq!(lookup(0x50), Some(Operation::new(0x50, OpCode::POP, 1, 0, 2)));
    assert_eq!(lookup(0x65).map(|o| o.name), Some(OpCode::PUSH));
    assert_eq!(lookup(0x8f).map(|o| (o.delta, o.alpha)), Some((16, 17)));
    assert_eq!(lookup(0xa4).map(|o| o.delta), Some(6));
    assert_eq!(lookup(0x0c), None);
    assert_eq!(lookup(0xfe), None);
}

#[test]
fn memory_cost_formula() {
    assert_eq!(memory_cost(0), 0);
    assert_eq!(memory_cost(1), 3);
    assert_eq!(memory_cost(32), 98);
    assert_eq!(memory_cost(1024), 3 * 1024 + 2048);
    assert_eq!(memory_expansion_cost(1, 32), 95);
    assert_eq!(memory_expansion_cost(32, 1), 0);
}

#[test]
fn stipend_follows_63_64_rule() {
    assert_eq!(call_stipend(6400, 10_000), 6300);
    assert_eq!(call_stipend(6400, 100), 100);
    assert_eq!(call_stipend(100, u64::MAX), 98);
    assert_eq!(call_stipend(u64::MAX, u64::MAX), ((u64::MAX as u128) * 63 / 64) as u64);
}

#[test]
fn access_and_storage_costs() {
    assert_eq!(access_cost(true, 2600), 100);
    assert_eq!(access_cost(false, 2600), 2600);
    assert_eq!(sstore_cost(true, false, true), 20000);
    assert_eq!(sstore_cost(false, false, false), 2900 + 2100);
    assert_eq!(sstore_cost(false, true, true), 100);
    assert_eq!(log_cost(2, 10), 750 + 80);
    assert_eq!(call_value_cost(false, false), 0);
    assert_eq!(call_value_cost(true, true), 9000);
    assert_eq!(call_value_cost(true, false), 34000);
}

#[test]
fn word_verified_helpers() {
    let max = Word { l0: u64::MAX, l1: u64::MAX, l2: u64::MAX, l3: u64::MAX };
    assert!(max.slt(Word::from_u64(0)));
    assert!(!Word::from_u64(0).slt(max));
    assert!(Word::from_u64(1).slt(Word::from_u64(2)));
    assert!(Word::from_u64(3).eq_word(Word::from_u64(3)));
    assert!(!Word::from_u64(3).eq_word(max));
    assert!(Word::zero().is_zero());
    assert_eq!(Word::from_u64(5).to_u64(), Some(5));
    assert_eq!(max.to_u64(), None);
}

#[test]
fn jumpdest_analysis() {
    assert!(valid_jumpdest(&vec![0x5b], 0));
    assert!(!valid_jumpdest(&vec![0x60, 0x5b], 1));
    assert!(valid_jumpdest(&vec![0x60, 0x5b, 0x5b], 2));
    assert!(!valid_jumpdest(&vec![0x5b], 1));
}

#[test]
fn world_state_journal_and_revert() {
    let a = Address::new(1, 2, 3);
    let mut w = WorldState::new();
    assert_eq!(w.storage_at(a, Word::from_u64(1)), Word::zero());
    let cp = w.checkpoint();
    w.set_storage(a, Word::from_u64(1), Word::from_u64(5));
    w.set_storage(a, Word::from_u64(1), Word::from_u64(6));
    assert_eq!(w.storage_at(a, Word::from_u64(1)), Word::from_u64(6));
    w.set_code(a, vec![1, 2]);
    assert_eq!(w.code(a), vec![1, 2]);
    assert!(!w.is_empty(a));
    w.revert_to(cp);
    assert_eq!(w.storage_at(a, Word::from_u64(1)), Word::zero());
    assert_eq!(w.code(a), Vec::<u8>::new());
    assert!(w.is_empty(a));
}

#[test]
fn remove_account_drops_everything_of_it() {
    let a = Address::new(0, 0, 1);
    let b = Address::new(0, 0, 2);
    let mut w = WorldState::new();
    w.set_storage(a, Word::from_u64(1), Word::from_u64(5));
    w.set_storage(b, Word::from_u64(1), Word::from_u64(7));
    w.set_code(a, vec![1]);
    w.transfer(a, b, Word::zero());
    w.remove_account(a);
    assert!(!w.account_exists(a));
    assert!(w.account_exists(b));
    assert_eq!(w.storage_at(a, Word::from_u64(1)), Word::zero());
    assert_eq!(w.storage_at(b, Word::from_u64(1)), Word::from_u64(7));
    assert_eq!(w.code(a), Vec::<u8>::new());
}
