use crate::interpreter::{create_address, created_address, is_run, run_frame, Env, FrameResult};
use crate::state::EVMState;
use crate::word::word_modulus;
use crate::machine::HaltReason;
use crate::state::{settle, AccountState, Address, SubState, WorldState};
use crate::word::Word;
use vstd::prelude::*;

verus! {

/// A message call (`to` is set) or a contract creation (`to` is empty, and
/// `data` is the init code), with the gas it may spend.
pub struct Transaction {
    pub sender: Address,
    pub to: Option<Address>,
    pub value: Word,
    pub data: Vec<u8>,
    pub gas_limit: u64,
}

/// How a transaction ended. `InsufficientBalance` and `NonceExhausted` leave
/// everything as it was; `AddressCollision` (a creation whose address is
/// taken) uses all the gas.
#[derive(Clone, Copy, PartialEq, Eq, Structural, Debug)]
pub enum TxStatus {
    Success,
    Revert,
    Failure { reason: HaltReason },
    InsufficientBalance,
    NonceExhausted,
    AddressCollision,
}

/// What a transaction hands back: its status, the gas it used, its output,
/// the account it created if any, and what it accrued.
pub struct Receipt {
    pub status: TxStatus,
    pub gas_used: u64,
    pub output: Vec<u8>,
    pub created: Option<Address>,
    pub substate: SubState,
}

/// How a transaction's top frame ended, as a receipt status.
pub open spec fn status_of(res: FrameResult) -> TxStatus {
    match res {
        FrameResult::Success { .. } => TxStatus::Success,
        FrameResult::Revert { .. } => TxStatus::Revert,
        FrameResult::Failure { reason } => TxStatus::Failure { reason },
    }
}

/// The account a transaction runs at: its recipient, or the derived address.
pub open spec fn tx_target(tx: Transaction, w0: WorldState) -> Address {
    match tx.to {
        Some(to) => to,
        None => created_address(tx.sender, w0.nonce_of(tx.sender) as u64),
    }
}

/// The code a transaction runs: the recipient's, or the init code.
pub open spec fn tx_code(tx: Transaction, w0: WorldState) -> Seq<u8> {
    match tx.to {
        Some(to) => w0.code_of(to),
        None => tx.data@,
    }
}

/// The top frame's context.
pub open spec fn tx_env(tx: Transaction, target: Address) -> Env {
    Env { address: target, caller: tx.sender, origin: tx.sender, value: tx.value, depth: 0 }
}

/// How a transaction stands after its top frame's run ended in `res` at
/// `last`: the status and gas follow the run; the run started with the
/// sender's nonce raised and the value moved; the substate is the run's on
/// success, and otherwise holds nothing but the access sets the run left.
pub open spec fn tx_done(
    tx: Transaction,
    w0: WorldState,
    target: Address,
    status: TxStatus,
    gas_used: u64,
    sub: SubState,
    start: WorldState,
    last: (EVMState, WorldState, SubState),
    res: FrameResult,
) -> bool {
    &&& status == status_of(res)
    &&& gas_used == tx.gas_limit - res.gas_left_spec()
    &&& start.nonce_of(tx.sender) == w0.nonce_of(tx.sender) + 1
    &&& start.balance_of(tx.sender) == w0.balance_of(tx.sender) - tx.value.value()
    &&& start.balance_of(target) == (w0.balance_of(target) + tx.value.value()) % word_modulus()
    &&& res is Success ==> sub == last.2
    &&& !(res is Success) ==> {
        &&& sub.self_destruct_set@.len() == 0
        &&& sub.logs@.len() == 0
        &&& sub.touched_accounts@.len() == 0
        &&& sub.refund == 0
        &&& sub.accessed_accounts == last.2.accessed_accounts
        &&& sub.accessed_storage == last.2.accessed_storage
    }
}

/// Settling with nothing scheduled and nothing touched deletes nothing.
proof fn lemma_settle_nothing(w0: &WorldState, w1: &WorldState, sub: &SubState)
    requires
        sub.self_destruct_set@.len() == 0,
        sub.touched_accounts@.len() == 0,
        forall|a: Address| #[trigger] w0.accounts().contains_key(a) && !sub.self_destruct_set@.contains(a)
            && !(sub.touched_accounts@.contains(a) && w0.is_empty_spec(a)) ==> w1.accounts().contains_key(a),
        forall|a: Address| #[trigger] w1.accounts().contains_key(a) ==> w0.accounts().contains_key(a)
            && w1.accounts()[a] == w0.accounts()[a],
    ensures
        w1.accounts() == w0.accounts(),
{
    assert forall|a: Address| w0.accounts().contains_key(a) implies w1.accounts().contains_key(a) by {
        assert(!sub.self_destruct_set@.contains(a));
        assert(!sub.touched_accounts@.contains(a));
    }
    assert(w1.accounts() =~= w0.accounts());
}

/// Runs a transaction against the world state and settles it: the sender's
/// nonce goes up, the value moves, the top frame runs, and a failed or
/// reverted frame is undone; then the self-destructed accounts and the touched
/// empty ones are deleted.
pub fn execute_transaction(world: &mut WorldState, tx: &Transaction) -> (r: Receipt)
    ensures
        r.gas_used <= tx.gas_limit,
        (r.status == TxStatus::InsufficientBalance) == (old(world).balance_of(tx.sender) < tx.value.value()),
        (r.status == TxStatus::NonceExhausted) == (old(world).balance_of(tx.sender) >= tx.value.value()
            && old(world).nonce_of(tx.sender) == u64::MAX),
        r.status == TxStatus::InsufficientBalance || r.status == TxStatus::NonceExhausted ==> final(world).same(
            old(world),
        ) && r.gas_used == 0,
        forall|a: Address| #[trigger] r.substate.self_destruct_set@.contains(a) ==> !final(world).accounts().contains_key(a),
        forall|a: Address| #[trigger] r.substate.touched_accounts@.contains(a) && final(world).accounts().contains_key(a)
            ==> !final(world).is_empty_spec(a),
        r.created is Some ==> r.status == TxStatus::Success && tx.to is None,
        ({
            let w0 = *old(world);
            let a = tx_target(*tx, w0);
            let early = w0.balance_of(tx.sender) < tx.value.value() || w0.nonce_of(tx.sender) == u64::MAX;
            let collision = tx.to is None && !w0.is_empty_spec(a);
            &&& !early && a != tx.sender ==> (r.status == TxStatus::AddressCollision <==> collision)
            &&& !early && a != tx.sender && !collision ==> exists|
                t: Seq<(EVMState, WorldState, SubState)>,
                last: (EVMState, WorldState, SubState),
                res: FrameResult,
            |
                #[trigger] is_run(tx_code(*tx, w0), tx_env(*tx, a), tx.gas_limit as int, t, last, res) && tx_done(
                    *tx,
                    w0,
                    a,
                    r.status,
                    r.gas_used,
                    r.substate,
                    t[0].1,
                    last,
                    res,
                )
        }),
        r.created matches Some(a) ==> a == created_address(tx.sender, old(world).nonce_of(tx.sender) as u64),
        r.created matches Some(a) ==> (final(world).accounts().contains_key(a) ==> final(world).code_of(a) == r.output@),
        tx.to is None && r.status == TxStatus::Success ==> r.created is Some,
        r.status matches TxStatus::Failure { .. } ==> r.gas_used == tx.gas_limit,
        r.status == TxStatus::AddressCollision ==> r.gas_used == tx.gas_limit,
        r.status matches TxStatus::Failure { .. } || r.status == TxStatus::Revert || r.status
            == TxStatus::AddressCollision ==> final(world).accounts() == old(world).accounts().insert(
            tx.sender,
            AccountState {
                nonce: (old(world).nonce_of(tx.sender) + 1) as u64,
                balance: if old(world).accounts().contains_key(tx.sender) {
                    old(world).accounts()[tx.sender].balance
                } else {
                    Word { l0: 0, l1: 0, l2: 0, l3: 0 }
                },
            },
        ),
{
    let mut sub = SubState::new();
    let balance = world.balance(tx.sender);
    let sender = match world.get_account(tx.sender) {
        Some(acc) => acc,
        None => AccountState { nonce: 0, balance: Word::zero() },
    };
    if balance.lt(tx.value) {
        return Receipt {
            status: TxStatus::InsufficientBalance,
            gas_used: 0,
            output: Vec::new(),
            created: None,
            substate: sub,
        };
    }
    if sender.nonce == u64::MAX {
        return Receipt {
            status: TxStatus::NonceExhausted,
            gas_used: 0,
            output: Vec::new(),
            created: None,
            substate: sub,
        };
    }
    sub.access_account(tx.sender);
    let target = match tx.to {
        Some(to) => to,
        None => create_address(tx.sender, sender.nonce),
    };
    world.set_account(tx.sender, AccountState { nonce: sender.nonce + 1, balance: sender.balance });
    let ghost bumped = *world;
    sub.access_account(target);
    if tx.to.is_none() && !world.is_empty(target) {
        settle(world, &sub);
        proof { lemma_settle_nothing(&bumped, world, &sub); }
        return Receipt {
            status: TxStatus::AddressCollision,
            gas_used: tx.gas_limit,
            output: Vec::new(),
            created: None,
            substate: sub,
        };
    }
    let cp = world.checkpoint();
    world.transfer(tx.sender, target, tx.value);
    let scp = sub.checkpoint();
    sub.touch(target);
    let env = Env { address: target, caller: tx.sender, origin: tx.sender, value: tx.value, depth: 0 };
    let code: Vec<u8> = match tx.to {
        Some(to) => world.code(to),
        None => {
            let c = tx.data.clone();
            assert(c@ =~= tx.data@);
            c
        },
    };
    let ghost w2 = *world;
    let ghost s2 = sub;
    let res = run_frame(world, &mut sub, &env, &code, tx.gas_limit);
    let ghost rg = res;
    let ghost (t, last) = choose|t: Seq<(EVMState, WorldState, SubState)>, last: (EVMState, WorldState, SubState)|
        #[trigger] is_run(code@, env, tx.gas_limit as int, t, last, rg) && t[0].1 == w2 && t[0].2 == s2 && (rg is Success
            ==> last.1 == *world && last.2 == sub) && (!(rg is Success) ==> sub.accessed_accounts
            == last.2.accessed_accounts && sub.accessed_storage == last.2.accessed_storage);
    let gas_left = res.gas_left();
    let gas_used = tx.gas_limit - gas_left;
    let (status, output, created) = match res {
        FrameResult::Success { output, .. } => {
            if tx.to.is_none() {
                let deployed = output.clone();
                assert(deployed@ =~= output@);
                world.set_code(target, output);
                (TxStatus::Success, deployed, Some(target))
            } else {
                (TxStatus::Success, output, None)
            }
        },
        FrameResult::Revert { output, .. } => {
            world.revert_to(cp);
            sub.revert_to(scp);
            (TxStatus::Revert, output, None)
        },
        FrameResult::Failure { reason } => {
            world.revert_to(cp);
            sub.revert_to(scp);
            (TxStatus::Failure { reason }, Vec::new(), None)
        },
    };
    proof {
        if target != tx.sender {
            crate::word::lemma_value_bound(tx.value);
            assert(code@ == tx_code(*tx, *old(world)));
            assert(env == tx_env(*tx, target));
            assert(is_run(tx_code(*tx, *old(world)), tx_env(*tx, target), tx.gas_limit as int, t, last, rg));
            assert(tx_done(*tx, *old(world), target, status, gas_used, sub, t[0].1, last, rg));
        }
    }
    let ghost before = *world;
    settle(world, &sub);
    proof {
        if !(status == TxStatus::Success) {
            assert(before.accounts() == bumped.accounts());
            lemma_settle_nothing(&before, world, &sub);
        }
    }
    Receipt { status, gas_used, output, created, substate: sub }
}

} // verus!
