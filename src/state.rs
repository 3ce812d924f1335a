use crate::gas::MAX_MEMORY_WORDS;
use crate::word::Word;
use vstd::prelude::*;

verus! {

/// A 160-bit account address in three limbs, least significant last: `hi`
/// holds the top 32 bits, `mid` the next 64, `lo` the lowest 64.
#[derive(Clone, Copy, PartialEq, Eq, Structural, Debug)]
pub struct Address {
    pub hi: u32,
    pub mid: u64,
    pub lo: u64,
}

impl Address {
    pub fn new(hi: u32, mid: u64, lo: u64) -> (r: Address)
        ensures
            r == (Address { hi, mid, lo }),
    {
        Address { hi, mid, lo }
    }

    pub open spec fn to_word_spec(self) -> Word {
        Word { l0: self.lo, l1: self.mid, l2: self.hi as u64, l3: 0 }
    }

    pub open spec fn from_word_spec(w: Word) -> Address {
        Address { hi: w.l2 as u32, mid: w.l1, lo: w.l0 }
    }

    /// The address as a machine word (zero above bit 160).
    pub fn to_word(self) -> (r: Word)
        ensures
            r == self.to_word_spec(),
    {
        Word { l0: self.lo, l1: self.mid, l2: self.hi as u64, l3: 0 }
    }

    /// The address a word names: its lowest 160 bits.
    pub fn from_word(w: Word) -> (r: Address)
        ensures
            r == Address::from_word_spec(w),
    {
        Address { hi: w.l2 as u32, mid: w.l1, lo: w.l0 }
    }
}

/// The scalar part of an account: how many transactions or creations it has
/// made, and its balance in wei.
#[derive(Clone, Copy, PartialEq, Eq, Structural, Debug)]
pub struct AccountState {
    pub nonce: u64,
    pub balance: Word,
}

#[derive(Clone, Copy, PartialEq, Eq, Structural, Debug)]
pub struct AccountEntry {
    pub address: Address,
    pub account: AccountState,
}

#[derive(Debug)]
pub struct CodeEntry {
    pub address: Address,
    pub code: Vec<u8>,
}

#[derive(Clone, Copy, PartialEq, Eq, Structural, Debug)]
pub struct StorageEntry {
    pub address: Address,
    pub key: Word,
    pub value: Word,
}

impl AccountEntry {
    fn clone_entry(&self) -> (r: AccountEntry)
        ensures
            r == *self,
    {
        *self
    }
}

impl StorageEntry {
    fn clone_entry(&self) -> (r: StorageEntry)
        ensures
            r == *self,
    {
        *self
    }
}

impl CodeEntry {
    fn clone_entry(&self) -> (r: CodeEntry)
        ensures
            r.address == self.address,
            r.code@ == self.code@,
    {
        let code = self.code.clone();
        assert(code@ =~= self.code@);
        CodeEntry { address: self.address, code }
    }
}

/// What the journal of account writes says: the latest write of each key wins.
pub open spec fn account_map(s: Seq<AccountEntry>) -> Map<Address, AccountState>
    decreases s.len(),
{
    if s.len() == 0 {
        Map::empty()
    } else {
        let e = s.last();
        account_map(s.drop_last()).insert(e.address, e.account)
    }
}

proof fn lemma_account_latest(s: Seq<AccountEntry>, i: int, k: Address)
    requires
        0 <= i < s.len(),
        ({ let e = s[i]; e.address }) == k,
        forall|x: int| i < x < s.len() ==> ({ let e = #[trigger] s[x]; e.address }) != k,
    ensures
        account_map(s).contains_key(k),
        account_map(s)[k] == ({ let e = s[i]; e.account }),
    decreases s.len(),
{
    if i < s.len() - 1 {
        let t = s.drop_last();
        assert forall|x: int| i < x < t.len() implies ({ let e = #[trigger] t[x]; e.address }) != k by {
            assert(t[x] == s[x]);
        }
        lemma_account_latest(t, i, k);
    }
}

proof fn lemma_account_absent(s: Seq<AccountEntry>, k: Address)
    requires
        forall|x: int| 0 <= x < s.len() ==> ({ let e = #[trigger] s[x]; e.address }) != k,
    ensures
        !account_map(s).contains_key(k),
    decreases s.len(),
{
    if s.len() > 0 {
        let t = s.drop_last();
        assert forall|x: int| 0 <= x < t.len() implies ({ let e = #[trigger] t[x]; e.address }) != k by {
            assert(t[x] == s[x]);
        }
        lemma_account_absent(t, k);
    }
}

/// The keys of the account journal that do not belong to account `a`.
pub open spec fn account_keys_kept(a: Address) -> Set<Address> {
    Set::new(|k: Address| !(k == a))
}

/// What the journal of code writes says: the latest write of each key wins.
pub open spec fn code_map(s: Seq<CodeEntry>) -> Map<Address, Seq<u8>>
    decreases s.len(),
{
    if s.len() == 0 {
        Map::empty()
    } else {
        let e = s.last();
        code_map(s.drop_last()).insert(e.address, e.code@)
    }
}

proof fn lemma_code_latest(s: Seq<CodeEntry>, i: int, k: Address)
    requires
        0 <= i < s.len(),
        ({ let e = s[i]; e.address }) == k,
        forall|x: int| i < x < s.len() ==> ({ let e = #[trigger] s[x]; e.address }) != k,
    ensures
        code_map(s).contains_key(k),
        code_map(s)[k] == ({ let e = s[i]; e.code@ }),
    decreases s.len(),
{
    if i < s.len() - 1 {
        let t = s.drop_last();
        assert forall|x: int| i < x < t.len() implies ({ let e = #[trigger] t[x]; e.address }) != k by {
            assert(t[x] == s[x]);
        }
        lemma_code_latest(t, i, k);
    }
}

proof fn lemma_code_absent(s: Seq<CodeEntry>, k: Address)
    requires
        forall|x: int| 0 <= x < s.len() ==> ({ let e = #[trigger] s[x]; e.address }) != k,
    ensures
        !code_map(s).contains_key(k),
    decreases s.len(),
{
    if s.len() > 0 {
        let t = s.drop_last();
        assert forall|x: int| 0 <= x < t.len() implies ({ let e = #[trigger] t[x]; e.address }) != k by {
            assert(t[x] == s[x]);
        }
        lemma_code_absent(t, k);
    }
}

/// The keys of the code journal that do not belong to account `a`.
pub open spec fn code_keys_kept(a: Address) -> Set<Address> {
    Set::new(|k: Address| !(k == a))
}

/// What the journal of slot writes says: the latest write of each key wins.
pub open spec fn slot_map(s: Seq<StorageEntry>) -> Map<(Address, Word), Word>
    decreases s.len(),
{
    if s.len() == 0 {
        Map::empty()
    } else {
        let e = s.last();
        slot_map(s.drop_last()).insert((e.address, e.key), e.value)
    }
}

proof fn lemma_slot_latest(s: Seq<StorageEntry>, i: int, k: (Address, Word))
    requires
        0 <= i < s.len(),
        ({ let e = s[i]; (e.address, e.key) }) == k,
        forall|x: int| i < x < s.len() ==> ({ let e = #[trigger] s[x]; (e.address, e.key) }) != k,
    ensures
        slot_map(s).contains_key(k),
        slot_map(s)[k] == ({ let e = s[i]; e.value }),
    decreases s.len(),
{
    if i < s.len() - 1 {
        let t = s.drop_last();
        assert forall|x: int| i < x < t.len() implies ({ let e = #[trigger] t[x]; (e.address, e.key) }) != k by {
            assert(t[x] == s[x]);
        }
        lemma_slot_latest(t, i, k);
    }
}

proof fn lemma_slot_absent(s: Seq<StorageEntry>, k: (Address, Word))
    requires
        forall|x: int| 0 <= x < s.len() ==> ({ let e = #[trigger] s[x]; (e.address, e.key) }) != k,
    ensures
        !slot_map(s).contains_key(k),
    decreases s.len(),
{
    if s.len() > 0 {
        let t = s.drop_last();
        assert forall|x: int| 0 <= x < t.len() implies ({ let e = #[trigger] t[x]; (e.address, e.key) }) != k by {
            assert(t[x] == s[x]);
        }
        lemma_slot_absent(t, k);
    }
}

/// The keys of the slot journal that do not belong to account `a`.
pub open spec fn slot_keys_kept(a: Address) -> Set<(Address, Word)> {
    Set::new(|k: (Address, Word)| !(k.0 == a))
}

proof fn lemma_prefix_refl_w(w0: &WorldState, w1: &WorldState)
    requires
        w1.extends(w0) || (w1.trie@ == w0.trie@ && w1.codes@ == w0.codes@ && w1.storage@ == w0.storage@),
    ensures
        w1.extends(w0),
{
    assert(w0.trie@.subrange(0, w0.trie@.len() as int) == w0.trie@);
    assert(w0.codes@.subrange(0, w0.codes@.len() as int) == w0.codes@);
    assert(w0.storage@.subrange(0, w0.storage@.len() as int) == w0.storage@);
}

proof fn lemma_extends_trans(w0: &WorldState, w1: &WorldState, w2: &WorldState)
    requires
        w1.extends(w0),
        w2.extends(w1),
    ensures
        w2.extends(w0),
{
    assert(w2.trie@.subrange(0, w0.trie@.len() as int) == w1.trie@.subrange(0, w0.trie@.len() as int));
    assert(w2.codes@.subrange(0, w0.codes@.len() as int) == w1.codes@.subrange(0, w0.codes@.len() as int));
    assert(w2.storage@.subrange(0, w0.storage@.len() as int) == w1.storage@.subrange(
        0,
        w0.storage@.len() as int,
    ));
}

/// Where the journals stood at a checkpoint: a frame's writes are undone by
/// cutting the journals back to these lengths.
#[derive(Clone, Copy, PartialEq, Eq, Structural, Debug)]
pub struct Checkpoint {
    pub accounts: usize,
    pub codes: usize,
    pub slots: usize,
}

/// The account mapping, held as three journals of writes (accounts, code,
/// storage slots); in each the latest write of a key is its value. A storage
/// slot never written reads as zero, an account never written is absent.
pub struct WorldState {
    pub trie: Vec<AccountEntry>,
    pub codes: Vec<CodeEntry>,
    pub storage: Vec<StorageEntry>,
}

impl WorldState {
    pub open spec fn accounts(&self) -> Map<Address, AccountState> {
        account_map(self.trie@)
    }

    pub open spec fn code_map(&self) -> Map<Address, Seq<u8>> {
        code_map(self.codes@)
    }

    pub open spec fn slots(&self) -> Map<(Address, Word), Word> {
        slot_map(self.storage@)
    }

    /// The code of an account; none for an account without code.
    pub open spec fn code_of(&self, a: Address) -> Seq<u8> {
        if self.code_map().contains_key(a) {
            self.code_map()[a]
        } else {
            Seq::empty()
        }
    }

    /// The value of a storage slot; zero for one never written.
    pub open spec fn slot_value(&self, a: Address, key: Word) -> nat {
        if self.slots().contains_key((a, key)) {
            self.slots()[(a, key)].value()
        } else {
            0
        }
    }

    /// Every journal of `self` begins with the matching journal of `w`: `self`
    /// was reached from `w` by writes alone.
    pub open spec fn extends(&self, w: &WorldState) -> bool {
        w.trie@.is_prefix_of(self.trie@) && w.codes@.is_prefix_of(self.codes@) && w.storage@.is_prefix_of(
            self.storage@,
        )
    }

    /// The two states hold the same journals.
    pub open spec fn same(&self, w: &WorldState) -> bool {
        self.trie@ == w.trie@ && self.codes@ == w.codes@ && self.storage@ == w.storage@
    }

    /// Whether an account is empty: no nonce, no balance and no code. An account
    /// that does not exist counts as empty too.
    pub open spec fn is_empty_spec(&self, a: Address) -> bool {
        self.code_of(a).len() == 0 && (self.accounts().contains_key(a) ==> self.accounts()[a].nonce == 0
            && self.accounts()[a].balance.value() == 0)
    }

    pub fn new() -> (r: WorldState)
        ensures
            r.accounts() == Map::<Address, AccountState>::empty(),
            r.code_map() == Map::<Address, Seq<u8>>::empty(),
            r.slots() == Map::<(Address, Word), Word>::empty(),
    {
        WorldState { trie: Vec::new(), codes: Vec::new(), storage: Vec::new() }
    }

    /// The place in the journal of the latest write of the key, if any.
    fn find_account(&self, a: Address) -> (r: Option<usize>)
        ensures
            r.is_none() <==> !account_map(self.trie@).contains_key(a),
            r matches Some(i) ==> i < self.trie@.len() && account_map(self.trie@)[a] == ({ let e = self.trie@[i as int]; e.account }),
    {
        let mut i: usize = self.trie.len();
        while i > 0
            invariant
                i <= self.trie@.len(),
                forall|x: int| i <= x < self.trie@.len() ==> ({ let e = #[trigger] self.trie@[x]; e.address }) != a,
            decreases i,
        {
            i -= 1;
            let e = &self.trie[i];
            if e.address == a {
                proof {
                    lemma_account_latest(self.trie@, i as int, a);
                }
                return Some(i);
            }
        }
        proof {
            lemma_account_absent(self.trie@, a);
        }
        None
    }

    /// The place in the journal of the latest write of the key, if any.
    fn find_code(&self, a: Address) -> (r: Option<usize>)
        ensures
            r.is_none() <==> !code_map(self.codes@).contains_key(a),
            r matches Some(i) ==> i < self.codes@.len() && code_map(self.codes@)[a] == ({ let e = self.codes@[i as int]; e.code@ }),
    {
        let mut i: usize = self.codes.len();
        while i > 0
            invariant
                i <= self.codes@.len(),
                forall|x: int| i <= x < self.codes@.len() ==> ({ let e = #[trigger] self.codes@[x]; e.address }) != a,
            decreases i,
        {
            i -= 1;
            let e = &self.codes[i];
            if e.address == a {
                proof {
                    lemma_code_latest(self.codes@, i as int, a);
                }
                return Some(i);
            }
        }
        proof {
            lemma_code_absent(self.codes@, a);
        }
        None
    }

    /// The place in the journal of the latest write of the key, if any.
    fn find_slot(&self, a: Address, key: Word) -> (r: Option<usize>)
        ensures
            r.is_none() <==> !slot_map(self.storage@).contains_key((a, key)),
            r matches Some(i) ==> i < self.storage@.len() && slot_map(self.storage@)[(a, key)] == ({ let e = self.storage@[i as int]; e.value }),
    {
        let mut i: usize = self.storage.len();
        while i > 0
            invariant
                i <= self.storage@.len(),
                forall|x: int| i <= x < self.storage@.len() ==> ({ let e = #[trigger] self.storage@[x]; (e.address, e.key) }) != (a, key),
            decreases i,
        {
            i -= 1;
            let e = &self.storage[i];
            if e.address == a && e.key == key {
                proof {
                    lemma_slot_latest(self.storage@, i as int, (a, key));
                }
                return Some(i);
            }
        }
        proof {
            lemma_slot_absent(self.storage@, (a, key));
        }
        None
    }

    /// The account at an address, if it exists.
    pub fn get_account(&self, a: Address) -> (r: Option<AccountState>)
        ensures
            r == if self.accounts().contains_key(a) {
                Some(self.accounts()[a])
            } else {
                None
            },
    {
        match self.find_account(a) {
            Some(i) => Some(self.trie[i].account),
            None => None,
        }
    }

    /// Whether an account exists at the address.
    pub fn account_exists(&self, a: Address) -> (r: bool)
        ensures
            r == self.accounts().contains_key(a),
    {
        self.find_account(a).is_some()
    }

    /// The balance of an account, zero for one that does not exist.
    pub fn balance(&self, a: Address) -> (r: Word)
        ensures
            self.accounts().contains_key(a) ==> r == self.accounts()[a].balance,
            !self.accounts().contains_key(a) ==> r.value() == 0,
    {
        match self.find_account(a) {
            Some(i) => self.trie[i].account.balance,
            None => Word::zero(),
        }
    }

    /// The code of an account, empty for one without code.
    pub fn code(&self, a: Address) -> (r: Vec<u8>)
        ensures
            r@ == self.code_of(a),
    {
        match self.find_code(a) {
            Some(i) => {
                let c = self.codes[i].code.clone();
                assert(c@ =~= self.codes@[i as int].code@);
                c
            },
            None => Vec::new(),
        }
    }

    /// The value of a storage slot, zero for one never written.
    pub fn storage_at(&self, a: Address, key: Word) -> (r: Word)
        ensures
            r.value() == self.slot_value(a, key),
    {
        match self.find_slot(a, key) {
            Some(i) => self.storage[i].value,
            None => Word::zero(),
        }
    }

    /// The balance of an account, zero for one that does not exist.
    pub open spec fn balance_of(&self, a: Address) -> nat {
        if self.accounts().contains_key(a) {
            self.accounts()[a].balance.value()
        } else {
            0
        }
    }

    /// The nonce of an account, zero for one that does not exist.
    pub open spec fn nonce_of(&self, a: Address) -> nat {
        if self.accounts().contains_key(a) {
            self.accounts()[a].nonce as nat
        } else {
            0
        }
    }

    /// Moves `value` wei from one account to another, creating the receiving
    /// account if it does not exist. The sender must hold the value.
    pub fn transfer(&mut self, from: Address, to: Address, value: Word)
        requires
            value.value() <= old(self).balance_of(from),
        ensures
            final(self).extends(old(self)),
            final(self).accounts().contains_key(to),
            final(self).accounts().contains_key(from),
            from != to ==> final(self).balance_of(from) == old(self).balance_of(from) - value.value(),
            from != to ==> final(self).balance_of(to) == (old(self).balance_of(to) + value.value())
                % crate::word::word_modulus(),
            from == to ==> final(self).balance_of(from) == old(self).balance_of(from),
            final(self).nonce_of(from) == old(self).nonce_of(from),
            final(self).nonce_of(to) == old(self).nonce_of(to),
            forall|b: Address| b != from && b != to ==> #[trigger] final(self).accounts().contains_key(b)
                == old(self).accounts().contains_key(b) && final(self).accounts()[b] == old(self).accounts()[b],
            final(self).code_map() == old(self).code_map(),
            final(self).slots() == old(self).slots(),
    {
        let ghost w0 = *self;
        let sender = match self.get_account(from) {
            Some(acc) => acc,
            None => AccountState { nonce: 0, balance: Word::zero() },
        };
        let receiver = match self.get_account(to) {
            Some(acc) => acc,
            None => AccountState { nonce: 0, balance: Word::zero() },
        };
        proof {
            crate::word::lemma_value_bound(value);
            crate::word::lemma_value_bound(sender.balance);
            vstd::arithmetic::div_mod::lemma_small_mod(
                (sender.balance.value() - value.value()) as nat,
                crate::word::word_modulus(),
            );
            vstd::arithmetic::div_mod::lemma_mod_add_multiples_vanish(
                sender.balance.value() - value.value(),
                crate::word::word_modulus() as int,
            );
        }
        if from == to {
            self.set_account(to, receiver);
            proof {
                assert(self.accounts()[to] == w0.accounts()[to] || !w0.accounts().contains_key(to));
                lemma_prefix_refl_w(&w0, self);
            }
            return;
        }
        let ghost w1 = *self;
        self.set_account(from, AccountState { nonce: sender.nonce, balance: sender.balance.wrapping_sub(value) });
        let ghost w2 = *self;
        self.set_account(to, AccountState { nonce: receiver.nonce, balance: receiver.balance.wrapping_add(value) });
        proof {
            assert(w1 == w0);
            lemma_extends_trans(&w0, &w2, self);
        }
    }

    /// Whether an account is empty (see `is_empty_spec`).
    pub fn is_empty(&self, a: Address) -> (r: bool)
        ensures
            r == self.is_empty_spec(a),
    {
        let code = self.code(a);
        if code.len() != 0 {
            return false;
        }
        match self.get_account(a) {
            Some(acc) => acc.nonce == 0 && acc.balance.is_zero(),
            None => true,
        }
    }

    /// Writes an account's nonce and balance.
    pub fn set_account(&mut self, a: Address, acc: AccountState)
        ensures
            final(self).accounts() == old(self).accounts().insert(a, acc),
            final(self).codes == old(self).codes,
            final(self).storage == old(self).storage,
            final(self).extends(old(self)),
    {
        self.trie.push(AccountEntry { address: a, account: acc });
        proof {
            assert(self.trie@.drop_last() == old(self).trie@);
        }
    }

    /// Writes an account's code.
    pub fn set_code(&mut self, a: Address, code: Vec<u8>)
        ensures
            final(self).code_map() == old(self).code_map().insert(a, code@),
            final(self).trie == old(self).trie,
            final(self).storage == old(self).storage,
            final(self).extends(old(self)),
    {
        self.codes.push(CodeEntry { address: a, code });
        proof {
            assert(self.codes@.drop_last() == old(self).codes@);
        }
    }

    /// Writes a storage slot.
    pub fn set_storage(&mut self, a: Address, key: Word, value: Word)
        ensures
            final(self).slots() == old(self).slots().insert((a, key), value),
            final(self).trie == old(self).trie,
            final(self).codes == old(self).codes,
            final(self).extends(old(self)),
    {
        self.storage.push(StorageEntry { address: a, key, value });
        proof {
            assert(self.storage@.drop_last() == old(self).storage@);
        }
    }

    /// Where the journals stand now.
    pub fn checkpoint(&self) -> (r: Checkpoint)
        ensures
            r.accounts == self.trie@.len(),
            r.codes == self.codes@.len(),
            r.slots == self.storage@.len(),
    {
        Checkpoint { accounts: self.trie.len(), codes: self.codes.len(), slots: self.storage.len() }
    }

    /// Undoes every write made since the checkpoint.
    pub fn revert_to(&mut self, cp: Checkpoint)
        requires
            cp.accounts <= old(self).trie@.len(),
            cp.codes <= old(self).codes@.len(),
            cp.slots <= old(self).storage@.len(),
        ensures
            final(self).trie@ == old(self).trie@.subrange(0, cp.accounts as int),
            final(self).codes@ == old(self).codes@.subrange(0, cp.codes as int),
            final(self).storage@ == old(self).storage@.subrange(0, cp.slots as int),
    {
        self.trie.truncate(cp.accounts);
        self.codes.truncate(cp.codes);
        self.storage.truncate(cp.slots);
    }

    /// Writes the journal of account entries anew, without those of account `a`.
    fn drop_accounts(&mut self, a: Address)
        ensures
            account_map(final(self).trie@) == account_map(old(self).trie@).restrict(account_keys_kept(a)),
            final(self).codes == old(self).codes,
            final(self).storage == old(self).storage,
    {
        let mut out: Vec<AccountEntry> = Vec::new();
        let mut i: usize = 0;
        while i < self.trie.len()
            invariant
                i <= self.trie@.len(),
                account_map(out@) == account_map(self.trie@.take(i as int)).restrict(account_keys_kept(a)),
            decreases self.trie@.len() - i,
        {
            let e = &self.trie[i];
            let keep = !(e.address == a);
            proof {
                let s = self.trie@.take(i as int + 1);
                assert(s.drop_last() == self.trie@.take(i as int));
                assert(s.last() == self.trie@[i as int]);
            }
            if keep {
                let ghost before = out@;
                out.push(e.clone_entry());
                proof {
                    assert(out@.drop_last() == before);
                    assert(account_map(out@) =~= account_map(self.trie@.take(i as int + 1)).restrict(account_keys_kept(a)));
                }
            } else {
                proof {
                    assert(account_map(out@) =~= account_map(self.trie@.take(i as int + 1)).restrict(account_keys_kept(a)));
                }
            }
            i += 1;
        }
        proof {
            assert(self.trie@.take(self.trie@.len() as int) == self.trie@);
        }
        self.trie = out;
    }

    /// Writes the journal of code entries anew, without those of account `a`.
    fn drop_codes(&mut self, a: Address)
        ensures
            code_map(final(self).codes@) == code_map(old(self).codes@).restrict(code_keys_kept(a)),
            final(self).trie == old(self).trie,
            final(self).storage == old(self).storage,
    {
        let mut out: Vec<CodeEntry> = Vec::new();
        let mut i: usize = 0;
        while i < self.codes.len()
            invariant
                i <= self.codes@.len(),
                code_map(out@) == code_map(self.codes@.take(i as int)).restrict(code_keys_kept(a)),
            decreases self.codes@.len() - i,
        {
            let e = &self.codes[i];
            let keep = !(e.address == a);
            proof {
                let s = self.codes@.take(i as int + 1);
                assert(s.drop_last() == self.codes@.take(i as int));
                assert(s.last() == self.codes@[i as int]);
            }
            if keep {
                let ghost before = out@;
                out.push(e.clone_entry());
                proof {
                    assert(out@.drop_last() == before);
                    assert(code_map(out@) =~= code_map(self.codes@.take(i as int + 1)).restrict(code_keys_kept(a)));
                }
            } else {
                proof {
                    assert(code_map(out@) =~= code_map(self.codes@.take(i as int + 1)).restrict(code_keys_kept(a)));
                }
            }
            i += 1;
        }
        proof {
            assert(self.codes@.take(self.codes@.len() as int) == self.codes@);
        }
        self.codes = out;
    }

    /// Writes the journal of slot entries anew, without those of account `a`.
    fn drop_slots(&mut self, a: Address)
        ensures
            slot_map(final(self).storage@) == slot_map(old(self).storage@).restrict(slot_keys_kept(a)),
            final(self).trie == old(self).trie,
            final(self).codes == old(self).codes,
    {
        let mut out: Vec<StorageEntry> = Vec::new();
        let mut i: usize = 0;
        while i < self.storage.len()
            invariant
                i <= self.storage@.len(),
                slot_map(out@) == slot_map(self.storage@.take(i as int)).restrict(slot_keys_kept(a)),
            decreases self.storage@.len() - i,
        {
            let e = &self.storage[i];
            let keep = !(e.address == a);
            proof {
                let s = self.storage@.take(i as int + 1);
                assert(s.drop_last() == self.storage@.take(i as int));
                assert(s.last() == self.storage@[i as int]);
            }
            if keep {
                let ghost before = out@;
                out.push(e.clone_entry());
                proof {
                    assert(out@.drop_last() == before);
                    assert(slot_map(out@) =~= slot_map(self.storage@.take(i as int + 1)).restrict(slot_keys_kept(a)));
                }
            } else {
                proof {
                    assert(slot_map(out@) =~= slot_map(self.storage@.take(i as int + 1)).restrict(slot_keys_kept(a)));
                }
            }
            i += 1;
        }
        proof {
            assert(self.storage@.take(self.storage@.len() as int) == self.storage@);
        }
        self.storage = out;
    }

    /// Deletes an account: its nonce, balance, code and storage.
    pub fn remove_account(&mut self, a: Address)
        ensures
            final(self).accounts() == old(self).accounts().restrict(account_keys_kept(a)),
            final(self).code_map() == old(self).code_map().restrict(code_keys_kept(a)),
            final(self).slots() == old(self).slots().restrict(slot_keys_kept(a)),
            !final(self).accounts().contains_key(a),
            forall|b: Address| #[trigger] final(self).accounts().contains_key(b) ==> old(self).accounts().contains_key(b)
                && final(self).accounts()[b] == old(self).accounts()[b],
            forall|b: Address| #[trigger] final(self).code_map().contains_key(b) ==> old(self).code_map().contains_key(b)
                && final(self).code_map()[b] == old(self).code_map()[b],
            forall|b: Address| b != a ==> #[trigger] final(self).code_of(b) == old(self).code_of(b),
            forall|b: Address| b != a ==> (#[trigger] final(self).accounts().contains_key(b) == old(self).accounts().contains_key(b)),
    {
        self.drop_accounts(a);
        self.drop_codes(a);
        self.drop_slots(a);
    }
}

/// One log record: the account that emitted it, its topics and its data.
pub struct LogEntry {
    pub address: Address,
    pub topics: Vec<Word>,
    pub data: Vec<u8>,
}

/// Where the rolled-back parts of the substate stood at a checkpoint.
#[derive(Clone, Copy, PartialEq, Eq, Structural, Debug)]
pub struct SubCheckpoint {
    pub self_destructs: usize,
    pub logs: usize,
    pub touched: usize,
    pub refund: u64,
    pub cleared: usize,
}

/// What a transaction accrues across all its frames. The two access sets only
/// ever grow, even when a frame that grew them fails.
pub struct SubState {
    pub self_destruct_set: Vec<Address>,
    pub logs: Vec<LogEntry>,
    pub touched_accounts: Vec<Address>,
    pub refund: u64,
    pub accessed_accounts: Vec<Address>,
    pub accessed_storage: Vec<(Address, Word)>,
    /// The slots whose clearing earned a refund in this transaction.
    pub cleared_slots: Vec<(Address, Word)>,
}

/// Whether `a` is in the list.
fn contains_address(v: &Vec<Address>, a: Address) -> (r: bool)
    ensures
        r == v@.contains(a),
{
    let mut i: usize = 0;
    while i < v.len()
        invariant
            i <= v@.len(),
            forall|j: int| 0 <= j < i ==> v@[j] != a,
        decreases v@.len() - i,
    {
        if v[i] == a {
            return true;
        }
        i += 1;
    }
    false
}

/// Adds `a` to the list unless it is there; says whether it was.
fn insert_address(v: &mut Vec<Address>, a: Address) -> (r: bool)
    ensures
        r == old(v)@.contains(a),
        final(v)@.contains(a),
        old(v)@.is_prefix_of(final(v)@),
        forall|b: Address| final(v)@.contains(b) ==> b == a || old(v)@.contains(b),
        old(v)@.no_duplicates() ==> final(v)@.no_duplicates(),
{
    if contains_address(v, a) {
        assert(v@.is_prefix_of(v@)) by {
            assert(v@.subrange(0, v@.len() as int) == v@);
        }
        true
    } else {
        v.push(a);
        assert(v@[v@.len() - 1] == a);
        assert(old(v)@ == v@.subrange(0, old(v)@.len() as int));
        assert forall|b: Address| v@.contains(b) implies b == a || old(v)@.contains(b) by {
            let j = choose|j: int| 0 <= j < v@.len() && v@[j] == b;
            if j < old(v)@.len() {
                assert(old(v)@[j] == b);
            }
        }
        assert(old(v)@.no_duplicates() ==> v@.no_duplicates()) by {
            if old(v)@.no_duplicates() {
                assert forall|x: int, y: int| 0 <= x < v@.len() && 0 <= y < v@.len() && x != y implies v@[x]
                    != v@[y] by {
                    if x == v@.len() - 1 {
                        assert(old(v)@[y] == v@[y]);
                    } else if y == v@.len() - 1 {
                        assert(old(v)@[x] == v@[x]);
                    } else {
                        assert(old(v)@[x] == v@[x] && old(v)@[y] == v@[y]);
                    }
                }
            }
        }
        false
    }
}

impl SubState {
    /// The substate's invariant: each of its address and slot lists holds
    /// every entry at most once.
    pub open spec fn wf(&self) -> bool {
        &&& self.self_destruct_set@.no_duplicates()
        &&& self.touched_accounts@.no_duplicates()
        &&& self.accessed_accounts@.no_duplicates()
        &&& self.accessed_storage@.no_duplicates()
    }

    pub fn new() -> (r: SubState)
        ensures
            r.wf(),
            r.self_destruct_set@.len() == 0,
            r.logs@.len() == 0,
            r.touched_accounts@.len() == 0,
            r.refund == 0,
            r.accessed_accounts@.len() == 0,
            r.accessed_storage@.len() == 0,
            r.cleared_slots@.len() == 0,
    {
        SubState {
            self_destruct_set: Vec::new(),
            logs: Vec::new(),
            touched_accounts: Vec::new(),
            refund: 0,
            accessed_accounts: Vec::new(),
            accessed_storage: Vec::new(),
            cleared_slots: Vec::new(),
        }
    }

    /// `self` was reached from `o` by growing the access sets alone, or by more.
    pub open spec fn access_grows(&self, o: &SubState) -> bool {
        o.accessed_accounts@.is_prefix_of(self.accessed_accounts@) && o.accessed_storage@.is_prefix_of(
            self.accessed_storage@,
        )
    }

    /// Marks an account accessed; says whether it was already (warm).
    pub fn access_account(&mut self, a: Address) -> (r: bool)
        ensures
            r == old(self).accessed_accounts@.contains(a),
            final(self).accessed_accounts@.contains(a),
            final(self).access_grows(old(self)),
            final(self).accessed_storage == old(self).accessed_storage,
            final(self).self_destruct_set == old(self).self_destruct_set,
            final(self).logs == old(self).logs,
            final(self).touched_accounts == old(self).touched_accounts,
            final(self).refund == old(self).refund,
            old(self).wf() ==> final(self).wf(),
            final(self).cleared_slots == old(self).cleared_slots,
    {
        let r = insert_address(&mut self.accessed_accounts, a);
        assert(self.accessed_storage@.subrange(0, self.accessed_storage@.len() as int)
            == self.accessed_storage@);
        r
    }

    /// Marks a storage slot accessed; says whether it was already (warm).
    pub fn access_slot(&mut self, a: Address, key: Word) -> (r: bool)
        ensures
            r == old(self).accessed_storage@.contains((a, key)),
            final(self).accessed_storage@.contains((a, key)),
            final(self).access_grows(old(self)),
            final(self).accessed_accounts == old(self).accessed_accounts,
            final(self).self_destruct_set == old(self).self_destruct_set,
            final(self).logs == old(self).logs,
            final(self).touched_accounts == old(self).touched_accounts,
            final(self).refund == old(self).refund,
            old(self).wf() ==> final(self).wf(),
            final(self).cleared_slots == old(self).cleared_slots,
    {
        let mut i: usize = 0;
        while i < self.accessed_storage.len()
            invariant
                i <= self.accessed_storage@.len(),
                forall|j: int| 0 <= j < i ==> self.accessed_storage@[j] != (a, key),
            decreases self.accessed_storage@.len() - i,
        {
            let e = self.accessed_storage[i];
            if e.0 == a && e.1 == key {
                assert(self.accessed_storage@[i as int] == (a, key));
                assert(self.accessed_storage@.subrange(0, self.accessed_storage@.len() as int)
                    == self.accessed_storage@);
                assert(self.accessed_accounts@.subrange(0, self.accessed_accounts@.len() as int)
                    == self.accessed_accounts@);
                return true;
            }
            i += 1;
        }
        self.accessed_storage.push((a, key));
        assert(self.accessed_storage@[self.accessed_storage@.len() - 1] == (a, key));
        assert(old(self).accessed_storage@.no_duplicates() ==> self.accessed_storage@.no_duplicates()) by {
            let v = self.accessed_storage@;
            let o = old(self).accessed_storage@;
            if o.no_duplicates() {
                assert forall|x: int, y: int| 0 <= x < v.len() && 0 <= y < v.len() && x != y implies v[x] != v[y] by {
                    if x == v.len() - 1 {
                        assert(o[y] == v[y]);
                    } else if y == v.len() - 1 {
                        assert(o[x] == v[x]);
                    } else {
                        assert(o[x] == v[x] && o[y] == v[y]);
                    }
                }
            }
        }
        assert(old(self).accessed_storage@ == self.accessed_storage@.subrange(
            0,
            old(self).accessed_storage@.len() as int,
        ));
        assert(self.accessed_accounts@.subrange(0, self.accessed_accounts@.len() as int)
            == self.accessed_accounts@);
        false
    }

    /// Records that an account was touched.
    pub fn touch(&mut self, a: Address)
        ensures
            final(self).touched_accounts@.contains(a),
            forall|b: Address| #[trigger] old(self).touched_accounts@.contains(b) ==> final(self).touched_accounts@.contains(b),
            old(self).touched_accounts@.is_prefix_of(final(self).touched_accounts@),
            final(self).accessed_accounts == old(self).accessed_accounts,
            final(self).accessed_storage == old(self).accessed_storage,
            final(self).self_destruct_set == old(self).self_destruct_set,
            final(self).logs == old(self).logs,
            final(self).refund == old(self).refund,
            old(self).wf() ==> final(self).wf(),
            final(self).cleared_slots == old(self).cleared_slots,
    {
        insert_address(&mut self.touched_accounts, a);
        assert forall|b: Address| #[trigger] old(self).touched_accounts@.contains(b) implies self.touched_accounts@.contains(b) by {
            let j = choose|j: int| 0 <= j < old(self).touched_accounts@.len() && old(self).touched_accounts@[j] == b;
            assert(self.touched_accounts@[j] == b);
        }
    }

    /// Schedules an account for deletion when the transaction settles.
    pub fn schedule_destruct(&mut self, a: Address)
        ensures
            final(self).self_destruct_set@.contains(a),
            forall|b: Address| #[trigger] old(self).self_destruct_set@.contains(b) ==> final(self).self_destruct_set@.contains(b),
            old(self).self_destruct_set@.is_prefix_of(final(self).self_destruct_set@),
            final(self).accessed_accounts == old(self).accessed_accounts,
            final(self).accessed_storage == old(self).accessed_storage,
            final(self).touched_accounts == old(self).touched_accounts,
            final(self).logs == old(self).logs,
            final(self).refund == old(self).refund,
            old(self).wf() ==> final(self).wf(),
            final(self).cleared_slots == old(self).cleared_slots,
    {
        insert_address(&mut self.self_destruct_set, a);
        assert forall|b: Address| #[trigger] old(self).self_destruct_set@.contains(b) implies self.self_destruct_set@.contains(b) by {
            let j = choose|j: int| 0 <= j < old(self).self_destruct_set@.len() && old(self).self_destruct_set@[j] == b;
            assert(self.self_destruct_set@[j] == b);
        }
    }

    /// Where the parts that a failed frame rolls back stand now.
    pub fn checkpoint(&self) -> (r: SubCheckpoint)
        ensures
            r.self_destructs == self.self_destruct_set@.len(),
            r.logs == self.logs@.len(),
            r.touched == self.touched_accounts@.len(),
            r.refund == self.refund,
            r.cleared == self.cleared_slots@.len(),
    {
        SubCheckpoint {
            self_destructs: self.self_destruct_set.len(),
            logs: self.logs.len(),
            touched: self.touched_accounts.len(),
            refund: self.refund,
            cleared: self.cleared_slots.len(),
        }
    }

    /// Rolls back the self-destructs, logs, touches and refund made since the
    /// checkpoint; the access sets stay as they are.
    pub fn revert_to(&mut self, cp: SubCheckpoint)
        ensures
            final(self).self_destruct_set@ == if cp.self_destructs <= old(self).self_destruct_set@.len() {
                old(self).self_destruct_set@.subrange(0, cp.self_destructs as int)
            } else {
                old(self).self_destruct_set@
            },
            final(self).logs@ == if cp.logs <= old(self).logs@.len() {
                old(self).logs@.subrange(0, cp.logs as int)
            } else {
                old(self).logs@
            },
            final(self).touched_accounts@ == if cp.touched <= old(self).touched_accounts@.len() {
                old(self).touched_accounts@.subrange(0, cp.touched as int)
            } else {
                old(self).touched_accounts@
            },
            final(self).refund == cp.refund,
            final(self).cleared_slots@ == if cp.cleared <= old(self).cleared_slots@.len() {
                old(self).cleared_slots@.subrange(0, cp.cleared as int)
            } else {
                old(self).cleared_slots@
            },
            final(self).accessed_accounts == old(self).accessed_accounts,
            final(self).accessed_storage == old(self).accessed_storage,
    {
        self.self_destruct_set.truncate(cp.self_destructs);
        self.logs.truncate(cp.logs);
        self.touched_accounts.truncate(cp.touched);
        self.refund = cp.refund;
        self.cleared_slots.truncate(cp.cleared);
    }
}

/// `a` is not among the first `n` entries of `s`.
pub open spec fn absent_before(s: Seq<Address>, n: int, a: Address) -> bool {
    forall|j: int| 0 <= j < n ==> s[j] != a
}

/// Whether the slot is in the list.
pub fn contains_slot(v: &Vec<(Address, Word)>, a: Address, key: Word) -> (r: bool)
    ensures
        r == v@.contains((a, key)),
{
    let mut i: usize = 0;
    while i < v.len()
        invariant
            i <= v@.len(),
            forall|j: int| 0 <= j < i ==> v@[j] != (a, key),
        decreases v@.len() - i,
    {
        let e = v[i];
        if e.0 == a && e.1 == key {
            assert(v@[i as int] == (a, key));
            return true;
        }
        i += 1;
    }
    false
}

/// Applies the end-of-transaction deletions: every account scheduled for
/// self-destruction goes, and every touched account that is then empty goes.
pub fn settle(world: &mut WorldState, sub: &SubState)
    ensures
        forall|a: Address| #[trigger] sub.self_destruct_set@.contains(a) ==> !final(world).accounts().contains_key(a),
        forall|a: Address| #[trigger] sub.touched_accounts@.contains(a) && old(world).is_empty_spec(a)
            ==> !final(world).accounts().contains_key(a),
        forall|a: Address| #[trigger] final(world).accounts().contains_key(a) ==> old(world).accounts().contains_key(a)
            && final(world).accounts()[a] == old(world).accounts()[a],
        forall|a: Address| #[trigger] sub.touched_accounts@.contains(a) && final(world).accounts().contains_key(a)
            ==> !final(world).is_empty_spec(a),
        forall|a: Address| #[trigger] old(world).accounts().contains_key(a) && !sub.self_destruct_set@.contains(a)
            && !(sub.touched_accounts@.contains(a) && old(world).is_empty_spec(a)) ==> final(world).accounts().contains_key(a),
        forall|a: Address| #[trigger] final(world).accounts().contains_key(a) ==> final(world).code_of(a) == old(world).code_of(a),
{
    let mut i: usize = 0;
    while i < sub.self_destruct_set.len()
        invariant
            i <= sub.self_destruct_set@.len(),
            forall|j: int| 0 <= j < i ==> !world.accounts().contains_key(#[trigger] sub.self_destruct_set@[j]),
            forall|a: Address| #[trigger] world.accounts().contains_key(a) ==> world.code_of(a) == old(world).code_of(a),
            forall|a: Address| #[trigger] world.accounts().contains_key(a) ==> old(world).accounts().contains_key(a)
                && world.accounts()[a] == old(world).accounts()[a],
            forall|a: Address| #[trigger] world.code_map().contains_key(a) ==> old(world).code_map().contains_key(a)
                && world.code_map()[a] == old(world).code_map()[a],
            forall|a: Address| #[trigger] old(world).accounts().contains_key(a) && absent_before(sub.self_destruct_set@, i as int, a)
                ==> world.accounts().contains_key(a),
        decreases sub.self_destruct_set@.len() - i,
    {
        world.remove_account(sub.self_destruct_set[i]);
        i += 1;
    }
    assert forall|a: Address| #[trigger] old(world).accounts().contains_key(a) && !sub.self_destruct_set@.contains(a)
        implies world.accounts().contains_key(a) by {
        assert forall|j: int| 0 <= j < i implies sub.self_destruct_set@[j] != a by {
            if sub.self_destruct_set@[j] == a {
                assert(sub.self_destruct_set@.contains(a));
            }
        }
        assert(old(world).accounts().contains_key(a) && absent_before(sub.self_destruct_set@, i as int, a));
    }
    let mut k: usize = 0;
    while k < sub.touched_accounts.len()
        invariant
            k <= sub.touched_accounts@.len(),
            forall|a: Address| #[trigger] sub.self_destruct_set@.contains(a) ==> !world.accounts().contains_key(a),
            forall|j: int| 0 <= j < k && old(world).is_empty_spec(#[trigger] sub.touched_accounts@[j])
                ==> !world.accounts().contains_key(sub.touched_accounts@[j]),
            forall|a: Address| #[trigger] world.accounts().contains_key(a) ==> world.code_of(a) == old(world).code_of(a),
            forall|a: Address| #[trigger] world.accounts().contains_key(a) ==> old(world).accounts().contains_key(a)
                && world.accounts()[a] == old(world).accounts()[a],
            forall|a: Address| #[trigger] world.code_map().contains_key(a) ==> old(world).code_map().contains_key(a)
                && world.code_map()[a] == old(world).code_map()[a],
            forall|a: Address| #[trigger] old(world).accounts().contains_key(a) && !sub.self_destruct_set@.contains(a)
                && (absent_before(sub.touched_accounts@, k as int, a) || !old(world).is_empty_spec(a))
                ==> world.accounts().contains_key(a),
        decreases sub.touched_accounts@.len() - k,
    {
        let a = sub.touched_accounts[k];
        if world.is_empty(a) {
            world.remove_account(a);
        } else {
            assert(!old(world).is_empty_spec(a)) by {
                if old(world).is_empty_spec(a) {
                    if world.code_map().contains_key(a) {
                        assert(world.code_of(a) == old(world).code_of(a));
                    }
                }
            }
        }
        k += 1;
    }
    assert forall|a: Address| #[trigger] sub.touched_accounts@.contains(a) && old(world).is_empty_spec(a)
        implies !world.accounts().contains_key(a) by {
        let j = choose|j: int| 0 <= j < sub.touched_accounts@.len() && sub.touched_accounts@[j] == a;
    }
    assert forall|a: Address| #[trigger] old(world).accounts().contains_key(a) && !sub.self_destruct_set@.contains(a)
        && !(sub.touched_accounts@.contains(a) && old(world).is_empty_spec(a)) implies world.accounts().contains_key(a) by {
        assert forall|j: int| 0 <= j < k && old(world).is_empty_spec(a) implies sub.touched_accounts@[j] != a by {
            if sub.touched_accounts@[j] == a {
                assert(sub.touched_accounts@.contains(a));
            }
        }
        assert(old(world).accounts().contains_key(a) && !sub.self_destruct_set@.contains(a) && (absent_before(sub.touched_accounts@, k as int, a) || !old(world).is_empty_spec(a)));
    }
    assert forall|a: Address| #[trigger] sub.touched_accounts@.contains(a) && world.accounts().contains_key(a)
        implies !world.is_empty_spec(a) by {
        if world.is_empty_spec(a) {
            assert(old(world).is_empty_spec(a));
        }
    }
}

/// The machine state of one frame: gas left, program counter, memory (always
/// a whole number of 32-byte words, `i` of them), stack and return buffer.
pub struct EVMState {
    pub gas: u64,
    pub pc: usize,
    pub m: Vec<u8>,
    pub i: u64,
    pub s: Vec<Word>,
    pub o: Vec<u8>,
}

/// The deepest the stack may grow.
pub const STACK_LIMIT: usize = 1024;

impl EVMState {
    /// The state's invariant: stack within its limit, memory a whole number of
    /// words within the addressable bound.
    pub open spec fn wf(&self) -> bool {
        &&& self.s@.len() <= STACK_LIMIT
        &&& self.i <= MAX_MEMORY_WORDS
        &&& self.m@.len() == 32 * self.i
    }

    pub fn new() -> (r: EVMState)
        ensures
            r.wf(),
            r.gas == 0,
            r.pc == 0,
            r.s@.len() == 0,
            r.m@.len() == 0,
            r.o@.len() == 0,
    {
        EVMState { gas: 0, pc: 0, m: Vec::new(), i: 0, s: Vec::new(), o: Vec::new() }
    }
}

} // verus!
