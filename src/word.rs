use ruint::aliases::U256;
use vstd::prelude::*;

verus! {

/// 2^64, the base of one limb.
pub open spec fn limb_base() -> nat {
    0x1_0000_0000_0000_0000nat
}

/// 2^256, the modulus of machine-word arithmetic.
pub open spec fn word_modulus() -> nat {
    limb_base() * limb_base() * limb_base() * limb_base()
}

/// The unsigned integer that a byte sequence spells, most significant byte first.
pub open spec fn be_value(s: Seq<u8>) -> nat
    decreases s.len(),
{
    if s.len() == 0 {
        0
    } else {
        be_value(s.drop_last()) * 256 + s.last() as nat
    }
}

/// A 256-bit machine word, held as four 64-bit limbs, least significant first.
#[derive(Clone, Copy, PartialEq, Eq, Structural, Debug)]
pub struct Word {
    pub l0: u64,
    pub l1: u64,
    pub l2: u64,
    pub l3: u64,
}

impl Word {
    /// The unsigned integer the word stands for.
    pub open spec fn value(self) -> nat {
        self.l0 as nat + limb_base() * (self.l1 as nat + limb_base() * (self.l2 as nat
            + limb_base() * self.l3 as nat))
    }

    pub fn zero() -> (r: Word)
        ensures
            r.value() == 0,
    {
        Word { l0: 0, l1: 0, l2: 0, l3: 0 }
    }

    pub fn from_u64(x: u64) -> (r: Word)
        ensures
            r.value() == x as nat,
    {
        Word { l0: x, l1: 0, l2: 0, l3: 0 }
    }

    /// Relies on ruint's `Uint::wrapping_add`: the sum modulo 2^256.
    #[verifier::external_body]
    pub(crate) fn wrapping_add(self, o: Word) -> (r: Word)
        ensures
            r.value() == (self.value() + o.value()) % word_modulus(),
    {
        let x = U256::from_limbs([self.l0, self.l1, self.l2, self.l3]);
        let y = U256::from_limbs([o.l0, o.l1, o.l2, o.l3]);
        let l = x.wrapping_add(y).into_limbs();
        Word { l0: l[0], l1: l[1], l2: l[2], l3: l[3] }
    }

    /// Relies on ruint's `Uint::wrapping_sub`: the difference modulo 2^256.
    #[verifier::external_body]
    pub(crate) fn wrapping_sub(self, o: Word) -> (r: Word)
        ensures
            r.value() == (self.value() + word_modulus() - o.value()) % (word_modulus() as int),
    {
        let x = U256::from_limbs([self.l0, self.l1, self.l2, self.l3]);
        let y = U256::from_limbs([o.l0, o.l1, o.l2, o.l3]);
        let l = x.wrapping_sub(y).into_limbs();
        Word { l0: l[0], l1: l[1], l2: l[2], l3: l[3] }
    }

    /// Relies on ruint's `Uint::wrapping_mul`: the product modulo 2^256.
    #[verifier::external_body]
    pub(crate) fn wrapping_mul(self, o: Word) -> (r: Word)
        ensures
            r.value() == (self.value() * o.value()) % word_modulus(),
    {
        let x = U256::from_limbs([self.l0, self.l1, self.l2, self.l3]);
        let y = U256::from_limbs([o.l0, o.l1, o.l2, o.l3]);
        let l = x.wrapping_mul(y).into_limbs();
        Word { l0: l[0], l1: l[1], l2: l[2], l3: l[3] }
    }

    /// Relies on ruint's `Uint::checked_div`: `None` for a zero divisor, else the
    /// quotient rounded down.
    #[verifier::external_body]
    pub(crate) fn checked_div(self, o: Word) -> (r: Option<Word>)
        ensures
            o.value() == 0 <==> r.is_none(),
            r matches Some(q) ==> q.value() == self.value() / o.value(),
    {
        let x = U256::from_limbs([self.l0, self.l1, self.l2, self.l3]);
        let y = U256::from_limbs([o.l0, o.l1, o.l2, o.l3]);
        match x.checked_div(y) {
            Some(q) => {
                let l = q.into_limbs();
                Some(Word { l0: l[0], l1: l[1], l2: l[2], l3: l[3] })
            },
            None => None,
        }
    }

    /// Relies on ruint's `Uint` ordering (`<`): unsigned comparison.
    #[verifier::external_body]
    pub(crate) fn lt(self, o: Word) -> (r: bool)
        ensures
            r == (self.value() < o.value()),
    {
        let x = U256::from_limbs([self.l0, self.l1, self.l2, self.l3]);
        let y = U256::from_limbs([o.l0, o.l1, o.l2, o.l3]);
        x < y
    }

    /// Relies on ruint's `Uint::from_be_slice`: reads at most 32 bytes as a
    /// big-endian number (it panics only on a longer slice's overflow).
    #[verifier::external_body]
    pub(crate) fn from_be_slice(b: &[u8]) -> (r: Word)
        requires
            b@.len() <= 32,
        ensures
            r.value() == be_value(b@),
    {
        let l = U256::from_be_slice(b).into_limbs();
        Word { l0: l[0], l1: l[1], l2: l[2], l3: l[3] }
    }

    /// Relies on ruint's `Uint::to_be_bytes_vec`: the 32 big-endian bytes of the word.
    #[verifier::external_body]
    pub(crate) fn to_be_bytes(self) -> (r: Vec<u8>)
        ensures
            r@.len() == 32,
            be_value(r@) == self.value(),
    {
        U256::from_limbs([self.l0, self.l1, self.l2, self.l3]).to_be_bytes_vec()
    }

    /// The word as a `u64`, when its value fits in one.
    pub fn to_u64(self) -> (r: Option<u64>)
        ensures
            r matches Some(x) ==> x as nat == self.value(),
            r.is_none() <==> self.value() > u64::MAX as nat,
    {
        if self.l1 == 0 && self.l2 == 0 && self.l3 == 0 {
            Some(self.l0)
        } else {
            proof {
                let b = limb_base();
                let r = self.l1 as nat + b * (self.l2 as nat + b * self.l3 as nat);
                assert(r >= 1);
                assert(self.value() >= b) by (nonlinear_arith)
                    requires self.value() == self.l0 as nat + b * r, r >= 1;
            }
            None
        }
    }

    /// Whether the word is zero.
    pub fn is_zero(self) -> (r: bool)
        ensures
            r == (self.value() == 0),
    {
        proof {
            lemma_value_injective(self, Word { l0: 0, l1: 0, l2: 0, l3: 0 });
        }
        self.l0 == 0 && self.l1 == 0 && self.l2 == 0 && self.l3 == 0
    }

    /// Signed (two's complement) less-than.
    pub fn slt(self, o: Word) -> (r: bool)
        ensures
            r == (self.signed_value() < o.signed_value()),
    {
        proof {
            lemma_sign_bit(self);
            lemma_sign_bit(o);
            lemma_value_bound(self);
            lemma_value_bound(o);
        }
        let na = self.l3 >= 0x8000_0000_0000_0000;
        let nb = o.l3 >= 0x8000_0000_0000_0000;
        if na != nb {
            na
        } else {
            self.lt(o)
        }
    }

    /// The word read as a two's complement signed integer.
    pub open spec fn signed_value(self) -> int {
        if self.value() >= word_modulus() / 2 {
            self.value() - word_modulus()
        } else {
            self.value() as int
        }
    }

    /// Unsigned equality of the two words.
    pub fn eq_word(self, o: Word) -> (r: bool)
        ensures
            r == (self.value() == o.value()),
    {
        proof {
            lemma_value_injective(self, o);
        }
        self.l0 == o.l0 && self.l1 == o.l1 && self.l2 == o.l2 && self.l3 == o.l3
    }
}

pub proof fn lemma_value_bound(w: Word)
    ensures
        w.value() < word_modulus(),
{
    let b = limb_base();
    let v3 = w.l3 as nat;
    let v2 = w.l2 as nat + b * v3;
    let v1 = w.l1 as nat + b * v2;
    assert(v3 < b);
    assert(v2 < b * b) by (nonlinear_arith)
        requires v2 == w.l2 as nat + b * v3, v3 < b, (w.l2 as nat) < b, b > 0;
    assert(v1 < b * (b * b)) by (nonlinear_arith)
        requires v1 == w.l1 as nat + b * v2, v2 < b * b, (w.l1 as nat) < b, b > 0;
    assert(w.value() < b * (b * (b * b))) by (nonlinear_arith)
        requires w.value() == w.l0 as nat + b * v1, v1 < b * (b * b), (w.l0 as nat) < b, b > 0;
    assert(b * (b * (b * b)) == b * b * b * b) by (nonlinear_arith);
}

/// The top bit of the word is the top bit of its last limb.
pub proof fn lemma_sign_bit(w: Word)
    ensures
        w.value() >= word_modulus() / 2 <==> w.l3 >= 0x8000_0000_0000_0000,
{
    let b = limb_base();
    let c = b * b * b;
    let low = w.l0 as nat + b * (w.l1 as nat + b * w.l2 as nat);
    assert(w.value() == low + c * w.l3) by (nonlinear_arith)
        requires w.value() == w.l0 as nat + b * (w.l1 as nat + b * (w.l2 as nat + b * w.l3 as nat)),
            low == w.l0 as nat + b * (w.l1 as nat + b * w.l2 as nat), c == b * b * b;
    let v2 = w.l1 as nat + b * w.l2 as nat;
    assert(v2 < b * b) by (nonlinear_arith)
        requires v2 == w.l1 as nat + b * w.l2 as nat, (w.l1 as nat) < b, (w.l2 as nat) < b, b > 0;
    assert(low < c) by (nonlinear_arith)
        requires low == w.l0 as nat + b * v2, v2 < b * b, (w.l0 as nat) < b, b > 0, c == b * b * b;
    let h: nat = 0x8000_0000_0000_0000;
    assert(word_modulus() / 2 == c * h) by (nonlinear_arith)
        requires word_modulus() == b * b * b * b, c == b * b * b, b == 2 * h;
    let l3 = w.l3 as nat;
    if l3 >= h {
        assert(low + c * l3 >= c * h) by (nonlinear_arith)
            requires l3 >= h, c > 0;
    } else {
        assert(low + c * l3 < c * h) by (nonlinear_arith)
            requires l3 < h, low < c, c > 0;
    }
}

/// Two words with the same value have the same limbs.
pub proof fn lemma_value_injective(a: Word, b: Word)
    ensures
        a.value() == b.value() <==> a == b,
{
    if a.value() == b.value() {
        let bb = limb_base();
        let ra = a.l1 as nat + bb * (a.l2 as nat + bb * a.l3 as nat);
        let rb = b.l1 as nat + bb * (b.l2 as nat + bb * b.l3 as nat);
        lemma_split(a.l0 as nat, ra, b.l0 as nat, rb);
        let sa = a.l2 as nat + bb * a.l3 as nat;
        let sb = b.l2 as nat + bb * b.l3 as nat;
        lemma_split(a.l1 as nat, sa, b.l1 as nat, sb);
        lemma_split(a.l2 as nat, a.l3 as nat, b.l2 as nat, b.l3 as nat);
    }
}

proof fn lemma_split(x0: nat, x1: nat, y0: nat, y1: nat)
    requires
        x0 < limb_base(),
        y0 < limb_base(),
        x0 + limb_base() * x1 == y0 + limb_base() * y1,
    ensures
        x0 == y0,
        x1 == y1,
{
    let b = limb_base();
    assert(x0 == y0 && x1 == y1) by (nonlinear_arith)
        requires x0 < b, y0 < b, x0 + b * x1 == y0 + b * y1, b > 0;
}

} // verus!
