use vstd::prelude::*;

verus! {

/// Identifier the transport assigns to a connected peer.
pub type PeerId = usize;

/// A 256-bit hash, held as four little-endian 64-bit words.
#[derive(Clone, Copy, Debug, PartialEq, Eq, Structural)]
pub struct Byte32 {
    pub w0: u64,
    pub w1: u64,
    pub w2: u64,
    pub w3: u64,
}

impl Byte32 {
    /// The all-zero hash.
    pub fn zero() -> (r: Byte32)
        ensures
            r == (Byte32 { w0: 0, w1: 0, w2: 0, w3: 0 }),
    {
        Byte32 { w0: 0, w1: 0, w2: 0, w3: 0 }
    }

    /// A hash whose first word is `x` and whose other words are zero.
    pub fn from_u64(x: u64) -> (r: Byte32)
        ensures
            r == (Byte32 { w0: x, w1: 0, w2: 0, w3: 0 }),
    {
        Byte32 { w0: x, w1: 0, w2: 0, w3: 0 }
    }
}

/// Cumulative chain difficulty: a 256-bit unsigned integer `hi * 2^128 + lo`.
#[derive(Clone, Copy, Debug, PartialEq, Eq, Structural)]
pub struct Difficulty {
    pub hi: u128,
    pub lo: u128,
}

pub open spec fn two_pow_128() -> int {
    0x1_0000_0000_0000_0000_0000_0000_0000_0000int
}

impl Difficulty {
    /// The integer this difficulty stands for.
    pub open spec fn value(self) -> nat {
        (self.hi as int * two_pow_128() + self.lo as int) as nat
    }

    pub fn from_u64(x: u64) -> (r: Difficulty)
        ensures
            r.value() == x as nat,
    {
        Difficulty { hi: 0, lo: x as u128 }
    }

    /// Whether `self >= other` as integers.
    pub fn ge(&self, other: &Difficulty) -> (r: bool)
        ensures
            r == (self.value() >= other.value()),
    {
        proof {
            lemma_difficulty_order(*self, *other);
        }
        self.hi > other.hi || (self.hi == other.hi && self.lo >= other.lo)
    }
}

proof fn lemma_difficulty_order(a: Difficulty, b: Difficulty)
    ensures
        (a.value() >= b.value()) == (a.hi > b.hi || (a.hi == b.hi && a.lo >= b.lo)),
{
    let p = two_pow_128();
    let ah = a.hi as int;
    let bh = b.hi as int;
    let al = a.lo as int;
    let bl = b.lo as int;
    assert(0 <= al < p && 0 <= bl < p);
    if ah > bh {
        assert(ah * p >= (bh + 1) * p) by (nonlinear_arith)
            requires ah >= bh + 1, p > 0;
        assert((bh + 1) * p == bh * p + p) by (nonlinear_arith);
    } else if ah < bh {
        assert(bh * p >= (ah + 1) * p) by (nonlinear_arith)
            requires bh >= ah + 1, p > 0;
        assert((ah + 1) * p == ah * p + p) by (nonlinear_arith);
    }
    assert(ah * p >= 0 && bh * p >= 0) by (nonlinear_arith)
        requires ah >= 0, bh >= 0, p > 0;
}

/// The parts of a block header that synchronisation reads: its height, its
/// hash and its parent's hash.
#[derive(Clone, Copy, Debug, PartialEq, Eq, Structural)]
pub struct Header {
    pub number: u64,
    pub hash: Byte32,
    pub parent_hash: Byte32,
}

/// A header together with the cumulative difficulty of the chain it ends.
#[derive(Clone, Copy, Debug, PartialEq, Eq, Structural)]
pub struct HeaderView {
    pub header: Header,
    pub total_difficulty: Difficulty,
}

/// A transaction: its hash and its encoded body.
#[derive(Debug)]
pub struct Transaction {
    pub hash: Byte32,
    pub payload: Vec<u8>,
}

impl Transaction {
    /// The transaction as a mathematical value.
    pub open spec fn model(&self) -> (Byte32, Seq<u8>) {
        (self.hash, self.payload@)
    }
}

impl Clone for Transaction {
    fn clone(&self) -> (r: Self)
        ensures
            r.model() == self.model(),
    {
        let mut payload: Vec<u8> = Vec::new();
        let mut i: usize = 0;
        while i < self.payload.len()
            invariant
                i <= self.payload@.len(),
                payload@ == self.payload@.subrange(0, i as int),
            decreases self.payload@.len() - i,
        {
            payload.push(self.payload[i]);
            i = i + 1;
        }
        assert(payload@ =~= self.payload@);
        Transaction { hash: self.hash, payload }
    }
}

/// A full block.
#[derive(Clone, Debug)]
pub struct Block {
    pub header: Header,
    pub transactions: Vec<Transaction>,
    pub uncles: Vec<Header>,
}

/// The models of a list of transactions.
pub open spec fn tx_models(s: Seq<Transaction>) -> Seq<(Byte32, Seq<u8>)> {
    s.map_values(|t: Transaction| t.model())
}

} // verus!
