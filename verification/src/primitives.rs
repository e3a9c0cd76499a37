//! Fixed-size chain values: addresses, 32-byte hashes and 256-bit words.

use vstd::prelude::*;

verus! {

/// A 20-byte account address. Its view is its bytes, first byte first.
#[derive(Clone, Copy, Debug, PartialEq, Eq)]
pub struct Address {
    pub bytes: [u8; 20],
}

/// A 32-byte hash. Its view is its bytes, first byte first.
#[derive(Clone, Copy, Debug, PartialEq, Eq)]
pub struct H256 {
    pub bytes: [u8; 32],
}

/// A 256-bit unsigned word, held as four limbs with the least significant one first. Its view
/// is the number that it stands for.
#[derive(Clone, Copy, Debug, PartialEq, Eq)]
pub struct U256 {
    pub limbs: [u64; 4],
}

impl View for Address {
    type V = Seq<u8>;

    open spec fn view(&self) -> Seq<u8> {
        self.bytes@
    }
}

impl View for H256 {
    type V = Seq<u8>;

    open spec fn view(&self) -> Seq<u8> {
        self.bytes@
    }
}

impl View for U256 {
    type V = nat;

    open spec fn view(&self) -> nat {
        (self.limbs@[0] + 0x1_0000_0000_0000_0000nat * self.limbs@[1]
            + 0x1_0000_0000_0000_0000_0000_0000_0000_0000nat * self.limbs@[2]
            + 0x1_0000_0000_0000_0000_0000_0000_0000_0000_0000_0000_0000_0000nat
            * self.limbs@[3]) as nat
    }
}

/// The number of different 256-bit words.
pub open spec fn word_count() -> nat {
    0x1_0000_0000_0000_0000_0000_0000_0000_0000_0000_0000_0000_0000_0000_0000_0000_0000nat
}

/// The all-zero byte string of the given length.
pub open spec fn zero_bytes(n: nat) -> Seq<u8> {
    Seq::new(n, |i: int| 0u8)
}

impl Address {
    /// The all-zero address.
    pub fn zero() -> (r: Address)
        ensures
            r@ == zero_bytes(20),
    {
        let r = Address { bytes: [0u8; 20] };
        assert(r@ =~= zero_bytes(20));
        r
    }

    /// An address that may be missing, with the all-zero address in its place.
    pub fn or_zero(address: Option<Address>) -> (r: Address)
        ensures
            r@ == address_or_zero(address),
    {
        match address {
            Some(a) => a,
            None => Address::zero(),
        }
    }

    /// Whether two addresses hold the same bytes.
    pub fn same_as(&self, other: &Address) -> (r: bool)
        ensures
            r == (self@ == other@),
    {
        let mut i: usize = 0;
        while i < 20
            invariant
                i <= 20,
                forall|j: int| 0 <= j < i ==> self.bytes@[j] == other.bytes@[j],
            decreases 20 - i,
        {
            if self.bytes[i] != other.bytes[i] {
                assert(self@[i as int] != other@[i as int]);
                return false;
            }
            i += 1;
        }
        assert(self@ =~= other@);
        true
    }
}

/// The bytes of an address that may be missing, zeroes in its place.
pub open spec fn address_or_zero(address: Option<Address>) -> Seq<u8> {
    match address {
        Some(a) => a@,
        None => zero_bytes(20),
    }
}

impl H256 {
    /// The all-zero hash.
    pub fn zero() -> (r: H256)
        ensures
            r@ == zero_bytes(32),
    {
        let r = H256 { bytes: [0u8; 32] };
        assert(r@ =~= zero_bytes(32));
        r
    }

    /// A hash that may be missing, with the all-zero hash in its place.
    pub fn or_zero(hash: Option<H256>) -> (r: H256)
        ensures
            r@ == hash_or_zero(hash),
    {
        match hash {
            Some(h) => h,
            None => H256::zero(),
        }
    }

    /// Whether two hashes hold the same bytes.
    pub fn same_as(&self, other: &H256) -> (r: bool)
        ensures
            r == (self@ == other@),
    {
        let mut i: usize = 0;
        while i < 32
            invariant
                i <= 32,
                forall|j: int| 0 <= j < i ==> self.bytes@[j] == other.bytes@[j],
            decreases 32 - i,
        {
            if self.bytes[i] != other.bytes[i] {
                assert(self@[i as int] != other@[i as int]);
                return false;
            }
            i += 1;
        }
        assert(self@ =~= other@);
        true
    }
}

/// The bytes of a hash that may be missing, zeroes in its place.
pub open spec fn hash_or_zero(hash: Option<H256>) -> Seq<u8> {
    match hash {
        Some(h) => h@,
        None => zero_bytes(32),
    }
}

impl U256 {
    /// The word zero.
    pub fn zero() -> (r: U256)
        ensures
            r@ == 0,
    {
        let r = U256 { limbs: [0u64; 4] };
        assert(r.limbs@[0] == 0 && r.limbs@[1] == 0 && r.limbs@[2] == 0 && r.limbs@[3] == 0);
        r
    }

    /// A word that may be missing, with zero in its place.
    pub fn or_zero(word: Option<U256>) -> (r: U256)
        ensures
            r@ == word_or_zero(word),
    {
        match word {
            Some(w) => w,
            None => U256::zero(),
        }
    }

    /// Whether this word is above zero.
    pub fn is_positive(&self) -> (r: bool)
        ensures
            r == (self@ > 0),
    {
        self.limbs[0] > 0 || self.limbs[1] > 0 || self.limbs[2] > 0 || self.limbs[3] > 0
    }
}

/// The number of a word that may be missing, zero in its place.
pub open spec fn word_or_zero(word: Option<U256>) -> nat {
    match word {
        Some(w) => w@,
        None => 0,
    }
}

/// The number that a byte string stands for when read big-endian.
pub open spec fn be_value(bytes: Seq<u8>) -> nat
    decreases bytes.len(),
{
    if bytes.len() == 0 {
        0
    } else {
        be_value(bytes.drop_last()) * 256 + bytes.last() as nat
    }
}

/// Twenty bytes stand for a number below 2 to the power of 160.
pub proof fn lemma_be_bound(bytes: Seq<u8>)
    requires
        bytes.len() == 20,
    ensures
        be_value(bytes) < 0x1_0000_0000_0000_0000_0000_0000_0000_0000_0000_0000nat,
{
    reveal_with_fuel(be_value, 21);
}

/// The last `k` bytes of a number, big-endian.
pub open spec fn be_digits(n: nat, k: nat) -> Seq<u8>
    decreases k,
{
    if k == 0 {
        Seq::empty()
    } else {
        be_digits(n / 256, (k - 1) as nat).push((n % 256) as u8)
    }
}

/// A number that fits in 32 bytes is given by these bytes.
pub proof fn lemma_be_digits_unique(a: U256, b: U256)
    requires
        be_digits(a@, 32) == be_digits(b@, 32),
    ensures
        a@ == b@,
{
    reveal_with_fuel(pow256, 33);
    lemma_digits_unique(a@, b@, 32);
}

/// 256 to the power of `k`.
spec fn pow256(k: nat) -> nat
    decreases k,
{
    if k == 0 {
        1
    } else {
        256 * pow256((k - 1) as nat)
    }
}

proof fn lemma_digits_unique(a: nat, b: nat, k: nat)
    requires
        a < pow256(k),
        b < pow256(k),
        be_digits(a, k) == be_digits(b, k),
    ensures
        a == b,
    decreases k,
{
    if k > 0 {
        let (x, y) = (be_digits(a, k), be_digits(b, k));
        let j = (k - 1) as nat;
        assert(x.drop_last() =~= be_digits(a / 256, j));
        assert(y.drop_last() =~= be_digits(b / 256, j));
        assert(x.last() == (a % 256) as u8 && y.last() == (b % 256) as u8);
        lemma_digits_unique(a / 256, b / 256, j);
    }
}

/// A byte string is given by its length and the number that it stands for.
pub proof fn lemma_be_digits(bytes: Seq<u8>)
    ensures
        bytes == be_digits(be_value(bytes), bytes.len()),
    decreases bytes.len(),
{
    if bytes.len() > 0 {
        lemma_be_digits(bytes.drop_last());
        assert(be_value(bytes) / 256 == be_value(bytes.drop_last()));
        assert(be_value(bytes) % 256 == bytes.last());
        assert(bytes =~= bytes.drop_last().push(bytes.last()));
    } else {
        assert(bytes =~= Seq::empty());
    }
}

} // verus!
