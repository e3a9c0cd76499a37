//! Recursive-length-prefix encoding.

use vstd::prelude::*;

use crate::bindings::encode_list_header;
use crate::lists::views;
use crate::primitives::be_value;

verus! {

/// The big-endian bytes of a number, without leading zeroes.
pub open spec fn be_bytes(n: nat) -> Seq<u8>
    decreases n,
{
    if n == 0 {
        Seq::empty()
    } else {
        be_bytes(n / 256).push((n % 256) as u8)
    }
}

/// The prefix of an item with a payload of `n` bytes, where `base` is the code of the empty
/// item of its kind.
pub open spec fn rlp_prefix(base: int, n: nat) -> Seq<u8> {
    if n < 56 {
        seq![(base + n) as u8]
    } else {
        seq![(base + 55 + be_bytes(n).len()) as u8] + be_bytes(n)
    }
}

/// A byte string as an item.
pub open spec fn rlp_string(bytes: Seq<u8>) -> Seq<u8> {
    if bytes.len() == 1 && bytes[0] < 0x80 {
        bytes
    } else {
        rlp_prefix(0x80, bytes.len()) + bytes
    }
}

/// A number as an item.
pub open spec fn rlp_number(n: nat) -> Seq<u8> {
    rlp_string(be_bytes(n))
}

/// A list as an item, from the items that it holds, one behind the other.
pub open spec fn rlp_list(payload: Seq<u8>) -> Seq<u8> {
    rlp_prefix(0xc0, payload.len()) + payload
}

/// The number that the bytes of a number stand for is that number.
pub proof fn lemma_be_bytes(n: nat)
    ensures
        be_value(be_bytes(n)) == n,
    decreases n,
{
    if n > 0 {
        lemma_be_bytes(n / 256);
        assert(be_bytes(n).drop_last() =~= be_bytes(n / 256));
    }
}

/// The bytes of a number below 2 to the power of 64 are at most eight.
pub proof fn lemma_be_bytes_len(n: nat)
    requires
        n < 0x1_0000_0000_0000_0000,
    ensures
        be_bytes(n).len() <= 8,
{
    reveal_with_fuel(be_bytes, 9);
}

/// A byte string whose length takes up to eight bytes.
pub open spec fn short(n: nat) -> bool {
    n < 0x1_0000_0000_0000_0000
}

/// A prefix can be told from what stands behind it.
pub proof fn lemma_prefix_unique(base: int, m: nat, n: nat, x: Seq<u8>, y: Seq<u8>)
    requires
        base == 0x80 || base == 0xc0,
        short(m),
        short(n),
        rlp_prefix(base, m) + x == rlp_prefix(base, n) + y,
    ensures
        m == n,
        x == y,
{
    let (p, q) = (rlp_prefix(base, m), rlp_prefix(base, n));
    lemma_be_bytes_len(m);
    lemma_be_bytes_len(n);
    assert((p + x)[0] == p[0] && (q + y)[0] == q[0]);
    if m < 56 {
        assert(be_bytes(n).len() > 0 || n == 0);
        assert(n < 56);
    } else {
        assert(be_bytes(m).len() > 0);
        assert(n >= 56);
        assert(be_bytes(m).len() == be_bytes(n).len());
        assert((p + x).subrange(1, p.len() as int) =~= be_bytes(m));
        assert((q + y).subrange(1, q.len() as int) =~= be_bytes(n));
        lemma_be_bytes(m);
        lemma_be_bytes(n);
    }
    assert(p == q);
    assert((p + x).skip(p.len() as int) =~= x);
    assert((q + y).skip(q.len() as int) =~= y);
}

/// The first byte of a prefix.
proof fn lemma_prefix_first(base: int, n: nat)
    requires
        base == 0x80 || base == 0xc0,
        short(n),
    ensures
        rlp_prefix(base, n).len() > 0,
        base <= rlp_prefix(base, n)[0] <= base + 63,
{
    lemma_be_bytes_len(n);
}

/// A byte string as an item can be told from what stands behind it.
pub proof fn lemma_string_unique(a: Seq<u8>, b: Seq<u8>, x: Seq<u8>, y: Seq<u8>)
    requires
        short(a.len()),
        short(b.len()),
        rlp_string(a) + x == rlp_string(b) + y,
    ensures
        a == b,
        x == y,
{
    let (p, q) = (rlp_string(a) + x, rlp_string(b) + y);
    lemma_prefix_first(0x80, a.len());
    lemma_prefix_first(0x80, b.len());
    assert(p[0] == rlp_string(a)[0] && q[0] == rlp_string(b)[0]);
    if a.len() == 1 && a[0] < 0x80 {
        assert(b.len() == 1 && b[0] < 0x80);
        assert(a =~= b);
        assert(p.skip(1) =~= x);
        assert(q.skip(1) =~= y);
    } else {
        assert(!(b.len() == 1 && b[0] < 0x80));
        assert(p =~= rlp_prefix(0x80, a.len()) + (a + x));
        assert(q =~= rlp_prefix(0x80, b.len()) + (b + y));
        lemma_prefix_unique(0x80, a.len(), b.len(), a + x, b + y);
        assert((a + x).take(a.len() as int) =~= a);
        assert((b + y).take(b.len() as int) =~= b);
        assert((a + x).skip(a.len() as int) =~= x);
        assert((b + y).skip(b.len() as int) =~= y);
    }
}

/// A number as an item can be told from what stands behind it.
pub proof fn lemma_number_unique(m: nat, n: nat, x: Seq<u8>, y: Seq<u8>)
    requires
        short(be_bytes(m).len()),
        short(be_bytes(n).len()),
        rlp_number(m) + x == rlp_number(n) + y,
    ensures
        m == n,
        x == y,
{
    lemma_string_unique(be_bytes(m), be_bytes(n), x, y);
    lemma_be_bytes(m);
    lemma_be_bytes(n);
}

/// A list as an item can be told from what stands behind it.
pub proof fn lemma_list_unique(a: Seq<u8>, b: Seq<u8>, x: Seq<u8>, y: Seq<u8>)
    requires
        short(a.len()),
        short(b.len()),
        rlp_list(a) + x == rlp_list(b) + y,
    ensures
        a == b,
        x == y,
{
    assert(rlp_list(a) + x =~= rlp_prefix(0xc0, a.len()) + (a + x));
    assert(rlp_list(b) + y =~= rlp_prefix(0xc0, b.len()) + (b + y));
    lemma_prefix_unique(0xc0, a.len(), b.len(), a + x, b + y);
    assert((a + x).take(a.len() as int) =~= a);
    assert((b + y).take(b.len() as int) =~= b);
    assert((a + x).skip(a.len() as int) =~= x);
    assert((b + y).skip(b.len() as int) =~= y);
}

/// An item is longer than what it holds, and never empty.
pub proof fn lemma_item_len(bytes: Seq<u8>)
    ensures
        rlp_string(bytes).len() >= bytes.len(),
        rlp_string(bytes).len() > 0,
        rlp_list(bytes).len() > bytes.len(),
{
}

/// Values that are encoded as items.
pub trait RlpEncode: View + Sized {
    /// The item for a value.
    spec fn item(value: Self::V) -> Seq<u8>;

    /// An item is never empty, and can be told from what stands behind it.
    proof fn lemma_item_unique(a: Self::V, b: Self::V, x: Seq<u8>, y: Seq<u8>)
        requires
            short(Self::item(a).len()),
            short(Self::item(b).len()),
            Self::item(a) + x == Self::item(b) + y,
        ensures
            a == b,
            x == y,
            Self::item(a).len() > 0,
    ;

    /// This value as an item.
    fn encode(&self) -> (r: Vec<u8>)
        ensures
            r@ == Self::item(self@),
    ;
}

/// The items for some values, one behind the other.
pub open spec fn rlp_items<T: RlpEncode>(values: Seq<T::V>) -> Seq<u8>
    decreases values.len(),
{
    if values.len() == 0 {
        Seq::empty()
    } else {
        rlp_items::<T>(values.drop_last()) + T::item(values.last())
    }
}

/// Some values as one list.
pub open spec fn rlp_seq<T: RlpEncode>(values: Seq<T::V>) -> Seq<u8> {
    rlp_list(rlp_items::<T>(values))
}

/// The item of the first value comes first.
proof fn lemma_items_first<T: RlpEncode>(values: Seq<T::V>)
    requires
        values.len() > 0,
    ensures
        rlp_items::<T>(values) == T::item(values[0]) + rlp_items::<T>(values.drop_first()),
    decreases values.len(),
{
    let rest = values.drop_first();
    if values.len() == 1 {
        assert(values.drop_last() =~= Seq::empty());
        assert(rest =~= Seq::empty());
    } else {
        lemma_items_first::<T>(values.drop_last());
        assert(values.drop_last().drop_first() =~= rest.drop_last());
    }
    assert(rlp_items::<T>(values) =~= T::item(values[0]) + rlp_items::<T>(rest));
}

/// Values with the same items, one behind the other, are the same.
proof fn lemma_items_unique<T: RlpEncode>(a: Seq<T::V>, b: Seq<T::V>)
    requires
        short(rlp_items::<T>(a).len()),
        rlp_items::<T>(a) == rlp_items::<T>(b),
    ensures
        a == b,
    decreases a.len() + b.len(),
{
    if a.len() > 0 && b.len() > 0 {
        lemma_items_first::<T>(a);
        lemma_items_first::<T>(b);
        let (x, y) = (rlp_items::<T>(a.drop_first()), rlp_items::<T>(b.drop_first()));
        T::lemma_item_unique(a[0], b[0], x, y);
        lemma_items_unique::<T>(a.drop_first(), b.drop_first());
        assert(a =~= seq![a[0]] + a.drop_first());
        assert(b =~= seq![b[0]] + b.drop_first());
    } else if a.len() > 0 {
        lemma_items_first::<T>(a);
        T::lemma_item_unique(a[0], a[0], Seq::empty(), Seq::empty());
    } else if b.len() > 0 {
        lemma_items_first::<T>(b);
        T::lemma_item_unique(b[0], b[0], Seq::empty(), Seq::empty());
    } else {
        assert(a =~= b);
    }
}

/// Some values as one list can be told from what stands behind it.
pub proof fn lemma_seq_unique<T: RlpEncode>(
    a: Seq<T::V>,
    b: Seq<T::V>,
    x: Seq<u8>,
    y: Seq<u8>,
)
    requires
        short(rlp_seq::<T>(a).len()),
        short(rlp_seq::<T>(b).len()),
        rlp_seq::<T>(a) + x == rlp_seq::<T>(b) + y,
    ensures
        a == b,
        x == y,
{
    lemma_item_len(rlp_items::<T>(a));
    lemma_item_len(rlp_items::<T>(b));
    lemma_list_unique(rlp_items::<T>(a), rlp_items::<T>(b), x, y);
    lemma_items_unique::<T>(a, b);
}

/// Puts bytes behind others.
pub(crate) fn extend(out: &mut Vec<u8>, more: Vec<u8>)
    ensures
        final(out)@ == old(out)@ + more@,
{
    let mut more = more;
    out.append(&mut more);
}

/// Makes a list of the items that it holds, one behind the other.
pub(crate) fn list_item(payload: Vec<u8>) -> (r: Vec<u8>)
    ensures
        r@ == rlp_list(payload@),
{
    let mut out = encode_list_header(payload.len());
    extend(&mut out, payload);
    out
}

/// Some values as one list.
pub fn encode_seq<T: RlpEncode>(values: &Vec<T>) -> (r: Vec<u8>)
    ensures
        r@ == rlp_seq::<T>(views(values@)),
{
    let mut payload: Vec<u8> = Vec::new();
    let mut i: usize = 0;
    while i < values.len()
        invariant
            i <= values@.len(),
            payload@ == rlp_items::<T>(views(values@.take(i as int))),
        decreases values.len() - i,
    {
        proof {
            let head = views(values@.take(i + 1));
            assert(head.drop_last() =~= views(values@.take(i as int)));
            assert(head.last() == values@[i as int]@);
        }
        extend(&mut payload, values[i].encode());
        i += 1;
    }
    assert(values@.take(i as int) =~= values@);
    list_item(payload)
}

} // verus!
