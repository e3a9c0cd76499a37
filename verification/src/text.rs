//! Texts that the records are made of: hexadecimal and decimal numbers, lower case, and the
//! order of texts.

use vstd::prelude::*;
use vstd::string::*;
use vstd::utf8::*;

use crate::primitives::be_value;

verus! {

// ---------------------------------------------------------------------------------------------
// Hexadecimal texts
// ---------------------------------------------------------------------------------------------

/// The lower-case hexadecimal digit for a number below 16.
pub open spec fn hex_digit(d: int) -> char {
    if d < 10 {
        (48 + d) as char
    } else {
        (87 + d) as char
    }
}

/// The half-byte at position `i` of a byte string, counted in half-bytes, high half first.
pub open spec fn nibble(bytes: Seq<u8>, i: int) -> int {
    if i % 2 == 0 {
        bytes[i / 2] as int / 16
    } else {
        bytes[i / 2] as int % 16
    }
}

/// The lower-case hexadecimal text of a byte string: two digits for each byte.
pub open spec fn hex_chars(bytes: Seq<u8>) -> Seq<char> {
    Seq::new(2 * bytes.len(), |i: int| hex_digit(nibble(bytes, i)))
}

/// The hexadecimal text of a byte string behind `0x`.
pub open spec fn prefixed_hex(bytes: Seq<u8>) -> Seq<char> {
    seq!['0', 'x'] + hex_chars(bytes)
}

/// Whether a character is a lower-case hexadecimal digit.
pub open spec fn is_hex_digit(c: char) -> bool {
    ('0' <= c && c <= '9') || ('a' <= c && c <= 'f')
}

/// Whether a text holds lower-case hexadecimal digits only.
pub open spec fn is_hex_text(text: Seq<char>) -> bool {
    forall|i: int| 0 <= i < text.len() ==> is_hex_digit(#[trigger] text[i])
}

/// The number below 16 that a lower-case hexadecimal digit stands for.
pub open spec fn hex_digit_value(c: char) -> nat {
    if c <= '9' {
        (c as int - 48) as nat
    } else {
        (c as int - 87) as nat
    }
}

/// The number that a hexadecimal text stands for.
pub open spec fn hex_value(text: Seq<char>) -> nat
    decreases text.len(),
{
    if text.len() == 0 {
        0
    } else {
        hex_value(text.drop_last()) * 16 + hex_digit_value(text.last())
    }
}

/// A digit made from a number below 16 stands for that number.
pub proof fn lemma_hex_digit(d: int)
    requires
        0 <= d < 16,
    ensures
        is_hex_digit(hex_digit(d)),
        hex_digit_value(hex_digit(d)) == d,
        hex_digit(d) as int == if d < 10 { 48 + d } else { 87 + d },
{
}

/// The hexadecimal text of a byte string holds digits only, and stands for the number that the
/// bytes stand for big-endian.
pub proof fn lemma_hex_value(bytes: Seq<u8>)
    ensures
        is_hex_text(hex_chars(bytes)),
        hex_value(hex_chars(bytes)) == be_value(bytes),
    decreases bytes.len(),
{
    let text = hex_chars(bytes);
    assert forall|i: int| 0 <= i < text.len() implies is_hex_digit(#[trigger] text[i]) by {
        lemma_hex_digit(nibble(bytes, i));
    }
    if bytes.len() > 0 {
        let init = bytes.drop_last();
        let last = bytes.last() as int;
        lemma_hex_value(init);
        lemma_hex_digit(last / 16);
        lemma_hex_digit(last % 16);
        let n = bytes.len() as int;
        assert(text[2 * n - 2] == hex_digit(last / 16));
        assert(text[2 * n - 1] == hex_digit(last % 16));
        assert forall|i: int| 0 <= i < 2 * n - 2 implies #[trigger] hex_chars(init)[i] == text[i] by {
            assert(init[i / 2] == bytes[i / 2]);
        }
        assert(text.drop_last().drop_last() =~= hex_chars(init));
        assert(hex_value(text) == hex_value(text.drop_last()) * 16 + last % 16);
        assert(hex_value(text.drop_last()) == hex_value(hex_chars(init)) * 16 + last / 16);
    }
}

/// Two byte strings with the same hexadecimal text are the same.
pub proof fn lemma_hex_injective(a: Seq<u8>, b: Seq<u8>)
    requires
        hex_chars(a) == hex_chars(b),
    ensures
        a == b,
{
    assert(hex_chars(a).len() == 2 * a.len() && hex_chars(b).len() == 2 * b.len());
    assert forall|i: int| 0 <= i < a.len() implies a[i] == b[i] by {
        assert((2 * i) / 2 == i && (2 * i) % 2 == 0);
        assert((2 * i + 1) / 2 == i && (2 * i + 1) % 2 == 1);
        assert(hex_chars(a)[2 * i] == hex_digit(a[i] as int / 16));
        assert(hex_chars(b)[2 * i] == hex_digit(b[i] as int / 16));
        assert(hex_chars(a)[2 * i + 1] == hex_digit(a[i] as int % 16));
        assert(hex_chars(b)[2 * i + 1] == hex_digit(b[i] as int % 16));
        lemma_hex_digit(a[i] as int / 16);
        lemma_hex_digit(b[i] as int / 16);
        lemma_hex_digit(a[i] as int % 16);
        lemma_hex_digit(b[i] as int % 16);
    }
    assert(a =~= b);
}

/// Hexadecimal digits, with or without `0x` in front, are ASCII.
pub proof fn lemma_hex_ascii(bytes: Seq<u8>)
    ensures
        is_ascii_chars(hex_chars(bytes)),
        is_ascii_chars(prefixed_hex(bytes)),
{
    assert forall|i: int| 0 <= i < hex_chars(bytes).len() implies 0
        <= #[trigger] hex_chars(bytes)[i] as nat <= 127 by {
        lemma_hex_digit(nibble(bytes, i));
    }
    assert forall|i: int| 0 <= i < prefixed_hex(bytes).len() implies 0
        <= #[trigger] prefixed_hex(bytes)[i] as nat <= 127 by {
        if i >= 2 {
            assert(prefixed_hex(bytes)[i] == hex_chars(bytes)[i - 2]);
        }
    }
}

// ---------------------------------------------------------------------------------------------
// Decimal texts
// ---------------------------------------------------------------------------------------------

/// The decimal text of a number, without leading zeroes.
pub open spec fn decimal(n: nat) -> Seq<char>
    decreases n,
{
    if n < 10 {
        seq![hex_digit(n as int)]
    } else {
        decimal(n / 10).push(hex_digit((n % 10) as int))
    }
}

/// The lower-case hexadecimal text of a number, without leading zeroes.
pub open spec fn hex_number(n: nat) -> Seq<char>
    decreases n,
{
    if n < 16 {
        seq![hex_digit(n as int)]
    } else {
        hex_number(n / 16).push(hex_digit((n % 16) as int))
    }
}

/// Whether a text holds decimal digits only.
pub open spec fn is_decimal_text(text: Seq<char>) -> bool {
    forall|i: int| 0 <= i < text.len() ==> '0' <= #[trigger] text[i] && text[i] <= '9'
}

/// The number that a decimal text stands for.
pub open spec fn decimal_value(text: Seq<char>) -> nat
    decreases text.len(),
{
    if text.len() == 0 {
        0
    } else {
        decimal_value(text.drop_last()) * 10 + (text.last() as int - 48) as nat
    }
}

/// Ten to the power of `k`.
pub open spec fn pow10(k: nat) -> nat
    decreases k,
{
    if k == 0 {
        1
    } else {
        10 * pow10((k - 1) as nat)
    }
}

/// The decimal text of a number holds digits, at least one, and stands for that number.
pub proof fn lemma_decimal(n: nat)
    ensures
        decimal(n).len() > 0,
        is_decimal_text(decimal(n)),
        decimal_value(decimal(n)) == n,
    decreases n,
{
    if n < 10 {
        lemma_hex_digit(n as int);
        assert(decimal(n).drop_last() =~= Seq::<char>::empty());
        assert(decimal_value(decimal(n).drop_last()) == 0);
    } else {
        lemma_decimal(n / 10);
        lemma_hex_digit((n % 10) as int);
        assert(decimal(n).drop_last() =~= decimal(n / 10));
    }
}

proof fn lemma_mod_step(a: nat, m: nat, c: nat)
    requires
        m > 0,
        c < 10,
    ensures
        (10 * a + c) % (10 * m) == 10 * (a % m) + c,
{
    let q = a / m;
    let r = a % m;
    vstd::arithmetic::div_mod::lemma_fundamental_div_mod(a as int, m as int);
    vstd::arithmetic::div_mod::lemma_mod_bound(a as int, m as int);
    assert(10 * a + c == (10 * m) * q + (10 * r + c)) by (nonlinear_arith)
        requires
            a == m * q + r,
    ;
    vstd::arithmetic::div_mod::lemma_fundamental_div_mod_converse(
        (10 * a + c) as int,
        (10 * m) as int,
        q as int,
        (10 * r + c) as int,
    );
}

/// The last `k` digits of a decimal text stand for the remainder by ten to the power of `k`.
pub proof fn lemma_last_digits(text: Seq<char>, k: nat)
    requires
        is_decimal_text(text),
        k <= text.len(),
    ensures
        decimal_value(text.skip(text.len() - k)) == decimal_value(text) % pow10(k),
        pow10(k) > 0,
    decreases k,
{
    if k == 0 {
        assert(text.skip(text.len() as int) =~= Seq::<char>::empty());
    } else {
        let init = text.drop_last();
        lemma_last_digits(init, (k - 1) as nat);
        let tail = text.skip(text.len() - k);
        assert(tail.drop_last() =~= init.skip(init.len() - (k - 1)));
        assert(tail.last() == text.last());
        let m = pow10((k - 1) as nat);
        lemma_mod_step(decimal_value(init), m, (text.last() as int - 48) as nat);
    }
}

/// A decimal text stands for a number below ten to the power of its length.
pub proof fn lemma_decimal_bound(text: Seq<char>)
    requires
        is_decimal_text(text),
    ensures
        decimal_value(text) < pow10(text.len()),
    decreases text.len(),
{
    if text.len() > 0 {
        lemma_decimal_bound(text.drop_last());
    }
}

/// Reads a short decimal text as a number.
pub fn parse_decimal(text: &str) -> (r: i64)
    requires
        is_decimal_text(text@),
        text@.len() <= 18,
    ensures
        r == decimal_value(text@),
{
    broadcast use is_ascii_spec_bytes;

    assert(is_ascii(text));
    let bytes = text.as_bytes();
    let mut r: i64 = 0;
    let mut i: usize = 0;
    assert(text@.take(0) =~= Seq::<char>::empty());
    while i < bytes.len()
        invariant
            is_decimal_text(text@),
            text@.len() <= 18,
            bytes@ =~= Seq::new(text@.len(), |j: int| text@[j] as u8),
            i <= bytes.len(),
            r == decimal_value(text@.take(i as int)),
        decreases bytes.len() - i,
    {
        proof {
            let head = text@.take(i as int + 1);
            assert(head.drop_last() =~= text@.take(i as int));
            assert('0' <= text@[i as int] && text@[i as int] <= '9');
            lemma_decimal_bound(text@.take(i as int));
            lemma_pow10_bound(i as nat, 17);
            reveal_with_fuel(pow10, 19);
        }
        r = r * 10 + (bytes[i] - 48) as i64;
        i += 1;
    }
    assert(text@.take(i as int) =~= text@);
    r
}

proof fn lemma_pow10_bound(a: nat, b: nat)
    requires
        a <= b,
    ensures
        pow10(a) <= pow10(b),
    decreases b,
{
    if a < b {
        lemma_pow10_bound(a, (b - 1) as nat);
    }
}

// ---------------------------------------------------------------------------------------------
// Lower case and order
// ---------------------------------------------------------------------------------------------

/// The lower-case form of an ASCII character.
pub open spec fn lower_char(c: char) -> char {
    if 'A' <= c && c <= 'Z' {
        (c as int + 32) as char
    } else {
        c
    }
}

/// The lower-case form of an ASCII text.
pub open spec fn lower_text(text: Seq<char>) -> Seq<char> {
    Seq::new(text.len(), |i: int| lower_char(text[i]))
}

/// A prefixed hexadecimal text is in lower case already.
pub proof fn lemma_prefixed_hex_lower(bytes: Seq<u8>)
    ensures
        lower_text(prefixed_hex(bytes)) == prefixed_hex(bytes),
{
    let text = prefixed_hex(bytes);
    assert forall|i: int| 0 <= i < text.len() implies lower_char(text[i]) == #[trigger] text[i] by {
        if i >= 2 {
            assert(text[i] == hex_chars(bytes)[i - 2]);
            lemma_hex_digit(nibble(bytes, i - 2));
        }
    }
    assert(lower_text(text) =~= text);
}

/// Whether one text stands at or before another one in the dictionary order of characters.
pub open spec fn text_le(a: Seq<char>, b: Seq<char>) -> bool
    decreases a.len(),
{
    ||| a.len() == 0
    ||| b.len() > 0 && a[0] < b[0]
    ||| b.len() > 0 && a[0] == b[0] && text_le(a.drop_first(), b.drop_first())
}

/// The order of texts is reflexive.
pub proof fn lemma_text_le_reflexive(a: Seq<char>)
    ensures
        text_le(a, a),
    decreases a.len(),
{
    if a.len() > 0 {
        lemma_text_le_reflexive(a.drop_first());
    }
}

/// The order of texts is antisymmetric.
pub proof fn lemma_text_le_antisymmetric(a: Seq<char>, b: Seq<char>)
    requires
        text_le(a, b),
        text_le(b, a),
    ensures
        a == b,
    decreases a.len(),
{
    if a.len() > 0 && b.len() > 0 {
        lemma_text_le_antisymmetric(a.drop_first(), b.drop_first());
        assert(a =~= seq![a[0]] + a.drop_first());
        assert(b =~= seq![b[0]] + b.drop_first());
    } else {
        assert(a =~= b);
    }
}

/// The order of texts is transitive.
pub proof fn lemma_text_le_transitive(a: Seq<char>, b: Seq<char>, c: Seq<char>)
    requires
        text_le(a, b),
        text_le(b, c),
    ensures
        text_le(a, c),
    decreases a.len(),
{
    if a.len() > 0 && a[0] == b[0] && b[0] == c[0] {
        lemma_text_le_transitive(a.drop_first(), b.drop_first(), c.drop_first());
    }
}

/// Of two texts, one stands at or before the other.
pub proof fn lemma_text_le_total(a: Seq<char>, b: Seq<char>)
    ensures
        text_le(a, b) || text_le(b, a),
    decreases a.len(),
{
    if a.len() > 0 && b.len() > 0 {
        lemma_text_le_total(a.drop_first(), b.drop_first());
    }
}

/// A common beginning does not matter for the order of two texts.
proof fn lemma_text_le_skip(a: Seq<char>, b: Seq<char>, k: nat)
    requires
        k <= a.len(),
        k <= b.len(),
        forall|j: int| 0 <= j < k ==> a[j] == b[j],
    ensures
        text_le(a, b) == text_le(a.skip(k as int), b.skip(k as int)),
    decreases k,
{
    if k == 0 {
        assert(a.skip(0) =~= a);
        assert(b.skip(0) =~= b);
    } else {
        let (ta, tb) = (a.drop_first(), b.drop_first());
        assert forall|j: int| 0 <= j < k - 1 implies ta[j] == tb[j] by {
            assert(a[j + 1] == b[j + 1]);
        }
        lemma_text_le_skip(ta, tb, (k - 1) as nat);
        assert(ta.skip(k - 1) =~= a.skip(k as int));
        assert(tb.skip(k - 1) =~= b.skip(k as int));
    }
}

/// Two texts with a common beginning of `k` characters are in the order of the characters behind
/// it, and a text that ends there stands before one that goes on.
pub proof fn law_text_order(a: Seq<char>, b: Seq<char>, k: nat)
    requires
        k <= a.len(),
        k <= b.len(),
        forall|j: int| 0 <= j < k ==> a[j] == b[j],
    ensures
        k == a.len() ==> text_le(a, b),
        k == b.len() && k < a.len() ==> !text_le(a, b),
        k < a.len() && k < b.len() && a[k as int] < b[k as int] ==> text_le(a, b),
        k < a.len() && k < b.len() && a[k as int] > b[k as int] ==> !text_le(a, b),
{
    lemma_text_le_skip(a, b, k);
}

/// Compares two ASCII texts in dictionary order.
pub fn compare_text(a: &str, b: &str) -> (r: bool)
    requires
        is_ascii_chars(a@),
        is_ascii_chars(b@),
    ensures
        r == text_le(a@, b@),
{
    broadcast use is_ascii_spec_bytes;

    assert(is_ascii(a) && is_ascii(b));
    let left = a.as_bytes();
    let right = b.as_bytes();
    let mut i: usize = 0;
    while i < left.len() && i < right.len()
        invariant
            is_ascii_chars(a@),
            is_ascii_chars(b@),
            left@ =~= Seq::new(a@.len(), |j: int| a@[j] as u8),
            right@ =~= Seq::new(b@.len(), |j: int| b@[j] as u8),
            i <= left.len(),
            i <= right.len(),
            forall|j: int| 0 <= j < i ==> a@[j] == b@[j],
        decreases left.len() - i,
    {
        proof {
            lemma_text_le_skip(a@, b@, i as nat);
            let (ta, tb) = (a@.skip(i as int), b@.skip(i as int));
            assert(ta[0] == a@[i as int] && tb[0] == b@[i as int]);
            assert(a@[i as int] as nat <= 127 && b@[i as int] as nat <= 127);
        }
        if left[i] < right[i] {
            return true;
        }
        if left[i] > right[i] {
            return false;
        }
        i += 1;
    }
    proof {
        lemma_text_le_skip(a@, b@, i as nat);
    }
    i == left.len()
}

} // verus!
