//! What holds of every list of transactions and traces that stands for a genesis state.

use vstd::prelude::*;
use vstd::relations::*;
use vstd::seq_lib::*;
use vstd::utf8::encode_utf8;

use crate::bindings::md5_digest;
use crate::block::TransactionModel;
use crate::genesis::{
    account_items, account_of, address_order, addresses, balance_item, code_item, genesis_id,
    genesis_items, genesis_trace, genesis_traces, genesis_transaction, genesis_transactions,
    items_of, lemma_address_order, lemma_prefixed_injective, native_token, native_token_item,
    position, GenesisItem,
};
use crate::lists::{keys_distinct, lemma_filter_map_order, picks};
use crate::primitives::Address;
use crate::records::{record_id, trace_source, TraceModel};
use crate::state_diff::GenesisAccount;
use crate::text::{
    decimal, hex_chars, hex_digit, lemma_hex_digit, lemma_text_le_antisymmetric, nibble,
    prefixed_hex, text_le,
};

verus! {

/// Transactions and traces come in pairs: the trace at a position is the one frame of the
/// transaction there, with its identifier, receiver, value and input, and the index of the
/// transaction is its position.
pub proof fn law_genesis_pairs(alloc: Seq<(Address, GenesisAccount)>, i: int)
    requires
        0 <= i < genesis_transactions(genesis_items(alloc)).len(),
    ensures
        ({
            let txs = genesis_transactions(genesis_items(alloc));
            let traces = genesis_traces(genesis_items(alloc));
            &&& traces.len() == txs.len()
            &&& txs[i].transaction_index == i
            &&& txs[i].status
            &&& traces[i].tx_id == txs[i].id
            &&& traces[i].from_addr == txs[i].from
            &&& traces[i].to_addr == txs[i].to
            &&& traces[i].value == txs[i].value
            &&& traces[i].input == txs[i].input
            &&& traces[i].parent_trace_id.len() == 0
            &&& traces[i].id == record_id(trace_source(traces[i]))
        }),
{
    let items = genesis_items(alloc);
    let trace = genesis_traces(items)[i];
    assert(trace == genesis_trace(items[i]));
    reveal_strlit("0");
    assert(decimal(0) =~= "0"@);
    assert(trace_source(trace) =~= items[i].id + "0"@);
}

/// The native token comes last.
pub proof fn law_native_token_last(alloc: Seq<(Address, GenesisAccount)>)
    ensures
        genesis_transactions(genesis_items(alloc)).len() > 0,
        genesis_transactions(genesis_items(alloc)).last().to == native_token(),
        genesis_transactions(genesis_items(alloc)).last().id == genesis_id(
            "0xgenesis03"@,
            native_token(),
        ),
{
}

// ---------------------------------------------------------------------------------------------
// Identifiers
// ---------------------------------------------------------------------------------------------

/// An identifier tells what it stands for and the address.
proof fn lemma_id_injective(k: Seq<char>, a: Seq<u8>, l: Seq<char>, b: Seq<u8>)
    requires
        k.len() == l.len(),
        genesis_id(k, a) == genesis_id(l, b),
    ensures
        k == l,
        a == b,
{
    let n = k.len() as int;
    let m = "0000000000000"@.len() as int;
    assert(genesis_id(k, a).take(n) =~= k);
    assert(genesis_id(l, b).take(n) =~= l);
    assert(genesis_id(k, a).skip(n + m) =~= prefixed_hex(a));
    assert(genesis_id(l, b).skip(n + m) =~= prefixed_hex(b));
    lemma_prefixed_injective(a, b);
}

/// Whether an identifier stands for the balance or the code of an account.
spec fn is_account_id(id: Seq<char>, address: Seq<u8>) -> bool {
    id == genesis_id("0xgenesis01"@, address) || id == genesis_id("0xgenesis02"@, address)
}

proof fn lemma_kinds()
    ensures
        "0xgenesis01"@.len() == 11,
        "0xgenesis02"@.len() == 11,
        "0xgenesis03"@.len() == 11,
        "0xgenesis01"@ != "0xgenesis02"@,
        "0xgenesis01"@ != "0xgenesis03"@,
        "0xgenesis02"@ != "0xgenesis03"@,
{
    reveal_strlit("0xgenesis01");
    reveal_strlit("0xgenesis02");
    reveal_strlit("0xgenesis03");
    assert("0xgenesis01"@[10] == '1');
    assert("0xgenesis02"@[10] == '2');
    assert("0xgenesis03"@[10] == '3');
}

proof fn lemma_items_distinct(alloc: Seq<(Address, GenesisAccount)>, keys: Seq<Seq<u8>>)
    requires
        keys.no_duplicates(),
    ensures
        forall|i: int|
            0 <= i < items_of(alloc, keys).len() ==> keys.contains(
                (#[trigger] items_of(alloc, keys)[i]).to,
            ) && is_account_id(items_of(alloc, keys)[i].id, items_of(alloc, keys)[i].to),
        forall|i: int, j: int|
            0 <= i < j < items_of(alloc, keys).len() ==> (#[trigger] items_of(alloc, keys)[i]).id
                != (#[trigger] items_of(alloc, keys)[j]).id,
    decreases keys.len(),
{
    if keys.len() > 0 {
        let rest = keys.drop_last();
        let key = keys.last();
        let before = items_of(alloc, rest);
        let own = account_items(key, account_of(alloc, key));
        let all = items_of(alloc, keys);
        lemma_items_distinct(alloc, rest);
        lemma_kinds();
        assert forall|i: int| 0 <= i < all.len() implies keys.contains((#[trigger] all[i]).to)
            && is_account_id(all[i].id, all[i].to) by {
            if i < before.len() {
                assert(all[i] == before[i]);
                let k = choose|k: int| 0 <= k < rest.len() && rest[k] == before[i].to;
                assert(keys[k] == all[i].to);
            } else {
                assert(all[i] == own[i - before.len()]);
                assert(keys[keys.len() - 1] == key);
            }
        }
        assert forall|i: int, j: int| 0 <= i < j < all.len() implies (#[trigger] all[i]).id != (
        #[trigger] all[j]).id by {
            if j < before.len() {
                assert(before[i].id != before[j].id);
            } else if i < before.len() {
                let k = choose|k: int| 0 <= k < rest.len() && rest[k] == before[i].to;
                assert(keys[k] != keys[keys.len() - 1]);
                assert(all[j].to == key);
                if all[i].id == all[j].id {
                    lemma_same_account(all[i].id, all[i].to, key);
                }
            } else {
                assert(all[i] == own[i - before.len()]);
                assert(all[j] == own[j - before.len()]);
                if all[i].id == all[j].id {
                    lemma_id_injective("0xgenesis01"@, key, "0xgenesis02"@, key);
                }
            }
        }
    }
}

/// An identifier stands for one account only.
proof fn lemma_same_account(id: Seq<char>, a: Seq<u8>, b: Seq<u8>)
    requires
        is_account_id(id, a),
        is_account_id(id, b),
    ensures
        a == b,
{
    lemma_kinds();
    let k = if id == genesis_id("0xgenesis01"@, a) { "0xgenesis01"@ } else { "0xgenesis02"@ };
    let l = if id == genesis_id("0xgenesis01"@, b) { "0xgenesis01"@ } else { "0xgenesis02"@ };
    lemma_id_injective(k, a, l, b);
}

proof fn lemma_keys_distinct(alloc: Seq<(Address, GenesisAccount)>)
    requires
        keys_distinct(alloc),
    ensures
        addresses(alloc).no_duplicates(),
{
    let keys = addresses(alloc);
    assert forall|i: int, j: int|
        0 <= i < keys.len() && 0 <= j < keys.len() && i != j implies keys[i] != keys[j] by {
        if i < j {
            assert(alloc[i].0@ != alloc[j].0@);
        } else {
            assert(alloc[j].0@ != alloc[i].0@);
        }
    }
}

/// No two transactions of the genesis state have the same identifier, if no two of its accounts
/// have the same address.
pub proof fn law_genesis_ids_distinct(alloc: Seq<(Address, GenesisAccount)>, i: int, j: int)
    requires
        keys_distinct(alloc),
        0 <= i < j < genesis_transactions(genesis_items(alloc)).len(),
    ensures
        genesis_transactions(genesis_items(alloc))[i].id != genesis_transactions(
            genesis_items(alloc),
        )[j].id,
{
    let keys = addresses(alloc);
    let sorted = keys.sort_by(address_order());
    lemma_keys_distinct(alloc);
    lemma_address_order();
    keys.lemma_sort_by_ensures(address_order());
    keys.lemma_multiset_has_no_duplicates();
    sorted.lemma_multiset_has_no_duplicates_conv();
    lemma_items_distinct(alloc, sorted);
    let items = items_of(alloc, sorted);
    let all = genesis_items(alloc);
    assert(all[i] == items[i]);
    if j < items.len() {
        assert(all[j] == items[j]);
    } else {
        assert(all[j] == native_token_item());
        lemma_kinds();
        if all[i].id == all[j].id {
            if items[i].id == genesis_id("0xgenesis01"@, items[i].to) {
                lemma_id_injective("0xgenesis01"@, items[i].to, "0xgenesis03"@, native_token());
            } else {
                lemma_id_injective("0xgenesis02"@, items[i].to, "0xgenesis03"@, native_token());
            }
        }
    }
}

// ---------------------------------------------------------------------------------------------
// Order
// ---------------------------------------------------------------------------------------------

/// Whether one byte string stands before another one of the same length.
pub open spec fn bytes_lt(a: Seq<u8>, b: Seq<u8>) -> bool
    decreases a.len(),
{
    a.len() > 0 && b.len() > 0 && (a[0] < b[0] || a[0] == b[0] && bytes_lt(
        a.drop_first(),
        b.drop_first(),
    ))
}

proof fn lemma_hex_first(a: Seq<u8>)
    requires
        a.len() > 0,
    ensures
        hex_chars(a) == seq![hex_digit(a[0] as int / 16), hex_digit(a[0] as int % 16)] + hex_chars(
            a.drop_first(),
        ),
{
    let rest = a.drop_first();
    let text = seq![hex_digit(a[0] as int / 16), hex_digit(a[0] as int % 16)] + hex_chars(rest);
    assert forall|i: int| 0 <= i < text.len() implies hex_chars(a)[i] == #[trigger] text[i] by {
        if i >= 2 {
            assert((i - 2) / 2 == i / 2 - 1 && (i - 2) % 2 == i % 2);
            assert(nibble(rest, i - 2) == nibble(a, i));
        }
    }
    assert(hex_chars(a) =~= text);
}

/// The texts of byte strings are in the order of the byte strings.
proof fn lemma_hex_order(a: Seq<u8>, b: Seq<u8>)
    requires
        a.len() == b.len(),
        bytes_lt(a, b),
    ensures
        text_le(hex_chars(a), hex_chars(b)),
    decreases a.len(),
{
    lemma_hex_first(a);
    lemma_hex_first(b);
    let (ra, rb) = (hex_chars(a.drop_first()), hex_chars(b.drop_first()));
    let (ta, tb) = (hex_chars(a), hex_chars(b));
    assert(ta.drop_first().drop_first() =~= ra);
    assert(tb.drop_first().drop_first() =~= rb);
    lemma_hex_digit(a[0] as int / 16);
    lemma_hex_digit(a[0] as int % 16);
    lemma_hex_digit(b[0] as int / 16);
    lemma_hex_digit(b[0] as int % 16);
    if a[0] == b[0] {
        lemma_hex_order(a.drop_first(), b.drop_first());
    }
    assert(text_le(ta.drop_first(), tb.drop_first()) || ta[0] < tb[0]);
}

/// Accounts that stand in the order of their addresses, as in an ordered map, are taken in the
/// order in which they stand.
pub proof fn law_genesis_stored_order(alloc: Seq<(Address, GenesisAccount)>)
    requires
        forall|i: int, j: int|
            0 <= i < j < alloc.len() ==> bytes_lt(
                (#[trigger] alloc[i]).0@,
                (#[trigger] alloc[j]).0@,
            ),
    ensures
        genesis_items(alloc) == items_of(alloc, addresses(alloc)).push(native_token_item()),
{
    let keys = addresses(alloc);
    let le = address_order();
    lemma_address_order();
    keys.lemma_sort_by_ensures(le);
    assert forall|i: int, j: int| 0 <= i < j < keys.len() implies #[trigger] le(
        keys[i],
        keys[j],
    ) by {
        assert(bytes_lt(alloc[i].0@, alloc[j].0@));
        lemma_hex_order(keys[i], keys[j]);
        let (ta, tb) = (prefixed_hex(keys[i]), prefixed_hex(keys[j]));
        assert(ta.drop_first().drop_first() =~= hex_chars(keys[i]));
        assert(tb.drop_first().drop_first() =~= hex_chars(keys[j]));
        assert(text_le(ta.drop_first(), tb.drop_first()));
    }
    lemma_sorted_unique(keys, keys.sort_by(le), le);
}

/// The account with an address is the one that stands with it.
proof fn lemma_account_of(alloc: Seq<(Address, GenesisAccount)>, i: int)
    requires
        addresses(alloc).no_duplicates(),
        0 <= i < alloc.len(),
    ensures
        account_of(alloc, alloc[i].0@) == alloc[i].1,
{
    lemma_position(addresses(alloc), i);
}

proof fn lemma_position(keys: Seq<Seq<u8>>, i: int)
    requires
        keys.no_duplicates(),
        0 <= i < keys.len(),
    ensures
        position(keys, keys[i]) == i,
    decreases keys.len(),
{
    if i > 0 {
        let rest = keys.drop_first();
        assert(keys[0] != keys[i]);
        assert(rest[i - 1] == keys[i]);
        lemma_position(rest, i - 1);
    }
}

/// What stands for some accounts follows from these accounts alone.
proof fn lemma_items_same(
    a: Seq<(Address, GenesisAccount)>,
    b: Seq<(Address, GenesisAccount)>,
    keys: Seq<Seq<u8>>,
)
    requires
        forall|k: int|
            0 <= k < keys.len() ==> account_of(a, #[trigger] keys[k]) == account_of(b, keys[k]),
    ensures
        items_of(a, keys) == items_of(b, keys),
    decreases keys.len(),
{
    if keys.len() > 0 {
        assert(account_of(a, keys[keys.len() - 1]) == account_of(b, keys[keys.len() - 1]));
        lemma_items_same(a, b, keys.drop_last());
    }
}

/// The order in which the accounts of a genesis state stand does not matter, if no two of them
/// have the same address.
pub proof fn law_genesis_order(
    a: Seq<(Address, GenesisAccount)>,
    b: Seq<(Address, GenesisAccount)>,
)
    requires
        a.to_multiset() == b.to_multiset(),
        keys_distinct(a),
    ensures
        genesis_items(a) == genesis_items(b),
{
    broadcast use group_to_multiset_ensures;

    let le = address_order();
    let by_key = |entry: (Address, GenesisAccount)| Some(entry.0@);
    let (ka, kb) = (addresses(a), addresses(b));
    lemma_keys_distinct(a);
    lemma_all_kept(a, by_key);
    lemma_all_kept(b, by_key);
    lemma_filter_map_order(a, b, by_key);
    lemma_address_order();
    ka.lemma_sort_by_ensures(le);
    kb.lemma_sort_by_ensures(le);
    lemma_sorted_unique(ka.sort_by(le), kb.sort_by(le), le);
    ka.lemma_multiset_has_no_duplicates();
    kb.lemma_multiset_has_no_duplicates_conv();
    let keys = ka.sort_by(le);
    assert forall|k: int| 0 <= k < keys.len() implies account_of(a, #[trigger] keys[k])
        == account_of(b, keys[k]) by {
        assert(keys.contains(keys[k]));
        assert(ka.contains(keys[k]));
        let i = choose|i: int| 0 <= i < ka.len() && ka[i] == keys[k];
        assert(a.contains(a[i]));
        assert(a.to_multiset().count(a[i]) > 0);
        assert(b.contains(a[i]));
        let j = choose|j: int| 0 <= j < b.len() && b[j] == a[i];
        lemma_account_of(a, i);
        lemma_account_of(b, j);
    }
    lemma_items_same(a, b, keys);
}

proof fn lemma_all_kept(
    alloc: Seq<(Address, GenesisAccount)>,
    by_key: spec_fn((Address, GenesisAccount)) -> Option<Seq<u8>>,
)
    requires
        forall|entry: (Address, GenesisAccount)| #[trigger] by_key(entry) == Some(entry.0@),
    ensures
        alloc.filter_map(by_key) == addresses(alloc),
    decreases alloc.len(),
{
    if alloc.len() > 0 {
        lemma_all_kept(alloc.drop_last(), by_key);
        assert(by_key(alloc.last()) == Some(alloc.last().0@));
    }
    assert(alloc.filter_map(by_key) =~= addresses(alloc));
}

// ---------------------------------------------------------------------------------------------
// What stands for the accounts
// ---------------------------------------------------------------------------------------------

/// Whether a transaction at position `j` gives something to an address from nowhere, and costs
/// nothing.
pub open spec fn gives(
    tx: TransactionModel,
    j: int,
    id: Seq<char>,
    to: Seq<u8>,
    value: nat,
    code: Seq<u8>,
) -> bool {
    &&& tx.id == id
    &&& tx.from == Seq::new(20, |i: int| 0u8)
    &&& tx.to == to
    &&& tx.value == value
    &&& tx.input == code
    &&& tx.transaction_index == j
    &&& tx.status
    &&& tx.nonce == 0
    &&& tx.gas_limit == 0 && tx.gas_price == 0 && tx.gas_used == 0
    &&& tx.gas_fee_cap == 0 && tx.gas_tip_cap == 0
}

/// Whether a trace is the only one of the transaction with this identifier, and gives something to
/// an address from nowhere.
pub open spec fn gives_as_trace(
    trace: TraceModel,
    id: Seq<char>,
    to: Seq<u8>,
    value: nat,
    code: Seq<u8>,
) -> bool {
    &&& trace.id == hex_chars(md5_digest(encode_utf8(id + "0"@)))
    &&& trace.tx_id == id
    &&& trace.from_addr == Seq::new(20, |i: int| 0u8)
    &&& trace.to_addr == to
    &&& trace.value == value
    &&& trace.input == code
    &&& trace.output == code
    &&& trace.gas_limit == 0 && trace.gas_used == 0
    &&& trace.parent_trace_id.len() == 0 && trace.pos_in_parent_trace == 0
    &&& trace.trace_address.len() == 0 && trace.subtraces == 0
    &&& trace.error.len() == 0
    &&& !trace.self_storage_change && !trace.storage_change
}

/// The identifier of a genesis transaction: what it stands for, thirteen zeroes and the address.
pub open spec fn id_for(kind: Seq<char>, address: Seq<u8>) -> Seq<char> {
    kind + Seq::new(13, |i: int| '0') + prefixed_hex(address)
}

/// Whether a transaction and its trace transfer to an account the balance that it has.
pub open spec fn transfers_balance(
    tx: TransactionModel,
    trace: TraceModel,
    j: int,
    entry: (Address, GenesisAccount),
) -> bool {
    let (id, to) = (id_for("0xgenesis01"@, entry.0.bytes@), entry.0.bytes@);
    &&& entry.1.balance@ > 0
    &&& gives(tx, j, id, to, entry.1.balance@, Seq::empty())
    &&& gives_as_trace(trace, id, to, entry.1.balance@, Seq::empty())
    &&& trace.call_create_type == "call"@
    &&& trace.call_type == "call"@
}

/// Whether a transaction and its trace create for an account the code that it has.
pub open spec fn creates_code(
    tx: TransactionModel,
    trace: TraceModel,
    j: int,
    entry: (Address, GenesisAccount),
) -> bool {
    let (id, to) = (id_for("0xgenesis02"@, entry.0.bytes@), entry.0.bytes@);
    &&& entry.1.code is Some
    &&& (entry.1.code->0)@.len() > 0
    &&& gives(tx, j, id, to, 0, (entry.1.code->0)@)
    &&& gives_as_trace(trace, id, to, 0, (entry.1.code->0)@)
    &&& trace.call_create_type == "create"@
    &&& trace.call_type.len() == 0
}

/// Whether a transaction and its trace create the native token.
pub open spec fn creates_native_token(tx: TransactionModel, trace: TraceModel, j: int) -> bool {
    let to = Seq::new(20, |i: int| 0xeeu8);
    let id = id_for("0xgenesis03"@, to);
    &&& gives(tx, j, id, to, 0, Seq::empty())
    &&& gives_as_trace(trace, id, to, 0, Seq::empty())
    &&& trace.call_create_type == "create"@
    &&& trace.call_type.len() == 0
}

proof fn lemma_id_for(kind: Seq<char>, address: Seq<u8>)
    ensures
        genesis_id(kind, address) == id_for(kind, address),
{
    reveal_strlit("0000000000000");
    assert("0000000000000"@ =~= Seq::new(13, |i: int| '0'));
}

proof fn lemma_item_pair(item: GenesisItem, j: nat)
    ensures
        gives(genesis_transaction(item, j), j as int, item.id, item.to, item.value, item.code),
        gives_as_trace(genesis_trace(item), item.id, item.to, item.value, item.code),
        item.creates ==> genesis_trace(item).call_create_type == "create"@ && genesis_trace(
            item,
        ).call_type.len() == 0,
        !item.creates ==> genesis_trace(item).call_create_type == "call"@ && genesis_trace(
            item,
        ).call_type == "call"@,
{
}

/// Whether an item stands for the balance of the account with an address.
spec fn is_balance_of(
    item: GenesisItem,
    alloc: Seq<(Address, GenesisAccount)>,
    key: Seq<u8>,
) -> bool {
    let account = account_of(alloc, key);
    account.balance@ > 0 && item == balance_item(key, account)
}

/// Whether an item stands for the code of the account with an address.
spec fn is_code_of(
    item: GenesisItem,
    alloc: Seq<(Address, GenesisAccount)>,
    key: Seq<u8>,
) -> bool {
    let account = account_of(alloc, key);
    account.code is Some && (account.code->0)@.len() > 0 && item == code_item(
        key,
        (account.code->0)@,
    )
}

proof fn lemma_items_sound(alloc: Seq<(Address, GenesisAccount)>, keys: Seq<Seq<u8>>, j: int)
    requires
        0 <= j < items_of(alloc, keys).len(),
    ensures
        exists|k: int|
            0 <= k < keys.len() && (is_balance_of(
                items_of(alloc, keys)[j],
                alloc,
                #[trigger] keys[k],
            ) || is_code_of(items_of(alloc, keys)[j], alloc, keys[k])),
    decreases keys.len(),
{
    let rest = keys.drop_last();
    let before = items_of(alloc, rest);
    let item = items_of(alloc, keys)[j];
    if j < before.len() {
        lemma_items_sound(alloc, rest, j);
        let k = choose|k: int|
            0 <= k < rest.len() && (is_balance_of(item, alloc, #[trigger] rest[k]) || is_code_of(
                item,
                alloc,
                rest[k],
            ));
        assert(keys[k] == rest[k]);
    } else {
        let k = keys.len() - 1;
        let own = account_items(keys[k], account_of(alloc, keys[k]));
        assert(item == own[j - before.len()]);
        assert(is_balance_of(item, alloc, keys[k]) || is_code_of(item, alloc, keys[k]));
    }
}

proof fn lemma_items_complete(alloc: Seq<(Address, GenesisAccount)>, keys: Seq<Seq<u8>>, k: int)
    requires
        0 <= k < keys.len(),
    ensures
        account_of(alloc, keys[k]).balance@ > 0 ==> exists|j: int|
            0 <= j < items_of(alloc, keys).len() && is_balance_of(
                #[trigger] items_of(alloc, keys)[j],
                alloc,
                keys[k],
            ),
        account_of(alloc, keys[k]).code is Some && (account_of(alloc, keys[k]).code->0)@.len()
            > 0 ==> exists|j: int|
            0 <= j < items_of(alloc, keys).len() && is_code_of(
                #[trigger] items_of(alloc, keys)[j],
                alloc,
                keys[k],
            ),
    decreases keys.len(),
{
    let rest = keys.drop_last();
    let before = items_of(alloc, rest);
    let all = items_of(alloc, keys);
    let account = account_of(alloc, keys[k]);
    if k < rest.len() {
        assert(rest[k] == keys[k]);
        lemma_items_complete(alloc, rest, k);
        if account.balance@ > 0 {
            let j = choose|j: int|
                0 <= j < before.len() && is_balance_of(#[trigger] before[j], alloc, keys[k]);
            assert(all[j] == before[j]);
        }
        if account.code is Some && (account.code->0)@.len() > 0 {
            let j = choose|j: int|
                0 <= j < before.len() && is_code_of(#[trigger] before[j], alloc, keys[k]);
            assert(all[j] == before[j]);
        }
    } else {
        let own = account_items(keys[k], account);
        let s = before.len() as int;
        assert(all =~= before + own);
        if account.balance@ > 0 {
            assert(own[0] == balance_item(keys[k], account));
            assert(all[s] == own[0]);
            assert(is_balance_of(all[s], alloc, keys[k]));
        }
        if account.code is Some && (account.code->0)@.len() > 0 {
            let last = own.len() - 1;
            assert(own[last] == code_item(keys[k], (account.code->0)@));
            assert(all[s + last] == own[last]);
            assert(is_code_of(all[s + last], alloc, keys[k]));
        }
    }
}

/// The sorted addresses are those of the accounts.
proof fn lemma_sorted_keys(alloc: Seq<(Address, GenesisAccount)>)
    ensures
        ({
            let keys = addresses(alloc).sort_by(address_order());
            &&& keys.to_multiset() == addresses(alloc).to_multiset()
            &&& sorted_by(keys, address_order())
            &&& keys.len() == alloc.len()
            &&& forall|k: int|
                0 <= k < keys.len() ==> addresses(alloc).contains(#[trigger] keys[k])
            &&& forall|i: int|
                0 <= i < alloc.len() ==> keys.contains((#[trigger] alloc[i]).0.bytes@)
        }),
{
    broadcast use group_to_multiset_ensures;

    let all = addresses(alloc);
    lemma_address_order();
    all.lemma_sort_by_ensures(address_order());
    let keys = all.sort_by(address_order());
    assert(keys.len() == keys.to_multiset().len());
    assert(all.len() == all.to_multiset().len());
    assert forall|k: int| 0 <= k < keys.len() implies all.contains(#[trigger] keys[k]) by {
        assert(keys.contains(keys[k]));
        assert(keys.to_multiset().count(keys[k]) > 0);
    }
    assert forall|i: int| 0 <= i < alloc.len() implies keys.contains(
        (#[trigger] alloc[i]).0.bytes@,
    ) by {
        assert(all[i] == alloc[i].0.bytes@);
        assert(all.contains(all[i]));
        assert(all.to_multiset().count(all[i]) > 0);
    }
}

/// Every positive balance in the genesis state is transferred to its account, and every code that
/// is not empty is created for its account.
pub proof fn law_genesis_complete(alloc: Seq<(Address, GenesisAccount)>, i: int)
    requires
        keys_distinct(alloc),
        0 <= i < alloc.len(),
    ensures
        ({
            let txs = genesis_transactions(genesis_items(alloc));
            let traces = genesis_traces(genesis_items(alloc));
            let account = alloc[i].1;
            &&& account.balance@ > 0 ==> exists|j: int|
                0 <= j < txs.len() && transfers_balance(
                    #[trigger] txs[j],
                    traces[j],
                    j,
                    alloc[i],
                )
            &&& account.code is Some && (account.code->0)@.len() > 0 ==> exists|j: int|
                0 <= j < txs.len() && creates_code(#[trigger] txs[j], traces[j], j, alloc[i])
        }),
{
    let keys = addresses(alloc).sort_by(address_order());
    let items = items_of(alloc, keys);
    let all = genesis_items(alloc);
    let (txs, traces) = (genesis_transactions(all), genesis_traces(all));
    let key = alloc[i].0.bytes@;
    lemma_sorted_keys(alloc);
    lemma_keys_distinct(alloc);
    lemma_account_of(alloc, i);
    assert(keys.contains(key));
    let k = choose|k: int| 0 <= k < keys.len() && keys[k] == key;
    lemma_items_complete(alloc, keys, k);
    lemma_id_for("0xgenesis01"@, key);
    lemma_id_for("0xgenesis02"@, key);
    let account = alloc[i].1;
    if account.balance@ > 0 {
        let j = choose|j: int|
            0 <= j < items.len() && is_balance_of(#[trigger] items[j], alloc, key);
        assert(all[j] == items[j]);
        lemma_item_pair(all[j], j as nat);
        assert(transfers_balance(txs[j], traces[j], j, alloc[i]));
    }
    if account.code is Some && (account.code->0)@.len() > 0 {
        let j = choose|j: int| 0 <= j < items.len() && is_code_of(#[trigger] items[j], alloc, key);
        assert(all[j] == items[j]);
        lemma_item_pair(all[j], j as nat);
        assert(creates_code(txs[j], traces[j], j, alloc[i]));
    }
}

/// Every transaction of the genesis state but the last one transfers the balance or creates the
/// code of a genesis account, and the last one creates the native token.
pub proof fn law_genesis_sound(alloc: Seq<(Address, GenesisAccount)>, j: int)
    requires
        keys_distinct(alloc),
        0 <= j < genesis_transactions(genesis_items(alloc)).len(),
    ensures
        ({
            let txs = genesis_transactions(genesis_items(alloc));
            let traces = genesis_traces(genesis_items(alloc));
            &&& traces.len() == txs.len()
            &&& j == txs.len() - 1 ==> creates_native_token(txs[j], traces[j], j)
            &&& j < txs.len() - 1 ==> exists|i: int|
                0 <= i < alloc.len() && (transfers_balance(
                    txs[j],
                    traces[j],
                    j,
                    #[trigger] alloc[i],
                ) || creates_code(txs[j], traces[j], j, alloc[i]))
        }),
{
    let keys = addresses(alloc).sort_by(address_order());
    let items = items_of(alloc, keys);
    let all = genesis_items(alloc);
    let (txs, traces) = (genesis_transactions(all), genesis_traces(all));
    lemma_item_pair(all[j], j as nat);
    if j == all.len() - 1 {
        lemma_id_for("0xgenesis03"@, native_token());
        assert(native_token() =~= Seq::new(20, |i: int| 0xeeu8));
    } else {
        lemma_items_sound(alloc, keys, j);
        let k = choose|k: int|
            0 <= k < keys.len() && (is_balance_of(items[j], alloc, #[trigger] keys[k])
                || is_code_of(items[j], alloc, keys[k]));
        lemma_sorted_keys(alloc);
        lemma_keys_distinct(alloc);
        assert(addresses(alloc).contains(keys[k]));
        let i = choose|i: int|
            0 <= i < addresses(alloc).len() && addresses(alloc)[i] == keys[k];
        lemma_account_of(alloc, i);
        lemma_id_for("0xgenesis01"@, keys[k]);
        lemma_id_for("0xgenesis02"@, keys[k]);
        assert(all[j] == items[j]);
        assert(alloc[i].0.bytes@ == keys[k]);
        assert(transfers_balance(txs[j], traces[j], j, alloc[i]) || creates_code(
            txs[j],
            traces[j],
            j,
            alloc[i],
        ));
    }
}

proof fn lemma_items_count(
    alloc: Seq<(Address, GenesisAccount)>,
    keys: Seq<Seq<u8>>,
    paid: spec_fn(Seq<u8>) -> Option<Seq<u8>>,
    coded: spec_fn(Seq<u8>) -> Option<Seq<u8>>,
)
    requires
        forall|key: Seq<u8>|
            (#[trigger] paid(key)) is Some <==> account_of(alloc, key).balance@ > 0,
        forall|key: Seq<u8>|
            (#[trigger] coded(key)) is Some <==> account_of(alloc, key).code is Some && (
            account_of(alloc, key).code->0)@.len() > 0,
    ensures
        items_of(alloc, keys).len() == keys.filter_map(paid).len() + keys.filter_map(coded).len(),
    decreases keys.len(),
{
    if keys.len() > 0 {
        let last = keys[keys.len() - 1];
        lemma_items_count(alloc, keys.drop_last(), paid, coded);
        assert(paid(last) is Some <==> account_of(alloc, last).balance@ > 0);
        assert(coded(last) is Some <==> account_of(alloc, last).code is Some && (
        account_of(alloc, last).code->0)@.len() > 0);
    }
}

/// Keys are picked as their entries are.
proof fn lemma_picked_count(
    alloc: Seq<(Address, GenesisAccount)>,
    n: int,
    f: spec_fn(Seq<u8>) -> Option<Seq<u8>>,
    p: spec_fn((Address, GenesisAccount)) -> bool,
)
    requires
        0 <= n <= alloc.len(),
        forall|i: int|
            0 <= i < alloc.len() ==> (f((#[trigger] alloc[i]).0.bytes@) is Some <==> p(alloc[i])),
    ensures
        addresses(alloc).take(n).filter_map(f).len() == picks(alloc.take(n), p).len(),
    decreases n,
{
    let (keys, entries) = (addresses(alloc).take(n), alloc.take(n));
    if n > 0 {
        lemma_picked_count(alloc, n - 1, f, p);
        assert(keys.drop_last() =~= addresses(alloc).take(n - 1));
        assert(entries.drop_last() =~= alloc.take(n - 1));
        assert(keys.last() == alloc[n - 1].0.bytes@);
        assert(entries.last() == alloc[n - 1]);
    } else {
        assert(keys =~= Seq::empty());
        assert(entries =~= Seq::empty());
    }
}

/// The genesis state has as many transactions as positive balances and codes that are not empty,
/// and one for the native token.
pub proof fn law_genesis_count(alloc: Seq<(Address, GenesisAccount)>)
    requires
        keys_distinct(alloc),
    ensures
        genesis_transactions(genesis_items(alloc)).len() == picks(
            alloc,
            |entry: (Address, GenesisAccount)| entry.1.balance@ > 0,
        ).len() + picks(
            alloc,
            |entry: (Address, GenesisAccount)|
                entry.1.code is Some && (entry.1.code->0)@.len() > 0,
        ).len() + 1,
{
    broadcast use group_to_multiset_ensures;

    let all = addresses(alloc);
    let keys = all.sort_by(address_order());
    let paid = |key: Seq<u8>|
        if account_of(alloc, key).balance@ > 0 {
            Some(key)
        } else {
            None
        };
    let coded = |key: Seq<u8>|
        if account_of(alloc, key).code is Some && (account_of(alloc, key).code->0)@.len() > 0 {
            Some(key)
        } else {
            None
        };
    let pp = |entry: (Address, GenesisAccount)| entry.1.balance@ > 0;
    let pc = |entry: (Address, GenesisAccount)|
        entry.1.code is Some && (entry.1.code->0)@.len() > 0;
    lemma_sorted_keys(alloc);
    lemma_keys_distinct(alloc);
    lemma_items_count(alloc, keys, paid, coded);
    lemma_filter_map_order(keys, all, paid);
    lemma_filter_map_order(keys, all, coded);
    assert forall|i: int| 0 <= i < alloc.len() implies account_of(
        alloc,
        (#[trigger] alloc[i]).0.bytes@,
    ) == alloc[i].1 by {
        lemma_account_of(alloc, i);
    }
    let n = alloc.len() as int;
    lemma_picked_count(alloc, n, paid, pp);
    lemma_picked_count(alloc, n, coded, pc);
    assert(alloc.take(n) =~= alloc);
    assert(all.take(n) =~= all);
    assert(keys.filter_map(paid).len() == keys.filter_map(paid).to_multiset().len());
    assert(all.filter_map(paid).len() == all.filter_map(paid).to_multiset().len());
    assert(keys.filter_map(coded).len() == keys.filter_map(coded).to_multiset().len());
    assert(all.filter_map(coded).len() == all.filter_map(coded).to_multiset().len());
}

/// Of two different byte strings of the same length, one stands before the other.
proof fn lemma_bytes_total(a: Seq<u8>, b: Seq<u8>)
    requires
        a.len() == b.len(),
        a != b,
    ensures
        bytes_lt(a, b) || bytes_lt(b, a),
    decreases a.len(),
{
    if a.len() == 0 {
        assert(a =~= b);
    } else if a[0] == b[0] {
        if a.drop_first() == b.drop_first() {
            assert(a =~= seq![a[0]] + a.drop_first());
            assert(b =~= seq![b[0]] + b.drop_first());
        }
        lemma_bytes_total(a.drop_first(), b.drop_first());
    }
}

/// Addresses that stand in the order of their texts stand in the order of their bytes.
proof fn lemma_address_bytes(a: Seq<u8>, b: Seq<u8>)
    requires
        a.len() == b.len(),
        a != b,
        text_le(prefixed_hex(a), prefixed_hex(b)),
    ensures
        bytes_lt(a, b),
{
    lemma_bytes_total(a, b);
    if bytes_lt(b, a) {
        lemma_hex_order(b, a);
        let (ta, tb) = (prefixed_hex(a), prefixed_hex(b));
        assert(ta.drop_first().drop_first() =~= hex_chars(a));
        assert(tb.drop_first().drop_first() =~= hex_chars(b));
        assert(text_le(tb.drop_first(), ta.drop_first()));
        assert(text_le(tb, ta));
        lemma_text_le_antisymmetric(ta, tb);
        lemma_prefixed_injective(a, b);
    }
}

/// Whether two items stand for the same account and the balance comes first, or for two accounts
/// in their order among the keys.
spec fn items_follow(a: GenesisItem, b: GenesisItem, keys: Seq<Seq<u8>>, i: int, k: int) -> bool {
    &&& 0 <= i <= k < keys.len()
    &&& a.to == keys[i]
    &&& b.to == keys[k]
    &&& i == k ==> a.code.len() == 0 && b.code.len() > 0
}

proof fn lemma_items_follow(
    alloc: Seq<(Address, GenesisAccount)>,
    keys: Seq<Seq<u8>>,
    j: int,
    k: int,
)
    requires
        0 <= j < k < items_of(alloc, keys).len(),
    ensures
        exists|x: int, y: int|
            #[trigger] items_follow(items_of(alloc, keys)[j], items_of(alloc, keys)[k], keys, x, y),
    decreases keys.len(),
{
    let rest = keys.drop_last();
    let before = items_of(alloc, rest);
    let all = items_of(alloc, keys);
    let n = keys.len() - 1;
    let own = account_items(keys[n], account_of(alloc, keys[n]));
    if k < before.len() {
        lemma_items_follow(alloc, rest, j, k);
        let (x, y) = choose|x: int, y: int| #[trigger]
            items_follow(before[j], before[k], rest, x, y);
        assert(rest[x] == keys[x] && rest[y] == keys[y]);
        assert(items_follow(all[j], all[k], keys, x, y));
    } else {
        assert(all[k] == own[k - before.len()]);
        assert(all[k].to == keys[n]);
        if j < before.len() {
            lemma_items_sound(alloc, rest, j);
            let x = choose|x: int|
                0 <= x < rest.len() && (is_balance_of(before[j], alloc, #[trigger] rest[x])
                    || is_code_of(before[j], alloc, rest[x]));
            assert(rest[x] == keys[x]);
            assert(items_follow(all[j], all[k], keys, x, n));
        } else {
            assert(all[j] == own[j - before.len()]);
            assert(items_follow(all[j], all[k], keys, n, n));
        }
    }
}

/// The transactions of the genesis state stand in the order of the addresses of their accounts,
/// and for one account the transfer of its balance stands before the creation of its code.
pub proof fn law_genesis_by_address(alloc: Seq<(Address, GenesisAccount)>, j: int, k: int)
    requires
        keys_distinct(alloc),
        0 <= j < k < genesis_transactions(genesis_items(alloc)).len() - 1,
    ensures
        ({
            let (a, b) = (
                genesis_transactions(genesis_items(alloc))[j],
                genesis_transactions(genesis_items(alloc))[k],
            );
            ||| bytes_lt(a.to, b.to)
            ||| a.to == b.to && a.input.len() == 0 && b.input.len() > 0
        }),
{
    let all = addresses(alloc);
    let keys = all.sort_by(address_order());
    let items = items_of(alloc, keys);
    lemma_sorted_keys(alloc);
    lemma_keys_distinct(alloc);
    all.lemma_multiset_has_no_duplicates();
    keys.lemma_multiset_has_no_duplicates_conv();
    lemma_items_follow(alloc, keys, j, k);
    let (x, y) = choose|x: int, y: int| #[trigger] items_follow(items[j], items[k], keys, x, y);
    assert(genesis_items(alloc)[j] == items[j] && genesis_items(alloc)[k] == items[k]);
    if x < y {
        let le = address_order();
        assert(le(keys[x], keys[y]));
        assert(keys[x] != keys[y]);
        assert(all.contains(keys[x]) && all.contains(keys[y]));
        let i = choose|i: int| 0 <= i < all.len() && all[i] == keys[x];
        assert(keys[x] == alloc[i].0.bytes@);
        let i = choose|i: int| 0 <= i < all.len() && all[i] == keys[y];
        assert(keys[y] == alloc[i].0.bytes@);
        lemma_address_bytes(keys[x], keys[y]);
    }
}

} // verus!
