//! The transactions and traces that stand for the genesis state.

use vstd::prelude::*;
use vstd::relations::*;
use vstd::seq_lib::*;
use vstd::string::*;

use crate::bindings::{address_debug, address_display, to_lowercase};
use crate::block::{DebankTransaction, TransactionModel};
use crate::lists::{lemma_views_push, views};
use crate::primitives::{zero_bytes, Address, U256};
use crate::records::{
    copy_bytes, empty_trace, joined, lemma_joined_three, record_id, DebankID, DebankTrace,
    TraceModel,
};
use crate::state_diff::{Genesis, GenesisAccount};
use crate::text::{
    compare_text, hex_chars, lemma_hex_ascii, lemma_hex_injective, lemma_prefixed_hex_lower,
    lemma_text_le_antisymmetric, lemma_text_le_reflexive, lemma_text_le_total,
    lemma_text_le_transitive, prefixed_hex, text_le,
};

verus! {

// ---------------------------------------------------------------------------------------------
// The order of the accounts
// ---------------------------------------------------------------------------------------------

/// The addresses of genesis accounts, in the order of the accounts.
pub open spec fn addresses(alloc: Seq<(Address, GenesisAccount)>) -> Seq<Seq<u8>> {
    Seq::new(alloc.len(), |i: int| alloc[i].0@)
}

/// The order of addresses: that of their texts.
pub open spec fn address_order() -> spec_fn(Seq<u8>, Seq<u8>) -> bool {
    |a: Seq<u8>, b: Seq<u8>| text_le(prefixed_hex(a), prefixed_hex(b))
}

/// Two byte strings with the same prefixed hexadecimal text are the same.
pub proof fn lemma_prefixed_injective(a: Seq<u8>, b: Seq<u8>)
    requires
        prefixed_hex(a) == prefixed_hex(b),
    ensures
        a == b,
{
    assert(prefixed_hex(a).skip(2) =~= hex_chars(a));
    assert(prefixed_hex(b).skip(2) =~= hex_chars(b));
    lemma_hex_injective(a, b);
}

/// The order of addresses is total.
pub proof fn lemma_address_order()
    ensures
        total_ordering(address_order()),
{
    let le = address_order();
    assert forall|x: Seq<u8>| #[trigger] le(x, x) by {
        lemma_text_le_reflexive(prefixed_hex(x));
    }
    assert forall|x: Seq<u8>, y: Seq<u8>| #[trigger] le(x, y) && #[trigger] le(y, x) implies x
        == y by {
        lemma_text_le_antisymmetric(prefixed_hex(x), prefixed_hex(y));
        lemma_prefixed_injective(x, y);
    }
    assert forall|x: Seq<u8>, y: Seq<u8>, z: Seq<u8>| #[trigger]
        le(x, y) && #[trigger] le(y, z) implies le(x, z) by {
        lemma_text_le_transitive(prefixed_hex(x), prefixed_hex(y), prefixed_hex(z));
    }
    assert forall|x: Seq<u8>, y: Seq<u8>| #[trigger] le(x, y) || #[trigger] le(y, x) by {
        lemma_text_le_total(prefixed_hex(x), prefixed_hex(y));
    }
}

/// An address with its text.
struct AddressText {
    address: Address,
    text: String,
}

/// The addresses in a list.
spec fn keys_of(list: Seq<AddressText>) -> Seq<Seq<u8>> {
    Seq::new(list.len(), |i: int| list[i].address@)
}

/// Whether each address in a list has its own text.
spec fn texts_match(list: Seq<AddressText>) -> bool {
    forall|i: int|
        0 <= i < list.len() ==> (#[trigger] list[i]).text@ == prefixed_hex(list[i].address@)
}

/// An address with its text, which is in lower case.
fn with_text(address: Address) -> (r: AddressText)
    ensures
        r.address == address,
        r.text@ == prefixed_hex(address@),
{
    let text = to_lowercase(address_display(&address).as_str());
    AddressText { address, text }
}

/// Puts an address into an ordered list, behind those that stand at or before it.
fn insert_ordered(list: &mut Vec<AddressText>, entry: AddressText)
    requires
        texts_match(old(list)@),
        sorted_by(keys_of(old(list)@), address_order()),
        entry.text@ == prefixed_hex(entry.address@),
    ensures
        texts_match(final(list)@),
        sorted_by(keys_of(final(list)@), address_order()),
        keys_of(final(list)@).to_multiset() == keys_of(old(list)@).to_multiset().insert(
            entry.address@,
        ),
{
    let ghost le = address_order();
    let ghost before = list@;
    let ghost key = entry.address@;
    proof {
        lemma_address_order();
        lemma_hex_ascii(key);
    }
    let mut at: usize = list.len();
    let mut found = false;
    while at > 0 && !found
        invariant
            list@ == before,
            at <= list@.len(),
            texts_match(list@),
            sorted_by(keys_of(before), le),
            le == address_order(),
            total_ordering(le),
            key == entry.address@,
            entry.text@ == prefixed_hex(key),
            vstd::utf8::is_ascii_chars(entry.text@),
            forall|j: int| at <= j < before.len() ==> le(key, #[trigger] keys_of(before)[j]),
            found ==> at > 0 && le(keys_of(before)[at - 1], key),
        decreases at + if found { 0int } else { 1int },
    {
        proof {
            lemma_hex_ascii(list@[at - 1].address@);
        }
        if compare_text(list[at - 1].text.as_str(), entry.text.as_str()) {
            assert(le(keys_of(before)[at - 1], key));
            found = true;
        } else {
            assert(!le(keys_of(before)[at - 1], key));
            assert(le(key, keys_of(before)[at - 1]));
            at -= 1;
        }
    }
    list.insert(at, entry);
    proof {
        let (a, b) = (keys_of(before), keys_of(list@));
        assert(b =~= a.insert(at as int, key));
        to_multiset_insert(a, at as int, key);
        assert forall|i: int, j: int| 0 <= i < j < b.len() implies #[trigger] le(b[i], b[j]) by {
            if j < at {
                assert(le(a[i], a[j]));
            } else if j == at {
                assert(le(a[at - 1], key));
                if i < at - 1 {
                    assert(le(a[i], a[at - 1]));
                }
            } else if i == at {
                assert(le(key, a[j - 1]));
            } else if i < at {
                assert(le(a[i], a[j - 1]));
            } else {
                assert(le(a[i - 1], a[j - 1]));
            }
        }
    }
}

/// The addresses of the genesis accounts in the order of their texts.
fn sort_addresses(genesis: &Genesis) -> (r: Vec<AddressText>)
    ensures
        keys_of(r@) == addresses(genesis.alloc@).sort_by(address_order()),
{
    let ghost le = address_order();
    let ghost keys = addresses(genesis.alloc@);
    let mut list: Vec<AddressText> = Vec::new();
    let mut i: usize = 0;
    proof {
        assert(keys_of(list@) =~= Seq::empty());
        assert(keys.take(0) =~= Seq::empty());
    }
    while i < genesis.alloc.len()
        invariant
            i <= genesis.alloc@.len(),
            le == address_order(),
            keys == addresses(genesis.alloc@),
            texts_match(list@),
            sorted_by(keys_of(list@), le),
            keys_of(list@).to_multiset() == keys.take(i as int).to_multiset(),
        decreases genesis.alloc.len() - i,
    {
        let address = genesis.alloc[i].0;
        insert_ordered(&mut list, with_text(address));
        proof {
            assert(keys.take(i + 1) =~= keys.take(i as int).push(address@));
            to_multiset_build(keys.take(i as int), address@);
        }
        i += 1;
    }
    proof {
        assert(keys.take(i as int) =~= keys);
        lemma_address_order();
        keys.lemma_sort_by_ensures(le);
        lemma_sorted_unique(keys_of(list@), keys.sort_by(le), le);
    }
    list
}

// ---------------------------------------------------------------------------------------------
// The records
// ---------------------------------------------------------------------------------------------

/// Something in the genesis state that a transaction and a trace stand for.
pub struct GenesisItem {
    pub id: Seq<char>,
    pub to: Seq<u8>,
    pub value: nat,
    /// The code that is created.
    pub code: Seq<u8>,
    /// Whether a contract is created; if not, a value is transferred.
    pub creates: bool,
}

/// The identifier of the transaction for an account: what it stands for, thirteen zeroes and the
/// text of the address.
pub open spec fn genesis_id(kind: Seq<char>, address: Seq<u8>) -> Seq<char> {
    kind + "0000000000000"@ + prefixed_hex(address)
}

/// The transfer that gives an account its balance.
pub open spec fn balance_item(address: Seq<u8>, account: GenesisAccount) -> GenesisItem {
    GenesisItem {
        id: genesis_id("0xgenesis01"@, address),
        to: address,
        value: account.balance@,
        code: Seq::empty(),
        creates: false,
    }
}

/// The creation that gives an account its code.
pub open spec fn code_item(address: Seq<u8>, code: Seq<u8>) -> GenesisItem {
    GenesisItem {
        id: genesis_id("0xgenesis02"@, address),
        to: address,
        value: 0,
        code,
        creates: true,
    }
}

/// The address that stands for the native token: each of its bytes is `0xee`.
pub open spec fn native_token() -> Seq<u8> {
    Seq::new(20, |i: int| 0xeeu8)
}

/// The creation of the native token.
pub open spec fn native_token_item() -> GenesisItem {
    GenesisItem {
        id: genesis_id("0xgenesis03"@, native_token()),
        to: native_token(),
        value: 0,
        code: Seq::empty(),
        creates: true,
    }
}

/// What stands for an account: its balance, unless that is zero, and its code, unless it has
/// none or an empty one.
pub open spec fn account_items(address: Seq<u8>, account: GenesisAccount) -> Seq<GenesisItem> {
    let balance = if account.balance@ > 0 {
        seq![balance_item(address, account)]
    } else {
        Seq::empty()
    };
    match account.code {
        Some(code) if code@.len() > 0 => balance + seq![code_item(address, code@)],
        _ => balance,
    }
}

/// The position of an address among the genesis accounts.
pub open spec fn position(keys: Seq<Seq<u8>>, address: Seq<u8>) -> int
    decreases keys.len(),
{
    if keys.len() == 0 || keys[0] == address {
        0
    } else {
        1 + position(keys.drop_first(), address)
    }
}

/// The genesis account with an address.
pub open spec fn account_of(
    alloc: Seq<(Address, GenesisAccount)>,
    address: Seq<u8>,
) -> GenesisAccount {
    alloc[position(addresses(alloc), address)].1
}

/// What stands for the accounts with these addresses, in this order.
pub open spec fn items_of(
    alloc: Seq<(Address, GenesisAccount)>,
    keys: Seq<Seq<u8>>,
) -> Seq<GenesisItem>
    decreases keys.len(),
{
    if keys.len() == 0 {
        Seq::empty()
    } else {
        items_of(alloc, keys.drop_last()) + account_items(
            keys.last(),
            account_of(alloc, keys.last()),
        )
    }
}

/// What stands for the genesis state: the accounts in the order of the texts of their addresses,
/// and the native token behind them.
pub open spec fn genesis_items(alloc: Seq<(Address, GenesisAccount)>) -> Seq<GenesisItem> {
    items_of(alloc, addresses(alloc).sort_by(address_order())).push(native_token_item())
}

/// The transaction at a position that stands for an item.
pub open spec fn genesis_transaction(item: GenesisItem, index: nat) -> TransactionModel {
    TransactionModel {
        id: item.id,
        from: zero_bytes(20),
        to: item.to,
        gas_limit: 0,
        gas_price: 0,
        gas_used: 0,
        status: true,
        gas_fee_cap: 0,
        gas_tip_cap: 0,
        input: item.code,
        nonce: 0,
        transaction_index: index,
        value: item.value,
    }
}

/// The trace that stands for an item.
pub open spec fn genesis_trace(item: GenesisItem) -> TraceModel {
    TraceModel {
        id: record_id(item.id + "0"@),
        from_addr: zero_bytes(20),
        input: item.code,
        to_addr: item.to,
        value: item.value,
        output: item.code,
        call_create_type: if item.creates { "create"@ } else { "call"@ },
        call_type: if item.creates { Seq::empty() } else { "call"@ },
        tx_id: item.id,
        ..empty_trace()
    }
}

/// The transactions that stand for some items.
pub open spec fn genesis_transactions(items: Seq<GenesisItem>) -> Seq<TransactionModel> {
    Seq::new(items.len(), |i: int| genesis_transaction(items[i], i as nat))
}

/// The traces that stand for some items.
pub open spec fn genesis_traces(items: Seq<GenesisItem>) -> Seq<TraceModel> {
    Seq::new(items.len(), |i: int| genesis_trace(items[i]))
}

/// The identifier of the transaction for an account.
fn genesis_id_text(kind: &str, address: &Address) -> (r: String)
    ensures
        r@ == genesis_id(kind@, address@),
{
    proof {
        lemma_hex_ascii(address@);
        lemma_prefixed_hex_lower(address@);
    }
    let address = to_lowercase(address_debug(address).as_str());
    let mut id = kind.to_owned();
    id.append("0000000000000");
    id.append(address.as_str());
    id
}

/// Puts the transaction and the trace for an item behind those before it.
fn push_item(
    txs: &mut Vec<DebankTransaction>,
    traces: &mut Vec<DebankTrace>,
    id: String,
    to: Address,
    value: U256,
    code: &Vec<u8>,
    creates: bool,
    Ghost(items): Ghost<Seq<GenesisItem>>,
)
    requires
        views(old(txs)@) == genesis_transactions(items),
        views(old(traces)@) == genesis_traces(items),
    ensures
        ({
            let item = GenesisItem { id: id@, to: to@, value: value@, code: code@, creates };
            &&& views(final(txs)@) == genesis_transactions(items.push(item))
            &&& views(final(traces)@) == genesis_traces(items.push(item))
        }),
{
    let ghost item = GenesisItem { id: id@, to: to@, value: value@, code: code@, creates };
    assert(views(txs@).len() == items.len());
    let tx = DebankTransaction {
        id: id.clone(),
        from: Address::zero(),
        to,
        gas_limit: 0,
        gas_price: 0,
        gas_used: 0,
        status: true,
        gas_fee_cap: 0,
        gas_tip_cap: 0,
        input: copy_bytes(code),
        nonce: 0,
        transaction_index: txs.len() as u64,
        value,
    };
    assert(tx@ == genesis_transaction(item, items.len()));
    let args: Vec<&str> = vec![id.as_str(), "", "0"];
    proof {
        lemma_joined_three(args@);
        reveal_strlit("");
        assert(joined(args@) =~= id@ + "0"@);
    }
    let trace_id = DebankTrace::calculate_id(args);
    let (create_type, call_type) = if creates {
        ("create", "")
    } else {
        ("call", "call")
    };
    let trace = DebankTrace {
        id: trace_id,
        from_addr: Address::zero(),
        gas_limit: 0,
        input: copy_bytes(code),
        to_addr: to,
        value,
        gas_used: 0,
        output: copy_bytes(code),
        call_create_type: create_type.to_owned(),
        call_type: call_type.to_owned(),
        tx_id: id,
        parent_trace_id: String::new(),
        pos_in_parent_trace: 0,
        self_storage_change: false,
        storage_change: false,
        subtraces: 0,
        trace_address: Vec::new(),
        error: String::new(),
    };
    proof {
        assert(trace@.call_type =~= genesis_trace(item).call_type);
        assert(trace@ == genesis_trace(item));
        lemma_views_push(txs@, tx);
        lemma_views_push(traces@, trace);
    }
    txs.push(tx);
    traces.push(trace);
    proof {
        assert(views(txs@) =~= genesis_transactions(items.push(item)));
        assert(views(traces@) =~= genesis_traces(items.push(item)));
    }
}

/// The genesis account with an address.
fn find_account<'a>(genesis: &'a Genesis, address: &Address) -> (r: &'a GenesisAccount)
    requires
        addresses(genesis.alloc@).contains(address@),
    ensures
        *r == account_of(genesis.alloc@, address@),
{
    let ghost keys = addresses(genesis.alloc@);
    let mut i: usize = 0;
    assert(keys.skip(0) =~= keys);
    while !genesis.alloc[i].0.same_as(address)
        invariant
            keys == addresses(genesis.alloc@),
            i < keys.len(),
            keys.len() == genesis.alloc.len(),
            position(keys, address@) == i + position(keys.skip(i as int), address@),
            exists|j: int| i <= j < keys.len() && #[trigger] keys[j] == address@,
        decreases keys.len() - i,
    {
        proof {
            assert(keys[i as int] != address@);
            assert(keys.skip(i as int).drop_first() =~= keys.skip(i + 1));
        }
        i += 1;
    }
    assert(keys.skip(i as int)[0] == keys[i as int]);
    &genesis.alloc[i].1
}

/// Builds the transactions and the traces that stand for the genesis state: a transfer for each
/// balance, a creation for each code, and a creation of the native token.
pub fn build_genesis_txs_and_traces(genesis: &Genesis) -> (r: (
    Vec<DebankTransaction>,
    Vec<DebankTrace>,
))
    ensures
        views(r.0@) == genesis_transactions(genesis_items(genesis.alloc@)),
        views(r.1@) == genesis_traces(genesis_items(genesis.alloc@)),
{
    let ghost alloc = genesis.alloc@;
    let sorted = sort_addresses(genesis);
    let ghost keys = keys_of(sorted@);
    let mut txs: Vec<DebankTransaction> = Vec::new();
    let mut traces: Vec<DebankTrace> = Vec::new();
    let no_code: Vec<u8> = Vec::new();
    let mut i: usize = 0;
    proof {
        lemma_address_order();
        addresses(alloc).lemma_sort_by_ensures(address_order());
        assert(keys.take(0) =~= Seq::empty());
        assert(views(txs@) =~= genesis_transactions(items_of(alloc, keys.take(0))));
        assert(views(traces@) =~= genesis_traces(items_of(alloc, keys.take(0))));
    }
    while i < sorted.len()
        invariant
            alloc == genesis.alloc@,
            i <= sorted@.len(),
            keys == keys_of(sorted@),
            forall|x: Seq<u8>| #[trigger] keys.contains(x) ==> addresses(alloc).contains(x),
            no_code@ == Seq::<u8>::empty(),
            views(txs@) == genesis_transactions(items_of(alloc, keys.take(i as int))),
            views(traces@) == genesis_traces(items_of(alloc, keys.take(i as int))),
        decreases sorted.len() - i,
    {
        let address = sorted[i].address;
        let ghost mut items = items_of(alloc, keys.take(i as int));
        proof {
            assert(keys[i as int] == address@);
            assert(keys.contains(address@));
            assert(keys.take(i + 1).drop_last() =~= keys.take(i as int));
        }
        let account = find_account(genesis, &address);
        let ghost next = items + account_items(address@, *account);
        if account.balance.is_positive() {
            let id = genesis_id_text("0xgenesis01", &address);
            push_item(
                &mut txs,
                &mut traces,
                id,
                address,
                account.balance,
                &no_code,
                false,
                Ghost(items),
            );
            proof {
                items = items.push(balance_item(address@, *account));
            }
        }
        if let Some(code) = &account.code {
            if !code.is_empty() {
                let id = genesis_id_text("0xgenesis02", &address);
                push_item(
                    &mut txs,
                    &mut traces,
                    id,
                    address,
                    U256::zero(),
                    code,
                    true,
                    Ghost(items),
                );
                proof {
                    items = items.push(code_item(address@, code@));
                }
            }
        }
        assert(items =~= next);
        i += 1;
    }
    assert(keys.take(i as int) =~= keys);
    let native = Address { bytes: [0xeeu8; 20] };
    assert(native@ =~= native_token());
    let id = genesis_id_text("0xgenesis03", &native);
    push_item(
        &mut txs,
        &mut traces,
        id,
        native,
        U256::zero(),
        &no_code,
        true,
        Ghost(items_of(alloc, keys)),
    );
    (txs, traces)
}

} // verus!
