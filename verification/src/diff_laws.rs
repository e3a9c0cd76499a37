//! What holds of every state difference.

use vstd::prelude::*;

use crate::bindings::{empty_trie_root, keccak256_digest};
use crate::lists::{
    keys_distinct, law_picks, lemma_filter_map_has, lemma_filter_map_order,
    lemma_filter_map_picks, lemma_picked_keys, picks,
};
use crate::primitives::{
    be_digits, be_value, lemma_be_digits, lemma_be_digits_unique, Address, H256, U256,
};
use crate::state_diff::{
    bundle_diff, bundle_storage_owner, bundle_storage_owners, changed_account, changed_code,
    changed_codes, changed_slots, changed_storage, code_owner, code_owners, deleted_account,
    genesis_account, genesis_code, genesis_diff, genesis_slots, genesis_storage,
    genesis_storage_owner, genesis_storage_owners, known_code_hash, AccountModel,
    AccountStorageDiff, BlockStorageDiff, BundleAccount, BundleState, CodeModel, Genesis,
    GenesisAccount, IndexValuePair, NewAccount, NewCode, PreState, StorageModel,
};

verus! {

/// A block either changes or deletes each account that it touches: the new and the deleted
/// accounts together are as many as the touched ones.
pub proof fn law_accounts_split(
    state: Seq<(Address, BundleAccount)>,
    code_hashes: Seq<(Address, H256)>,
)
    ensures
        ({
            let diff = bundle_diff(state, code_hashes);
            diff.new_accounts.len() + diff.deleted_accounts.len() == state.len()
        }),
    decreases state.len(),
{
    if state.len() > 0 {
        law_accounts_split(state.drop_last(), code_hashes);
    }
}

/// An account whose storage slots are in a difference is one of its new accounts, at least one
/// slot of it is there, and it is one of the accounts whose storage the block touched.
pub proof fn law_storage_owners(
    state: Seq<(Address, BundleAccount)>,
    code_hashes: Seq<(Address, H256)>,
    storage: StorageModel,
)
    requires
        bundle_diff(state, code_hashes).storage_diffs.contains(storage),
    ensures
        storage.diffs.len() > 0,
        exists|account: AccountModel| #[trigger]
            bundle_diff(state, code_hashes).new_accounts.contains(account) && account.address
                == storage.address,
        exists|owner: Address| #[trigger]
            bundle_storage_owners(state).contains(owner) && keccak256_digest(owner@)
                == storage.address,
{
    let by_storage = |entry: (Address, BundleAccount)| changed_storage(entry);
    let by_account = |entry: (Address, BundleAccount)| changed_account(entry);
    let by_owner = |entry: (Address, BundleAccount)| bundle_storage_owner(entry);
    state.lemma_filter_map_contains(by_storage, storage);
    let entry = choose|entry: (Address, BundleAccount)| #[trigger]
        state.contains(entry) && by_storage(entry) == Some(storage);
    let i = choose|i: int| 0 <= i < state.len() && state[i] == entry;
    lemma_filter_map_has(state, by_account, i);
    lemma_filter_map_has(state, by_owner, i);
    assert(bundle_diff(state, code_hashes).new_accounts.contains(changed_account(entry)->0));
    assert(bundle_storage_owners(state).contains(entry.0));
}

/// Whether an account is not gone and has code with this hash behind the block.
pub open spec fn gives_code(entry: (Address, BundleAccount), code_hash: Seq<u8>) -> bool {
    changed_account(entry) matches Some(account) && account.code_hash == code_hash
}

/// The code of a difference belongs to one of its new accounts, and no account is given code
/// that it is known to have had.
pub proof fn law_code_owners(
    state: Seq<(Address, BundleAccount)>,
    code_hashes: Seq<(Address, H256)>,
    code: CodeModel,
)
    requires
        bundle_diff(state, code_hashes).new_codes.contains(code),
    ensures
        exists|i: int|
            0 <= i < state.len() && gives_code(#[trigger] state[i], code.code_hash) && bundle_diff(
                state,
                code_hashes,
            ).new_accounts.contains(changed_account(state[i])->0) && known_code_hash(
                code_hashes,
                state[i].0@,
            ) != Some(code.code_hash),
{
    let by_code = |entry: (Address, BundleAccount)| changed_code(entry, code_hashes);
    let by_account = |entry: (Address, BundleAccount)| changed_account(entry);
    state.lemma_filter_map_contains(by_code, code);
    let entry = choose|entry: (Address, BundleAccount)| #[trigger]
        state.contains(entry) && by_code(entry) == Some(code);
    let i = choose|i: int| 0 <= i < state.len() && state[i] == entry;
    lemma_filter_map_has(state, by_account, i);
}

/// The order in which the touched accounts are walked does not change what a difference holds,
/// only the order of the items in its lists.
pub proof fn law_walk_order(
    a: Seq<(Address, BundleAccount)>,
    b: Seq<(Address, BundleAccount)>,
    code_hashes: Seq<(Address, H256)>,
)
    requires
        a.to_multiset() == b.to_multiset(),
    ensures
        ({
            let (x, y) = (bundle_diff(a, code_hashes), bundle_diff(b, code_hashes));
            &&& x.new_accounts.to_multiset() == y.new_accounts.to_multiset()
            &&& x.deleted_accounts.to_multiset() == y.deleted_accounts.to_multiset()
            &&& x.storage_diffs.to_multiset() == y.storage_diffs.to_multiset()
            &&& x.new_codes.to_multiset() == y.new_codes.to_multiset()
        }),
        bundle_storage_owners(a).to_multiset() == bundle_storage_owners(b).to_multiset(),
{
    lemma_filter_map_order(a, b, |entry: (Address, BundleAccount)| changed_account(entry));
    lemma_filter_map_order(a, b, |entry: (Address, BundleAccount)| deleted_account(entry));
    lemma_filter_map_order(a, b, |entry: (Address, BundleAccount)| changed_storage(entry));
    lemma_filter_map_order(
        a,
        b,
        |entry: (Address, BundleAccount)| changed_code(entry, code_hashes),
    );
    lemma_filter_map_order(a, b, |entry: (Address, BundleAccount)| bundle_storage_owner(entry));
}

/// The code of the genesis difference is stored under its digest, and each genesis account with
/// code has its code there.
pub proof fn law_genesis_codes(alloc: Seq<(Address, GenesisAccount)>)
    ensures
        forall|code: CodeModel| #[trigger]
            genesis_diff(alloc).new_codes.contains(code) ==> code.code_hash == keccak256_digest(
                code.code,
            ),
        forall|i: int|
            0 <= i < alloc.len() && (#[trigger] alloc[i]).1.code is Some ==> genesis_diff(
                alloc,
            ).new_codes.contains(
                CodeModel {
                    code_hash: genesis_diff(alloc).new_accounts[i].code_hash,
                    code: (alloc[i].1.code->0)@,
                },
            ),
{
    let by_code = |entry: (Address, GenesisAccount)| genesis_code(entry);
    assert forall|code: CodeModel| #[trigger]
        genesis_diff(alloc).new_codes.contains(code) implies code.code_hash == keccak256_digest(
        code.code,
    ) by {
        alloc.lemma_filter_map_contains(by_code, code);
    }
    assert forall|i: int| 0 <= i < alloc.len() && (#[trigger] alloc[i]).1.code is Some implies genesis_diff(
        alloc,
    ).new_codes.contains(
        CodeModel {
            code_hash: genesis_diff(alloc).new_accounts[i].code_hash,
            code: (alloc[i].1.code->0)@,
        },
    ) by {
        lemma_filter_map_has(alloc, by_code, i);
        assert(genesis_diff(alloc).new_accounts[i] == genesis_account(alloc[i]));
    }
}

/// The genesis difference has a new account for each genesis account, deletes none, and holds
/// storage slots of accounts only that are listed as owners of storage.
pub proof fn law_genesis_storage(alloc: Seq<(Address, GenesisAccount)>)
    ensures
        genesis_diff(alloc).new_accounts.len() == alloc.len(),
        genesis_diff(alloc).deleted_accounts.len() == 0,
        forall|storage: StorageModel| #[trigger]
            genesis_diff(alloc).storage_diffs.contains(storage) ==> storage.diffs.len() > 0
                && exists|owner: Address| #[trigger]
                genesis_storage_owners(alloc).contains(owner) && keccak256_digest(owner@)
                    == storage.address,
{
    let by_storage = |entry: (Address, GenesisAccount)| genesis_storage(entry);
    let by_owner = |entry: (Address, GenesisAccount)| genesis_storage_owner(entry);
    assert forall|storage: StorageModel| #[trigger]
        genesis_diff(alloc).storage_diffs.contains(storage) implies storage.diffs.len() > 0
        && exists|owner: Address| #[trigger]
        genesis_storage_owners(alloc).contains(owner) && keccak256_digest(owner@)
            == storage.address by {
        alloc.lemma_filter_map_contains(by_storage, storage);
        let entry = choose|entry: (Address, GenesisAccount)| #[trigger]
            alloc.contains(entry) && by_storage(entry) == Some(storage);
        let i = choose|i: int| 0 <= i < alloc.len() && alloc[i] == entry;
        lemma_filter_map_has(alloc, by_owner, i);
        assert(genesis_storage_owners(alloc).contains(entry.0));
    }
}

// ---------------------------------------------------------------------------------------------
// Nothing is listed twice
// ---------------------------------------------------------------------------------------------

/// No account is listed twice as an owner of genesis storage.
pub proof fn law_genesis_owners_once(genesis: Genesis, i: int, j: int)
    requires
        genesis.well_formed(),
        0 <= i < j < genesis_storage_owners(genesis.alloc@).len(),
    ensures
        genesis_storage_owners(genesis.alloc@)[i]@ != genesis_storage_owners(genesis.alloc@)[j]@,
{
    lemma_picked_keys(
        genesis.alloc@,
        |entry: (Address, GenesisAccount)| genesis_storage_owner(entry),
    );
}

/// No account is listed twice as one whose storage a block touched, nor as one whose code hash is
/// looked up.
pub proof fn law_bundle_owners_once(bundle: BundleState)
    requires
        bundle.well_formed(),
    ensures
        forall|i: int, j: int|
            0 <= i < j < bundle_storage_owners(bundle.state@).len() ==> (
            #[trigger] bundle_storage_owners(bundle.state@)[i])@ != (
            #[trigger] bundle_storage_owners(bundle.state@)[j])@,
        forall|i: int, j: int|
            0 <= i < j < code_owners(bundle.state@).len() ==> (#[trigger] code_owners(
                bundle.state@,
            )[i])@ != (#[trigger] code_owners(bundle.state@)[j])@,
{
    lemma_picked_keys(
        bundle.state@,
        |entry: (Address, BundleAccount)| bundle_storage_owner(entry),
    );
    lemma_picked_keys(bundle.state@, |entry: (Address, BundleAccount)| code_owner(entry));
}

/// The indices of two storage slots that a block touched in an account are digests of different
/// bytes.
pub proof fn law_touched_slots_once(account: BundleAccount, i: int, j: int)
    requires
        account.well_formed(),
        0 <= i < j < account.storage@.len(),
    ensures
        ({
            let slots = account.storage@;
            let (a, b) = (be_digits(slots[i].0@, 32), be_digits(slots[j].0@, 32));
            &&& changed_slots(slots)[i].index == keccak256_digest(a)
            &&& changed_slots(slots)[j].index == keccak256_digest(b)
            &&& a != b
        }),
{
    let (x, y) = (account.storage@[i].0, account.storage@[j].0);
    assert(x@ != y@);
    if be_digits(x@, 32) == be_digits(y@, 32) {
        lemma_be_digits_unique(x, y);
    }
}

/// The indices of two genesis storage slots of an account are digests of different bytes.
pub proof fn law_genesis_slots_once(account: GenesisAccount, i: int, j: int)
    requires
        account.well_formed(),
        account.storage is Some,
        0 <= i < j < (account.storage->0)@.len(),
    ensures
        ({
            let slots = (account.storage->0)@;
            &&& genesis_slots(slots)[i].index == keccak256_digest(slots[i].0@)
            &&& genesis_slots(slots)[j].index == keccak256_digest(slots[j].0@)
            &&& slots[i].0@ != slots[j].0@
        }),
{
}

/// Each code hash that was found is the one that a lookup gives.
pub proof fn law_known_code_hash(pre_state: PreState, i: int)
    requires
        pre_state.well_formed(),
        0 <= i < pre_state.code_hashes@.len(),
    ensures
        known_code_hash(pre_state.code_hashes@, pre_state.code_hashes@[i].0@) == Some(
            pre_state.code_hashes@[i].1@,
        ),
{
    lemma_known(pre_state.code_hashes@, i);
}

proof fn lemma_known(code_hashes: Seq<(Address, H256)>, i: int)
    requires
        keys_distinct(code_hashes),
        0 <= i < code_hashes.len(),
    ensures
        known_code_hash(code_hashes, code_hashes[i].0@) == Some(code_hashes[i].1@),
    decreases code_hashes.len(),
{
    if i > 0 {
        let rest = code_hashes.drop_first();
        assert(code_hashes[0].0@ != code_hashes[i].0@);
        assert forall|m: int, n: int| 0 <= m < n < rest.len() implies (#[trigger] rest[m]).0@ != (
        #[trigger] rest[n]).0@ by {
            assert(rest[m] == code_hashes[m + 1] && rest[n] == code_hashes[n + 1]);
        }
        lemma_known(rest, i - 1);
    }
}

/// Only the code hashes of the accounts that are not gone and have code matter: what else was
/// looked up does not change a difference.
pub proof fn law_lookups(
    state: Seq<(Address, BundleAccount)>,
    a: Seq<(Address, H256)>,
    b: Seq<(Address, H256)>,
)
    requires
        forall|i: int|
            0 <= i < code_owners(state).len() ==> known_code_hash(
                a,
                (#[trigger] code_owners(state)[i])@,
            ) == known_code_hash(b, code_owners(state)[i]@),
    ensures
        bundle_diff(state, a) == bundle_diff(state, b),
    decreases state.len(),
{
    if state.len() > 0 {
        let rest = state.drop_last();
        let (owners, all) = (code_owners(rest), code_owners(state));
        assert forall|i: int| 0 <= i < owners.len() implies known_code_hash(
            a,
            (#[trigger] owners[i])@,
        ) == known_code_hash(b, owners[i]@) by {
            assert(all[i] == owners[i]);
        }
        law_lookups(rest, a, b);
        assert(bundle_diff(rest, a).new_codes == bundle_diff(rest, b).new_codes);
        if code_owner(state.last()) is Some {
            assert(all[all.len() - 1] == state.last().0);
        }
        assert(changed_code(state.last(), a) == changed_code(state.last(), b));
    }
    assert(changed_codes(state, a) =~= changed_codes(state, b));
}

// ---------------------------------------------------------------------------------------------
// What stands in a difference
// ---------------------------------------------------------------------------------------------

/// The new accounts of a block are all accounts that it touched and that are not gone, in their
/// order, each with its hashed address and what it holds.
pub proof fn law_new_accounts(
    state: Seq<(Address, BundleAccount)>,
    code_hashes: Seq<(Address, H256)>,
)
    ensures
        ({
            let list = bundle_diff(state, code_hashes).new_accounts;
            let at = picks(state, |entry: (Address, BundleAccount)| entry.1.info is Some);
            &&& list.len() == at.len()
            &&& forall|j: int|
                0 <= j < list.len() ==> {
                    let (address, account) = state[at[j]];
                    &&& (#[trigger] list[j]).address == keccak256_digest(address.bytes@)
                    &&& list[j].balance == (account.info->0).balance@
                    &&& list[j].nonce == (account.info->0).nonce
                    &&& list[j].code_hash == (account.info->0).code_hash.bytes@
                }
        }),
{
    lemma_filter_map_picks(
        state,
        |entry: (Address, BundleAccount)| changed_account(entry),
        |entry: (Address, BundleAccount)| entry.1.info is Some,
    );
    law_picks(state, |entry: (Address, BundleAccount)| entry.1.info is Some);
}

/// The deleted accounts of a block are the hashed addresses of all accounts that are gone, in
/// their order.
pub proof fn law_deleted_accounts(
    state: Seq<(Address, BundleAccount)>,
    code_hashes: Seq<(Address, H256)>,
)
    ensures
        ({
            let list = bundle_diff(state, code_hashes).deleted_accounts;
            let at = picks(state, |entry: (Address, BundleAccount)| entry.1.info is None);
            &&& list.len() == at.len()
            &&& forall|j: int|
                0 <= j < list.len() ==> (#[trigger] list[j]) == keccak256_digest(
                    state[at[j]].0.bytes@,
                )
        }),
{
    lemma_filter_map_picks(
        state,
        |entry: (Address, BundleAccount)| deleted_account(entry),
        |entry: (Address, BundleAccount)| entry.1.info is None,
    );
    law_picks(state, |entry: (Address, BundleAccount)| entry.1.info is None);
}

/// Whether a difference of the storage of an account holds these slots: all of them, in order,
/// each under the digest of the 32 bytes of its number.
pub open spec fn holds_slots(storage: StorageModel, slots: Seq<(U256, U256)>) -> bool {
    &&& storage.diffs.len() == slots.len()
    &&& forall|k: int, number: Seq<u8>|
        0 <= k < slots.len() && number.len() == 32 && be_value(number) == slots[k].0@
            ==> #[trigger] storage.diffs[k].index == #[trigger] keccak256_digest(number)
    &&& forall|k: int|
        0 <= k < slots.len() ==> (#[trigger] storage.diffs[k]).value == slots[k].1@
}

/// The storage differences of a block are those of all accounts that are not gone and in which it
/// touched a slot, in their order, each with all its slots.
pub proof fn law_storage_diffs(
    state: Seq<(Address, BundleAccount)>,
    code_hashes: Seq<(Address, H256)>,
)
    ensures
        ({
            let list = bundle_diff(state, code_hashes).storage_diffs;
            let at = picks(
                state,
                |entry: (Address, BundleAccount)|
                    entry.1.info is Some && entry.1.storage@.len() > 0,
            );
            &&& list.len() == at.len()
            &&& forall|j: int|
                0 <= j < list.len() ==> (#[trigger] list[j]).address == keccak256_digest(
                    state[at[j]].0.bytes@,
                ) && holds_slots(list[j], state[at[j]].1.storage@)
        }),
{
    let p = |entry: (Address, BundleAccount)|
        entry.1.info is Some && entry.1.storage@.len() > 0;
    let list = bundle_diff(state, code_hashes).storage_diffs;
    let at = picks(state, p);
    lemma_filter_map_picks(state, |entry: (Address, BundleAccount)| changed_storage(entry), p);
    law_picks(state, p);
    assert forall|j: int| 0 <= j < list.len() implies (#[trigger] list[j]).address
        == keccak256_digest(state[at[j]].0.bytes@) && holds_slots(
        list[j],
        state[at[j]].1.storage@,
    ) by {
        let slots = state[at[j]].1.storage@;
        assert(list[j].diffs == changed_slots(slots));
        assert forall|k: int, number: Seq<u8>|
            0 <= k < slots.len() && number.len() == 32 && be_value(number)
                == slots[k].0@ implies #[trigger] list[j].diffs[k].index
            == #[trigger] keccak256_digest(number) by {
            lemma_be_digits(number);
        }
    }
}

/// Whether the first entry with an address has a code hash.
pub open spec fn found_with(
    code_hashes: Seq<(Address, H256)>,
    address: Seq<u8>,
    hash: Seq<u8>,
) -> bool {
    exists|k: int|
        0 <= k < code_hashes.len() && (#[trigger] code_hashes[k]).0.bytes@ == address
            && code_hashes[k].1.bytes@ == hash && forall|n: int|
            0 <= n < k ==> (#[trigger] code_hashes[n]).0.bytes@ != address
}

/// The new codes of a block are the codes of all accounts that are not gone, have their code
/// loaded, and were not found with the same code hash before the block, in their order, each with
/// its hash.
pub proof fn law_new_codes(
    state: Seq<(Address, BundleAccount)>,
    code_hashes: Seq<(Address, H256)>,
)
    ensures
        ({
            let list = bundle_diff(state, code_hashes).new_codes;
            let at = picks(
                state,
                |entry: (Address, BundleAccount)|
                    entry.1.info is Some && (entry.1.info->0).code is Some && !found_with(
                        code_hashes,
                        entry.0.bytes@,
                        (entry.1.info->0).code_hash.bytes@,
                    ),
            );
            &&& list.len() == at.len()
            &&& forall|j: int|
                0 <= j < list.len() ==> {
                    let info = state[at[j]].1.info->0;
                    &&& (#[trigger] list[j]).code_hash == info.code_hash.bytes@
                    &&& list[j].code == (info.code->0)@
                }
        }),
{
    let p = |entry: (Address, BundleAccount)|
        entry.1.info is Some && (entry.1.info->0).code is Some && !found_with(
            code_hashes,
            entry.0.bytes@,
            (entry.1.info->0).code_hash.bytes@,
        );
    let f = |entry: (Address, BundleAccount)| changed_code(entry, code_hashes);
    assert forall|entry: (Address, BundleAccount)| (#[trigger] f(entry)) is Some <==> p(entry) by {
        if entry.1.info is Some {
            law_first_found(
                code_hashes,
                entry.0.bytes@,
                (entry.1.info->0).code_hash.bytes@,
            );
        }
    }
    lemma_filter_map_picks(state, f, p);
    law_picks(state, p);
}

/// An account that is not gone and has its code loaded has this code among the new codes, unless
/// it was found with the same code hash before the block.
pub proof fn law_new_code_listed(
    state: Seq<(Address, BundleAccount)>,
    code_hashes: Seq<(Address, H256)>,
    i: int,
)
    requires
        0 <= i < state.len(),
        state[i].1.info is Some,
        (state[i].1.info->0).code is Some,
        forall|k: int|
            0 <= k < code_hashes.len() && (#[trigger] code_hashes[k]).0.bytes@ == state[i].0.bytes@
                ==> code_hashes[k].1.bytes@ != (state[i].1.info->0).code_hash.bytes@,
    ensures
        bundle_diff(state, code_hashes).new_codes.contains(
            CodeModel {
                code_hash: (state[i].1.info->0).code_hash.bytes@,
                code: ((state[i].1.info->0).code->0)@,
            },
        ),
{
    let f = |entry: (Address, BundleAccount)| changed_code(entry, code_hashes);
    let info = state[i].1.info->0;
    law_first_found(code_hashes, state[i].0.bytes@, info.code_hash.bytes@);
    lemma_filter_map_has(state, f, i);
}

/// A lookup gives the code hash of the first entry with the address.
pub proof fn law_first_found(
    code_hashes: Seq<(Address, H256)>,
    address: Seq<u8>,
    hash: Seq<u8>,
)
    ensures
        known_code_hash(code_hashes, address) == Some(hash) <==> found_with(
            code_hashes,
            address,
            hash,
        ),
    decreases code_hashes.len(),
{
    if code_hashes.len() > 0 {
        let rest = code_hashes.drop_first();
        law_first_found(rest, address, hash);
        if code_hashes[0].0@ == address {
            if code_hashes[0].1@ == hash {
                assert(code_hashes[0].0.bytes@ == address);
            }
        } else {
            if known_code_hash(rest, address) == Some(hash) {
                let k = choose|k: int|
                    0 <= k < rest.len() && (#[trigger] rest[k]).0.bytes@ == address
                        && rest[k].1.bytes@ == hash && forall|n: int|
                        0 <= n < k ==> (#[trigger] rest[n]).0.bytes@ != address;
                assert(code_hashes[k + 1] == rest[k]);
                assert forall|n: int| 0 <= n < k + 1 implies (#[trigger] code_hashes[n]).0.bytes@
                    != address by {
                    if n > 0 {
                        assert(code_hashes[n] == rest[n - 1]);
                    }
                }
            }
            if exists|k: int|
                0 <= k < code_hashes.len() && (#[trigger] code_hashes[k]).0.bytes@ == address
                    && code_hashes[k].1.bytes@ == hash && forall|n: int|
                    0 <= n < k ==> (#[trigger] code_hashes[n]).0.bytes@ != address {
                let k = choose|k: int|
                    0 <= k < code_hashes.len() && (#[trigger] code_hashes[k]).0.bytes@ == address
                        && code_hashes[k].1.bytes@ == hash && forall|n: int|
                        0 <= n < k ==> (#[trigger] code_hashes[n]).0.bytes@ != address;
                assert(rest[k - 1] == code_hashes[k]);
                assert forall|n: int| 0 <= n < k - 1 implies (#[trigger] rest[n]).0.bytes@
                    != address by {
                    assert(rest[n] == code_hashes[n + 1]);
                }
            }
        }
    }
}

/// The states that a difference stands between are left open when it is built from what a block
/// touched.
pub proof fn law_open_roots(
    state: Seq<(Address, BundleAccount)>,
    code_hashes: Seq<(Address, H256)>,
    i: int,
)
    requires
        0 <= i < 32,
    ensures
        bundle_diff(state, code_hashes).hash.len() == 32,
        bundle_diff(state, code_hashes).hash[i] == 0,
        bundle_diff(state, code_hashes).parent_hash.len() == 32,
        bundle_diff(state, code_hashes).parent_hash[i] == 0,
{
}

/// The accounts whose storage a block touched are all those in which it touched a slot, gone or
/// not, and those whose code hash is looked up all those that are not gone and have their code
/// loaded, each in their order.
pub proof fn law_bundle_owners(state: Seq<(Address, BundleAccount)>)
    ensures
        ({
            let at = picks(state, |entry: (Address, BundleAccount)| entry.1.storage@.len() > 0);
            let owners = bundle_storage_owners(state);
            &&& owners.len() == at.len()
            &&& forall|j: int| 0 <= j < owners.len() ==> (#[trigger] owners[j]) == state[at[j]].0
        }),
        ({
            let at = picks(
                state,
                |entry: (Address, BundleAccount)|
                    entry.1.info is Some && (entry.1.info->0).code is Some,
            );
            let owners = code_owners(state);
            &&& owners.len() == at.len()
            &&& forall|j: int| 0 <= j < owners.len() ==> (#[trigger] owners[j]) == state[at[j]].0
        }),
{
    lemma_filter_map_picks(
        state,
        |entry: (Address, BundleAccount)| bundle_storage_owner(entry),
        |entry: (Address, BundleAccount)| entry.1.storage@.len() > 0,
    );
    lemma_filter_map_picks(
        state,
        |entry: (Address, BundleAccount)| code_owner(entry),
        |entry: (Address, BundleAccount)|
            entry.1.info is Some && (entry.1.info->0).code is Some,
    );
}

/// The genesis difference has a new account for each genesis account, in their order, with what
/// the account holds, a nonce of zero where none is given, and the digest of its code, or of
/// nothing where it has none.
pub proof fn law_genesis_accounts(alloc: Seq<(Address, GenesisAccount)>, i: int)
    requires
        0 <= i < alloc.len(),
    ensures
        ({
            let list = genesis_diff(alloc).new_accounts;
            let (address, account) = alloc[i];
            &&& list.len() == alloc.len()
            &&& list[i].address == keccak256_digest(address.bytes@)
            &&& list[i].balance == account.balance@
            &&& account.nonce is Some ==> list[i].nonce == account.nonce->0
            &&& account.nonce is None ==> list[i].nonce == 0
            &&& account.code is Some ==> list[i].code_hash == keccak256_digest(
                (account.code->0)@,
            )
            &&& account.code is None ==> list[i].code_hash == keccak256_digest(Seq::empty())
        }),
{
}

/// The genesis difference has the code of every genesis account that has code, also if it is
/// empty, in their order, each with its digest.
pub proof fn law_genesis_code_list(alloc: Seq<(Address, GenesisAccount)>)
    ensures
        ({
            let list = genesis_diff(alloc).new_codes;
            let at = picks(alloc, |entry: (Address, GenesisAccount)| entry.1.code is Some);
            &&& list.len() == at.len()
            &&& forall|j: int|
                0 <= j < list.len() ==> {
                    let code = (alloc[at[j]].1.code->0)@;
                    (#[trigger] list[j]).code == code && list[j].code_hash == keccak256_digest(code)
                }
        }),
{
    lemma_filter_map_picks(
        alloc,
        |entry: (Address, GenesisAccount)| genesis_code(entry),
        |entry: (Address, GenesisAccount)| entry.1.code is Some,
    );
    law_picks(alloc, |entry: (Address, GenesisAccount)| entry.1.code is Some);
}

/// The genesis difference has the storage of every genesis account with a storage slot, in their
/// order, with all its slots, each under the digest of its key and with its value read as a
/// number.
pub proof fn law_genesis_storage_list(alloc: Seq<(Address, GenesisAccount)>)
    ensures
        ({
            let list = genesis_diff(alloc).storage_diffs;
            let at = picks(
                alloc,
                |entry: (Address, GenesisAccount)|
                    entry.1.storage is Some && (entry.1.storage->0)@.len() > 0,
            );
            &&& list.len() == at.len()
            &&& forall|j: int|
                0 <= j < list.len() ==> (#[trigger] list[j]).address == keccak256_digest(
                    alloc[at[j]].0.bytes@,
                ) && list[j].diffs.len() == (alloc[at[j]].1.storage->0)@.len()
            &&& forall|j: int, k: int|
                0 <= j < list.len() && 0 <= k < list[j].diffs.len() ==> {
                    let slot = (alloc[at[j]].1.storage->0)@[k];
                    &&& (#[trigger] list[j].diffs[k]).index == keccak256_digest(slot.0.bytes@)
                    &&& list[j].diffs[k].value == be_value(slot.1.bytes@)
                }
        }),
{
    let p = |entry: (Address, GenesisAccount)|
        entry.1.storage is Some && (entry.1.storage->0)@.len() > 0;
    lemma_filter_map_picks(alloc, |entry: (Address, GenesisAccount)| genesis_storage(entry), p);
    law_picks(alloc, p);
    let list = genesis_diff(alloc).storage_diffs;
    let at = picks(alloc, p);
    assert forall|j: int| 0 <= j < list.len() implies (#[trigger] list[j]).diffs == genesis_slots(
        (alloc[at[j]].1.storage->0)@,
    ) && list[j].address == keccak256_digest(alloc[at[j]].0.bytes@) by {
        assert(0 <= at[j] < alloc.len() && p(alloc[at[j]]));
    }
}

/// The genesis difference deletes no account, and stands between the state that holds nothing and
/// one that is left open. The owners of genesis storage are all accounts that have storage, also
/// without a slot, in their order.
pub proof fn law_genesis_rest(alloc: Seq<(Address, GenesisAccount)>, i: int)
    requires
        0 <= i < 32,
    ensures
        genesis_diff(alloc).deleted_accounts.len() == 0,
        genesis_diff(alloc).parent_hash == empty_trie_root(),
        genesis_diff(alloc).hash.len() == 32,
        genesis_diff(alloc).hash[i] == 0,
        ({
            let at = picks(alloc, |entry: (Address, GenesisAccount)| entry.1.storage is Some);
            let owners = genesis_storage_owners(alloc);
            &&& owners.len() == at.len()
            &&& forall|j: int| 0 <= j < owners.len() ==> (#[trigger] owners[j]) == alloc[at[j]].0
        }),
{
    lemma_filter_map_picks(
        alloc,
        |entry: (Address, GenesisAccount)| genesis_storage_owner(entry),
        |entry: (Address, GenesisAccount)| entry.1.storage is Some,
    );
}

/// The content of a difference and of its items is what stands in their fields.
pub proof fn law_diff_content(
    diff: BlockStorageDiff,
    account: NewAccount,
    code: NewCode,
    storage: AccountStorageDiff,
    slot: IndexValuePair,
)
    ensures
        diff@.hash == diff.hash.bytes@,
        diff@.parent_hash == diff.parent_hash.bytes@,
        diff@.new_accounts.len() == diff.new_accounts@.len(),
        forall|i: int|
            0 <= i < diff.new_accounts@.len() ==> (#[trigger] diff@.new_accounts[i])
                == diff.new_accounts@[i]@,
        diff@.deleted_accounts.len() == diff.deleted_accounts@.len(),
        forall|i: int|
            0 <= i < diff.deleted_accounts@.len() ==> (#[trigger] diff@.deleted_accounts[i])
                == diff.deleted_accounts@[i].bytes@,
        diff@.storage_diffs.len() == diff.storage_diffs@.len(),
        forall|i: int|
            0 <= i < diff.storage_diffs@.len() ==> (#[trigger] diff@.storage_diffs[i])
                == diff.storage_diffs@[i]@,
        diff@.new_codes.len() == diff.new_codes@.len(),
        forall|i: int|
            0 <= i < diff.new_codes@.len() ==> (#[trigger] diff@.new_codes[i])
                == diff.new_codes@[i]@,
        account@.address == account.address.bytes@,
        account@.balance == account.balance@,
        account@.nonce == account.nonce,
        account@.code_hash == account.code_hash.bytes@,
        code@.code_hash == code.code_hash.bytes@,
        code@.code == code.code@,
        storage@.address == storage.address.bytes@,
        storage@.diffs.len() == storage.diffs@.len(),
        forall|i: int|
            0 <= i < storage.diffs@.len() ==> (#[trigger] storage@.diffs[i]) == storage.diffs@[i]@,
        slot@.index == slot.index.bytes@,
        slot@.value == slot.value@,
{
}

} // verus!
