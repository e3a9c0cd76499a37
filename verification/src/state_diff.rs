//! What a block changes in the state: accounts, storage and code.

use vstd::prelude::*;

use crate::bindings::{
    empty_root_hash, empty_trie_root, keccak256, keccak256_digest, keccak_empty,
    word_from_be_bytes, word_to_be_bytes,
};
use crate::lists::{keys_distinct, lemma_views_push, views};
use crate::primitives::{
    be_digits, be_value, lemma_be_digits, zero_bytes, Address, H256, U256,
};
use crate::records::copy_bytes;

verus! {

// ---------------------------------------------------------------------------------------------
// The difference
// ---------------------------------------------------------------------------------------------

/// The changes of the state between two blocks.
#[derive(Clone, Debug, PartialEq)]
pub struct BlockStorageDiff {
    pub hash: H256,
    pub parent_hash: H256,
    pub new_accounts: Vec<NewAccount>,
    /// The hashed addresses of the accounts that are gone.
    pub deleted_accounts: Vec<H256>,
    pub storage_diffs: Vec<AccountStorageDiff>,
    pub new_codes: Vec<NewCode>,
}

/// Code that was stored.
#[derive(Clone, Debug, PartialEq)]
pub struct NewCode {
    pub code_hash: H256,
    pub code: Vec<u8>,
}

/// An account that was created or changed.
#[derive(Clone, Debug, PartialEq)]
pub struct NewAccount {
    /// The hashed address.
    pub address: H256,
    pub balance: U256,
    pub nonce: u64,
    pub code_hash: H256,
}

/// The storage slots of an account that changed.
#[derive(Clone, Debug, PartialEq)]
pub struct AccountStorageDiff {
    /// The hashed address.
    pub address: H256,
    pub diffs: Vec<IndexValuePair>,
}

/// A storage slot with its new value.
#[derive(Clone, Debug, PartialEq)]
pub struct IndexValuePair {
    /// The hashed slot number.
    pub index: H256,
    pub value: U256,
}

/// The content of a [`BlockStorageDiff`].
pub struct DiffModel {
    pub hash: Seq<u8>,
    pub parent_hash: Seq<u8>,
    pub new_accounts: Seq<AccountModel>,
    pub deleted_accounts: Seq<Seq<u8>>,
    pub storage_diffs: Seq<StorageModel>,
    pub new_codes: Seq<CodeModel>,
}

/// The content of a [`NewCode`].
pub struct CodeModel {
    pub code_hash: Seq<u8>,
    pub code: Seq<u8>,
}

/// The content of a [`NewAccount`].
pub struct AccountModel {
    pub address: Seq<u8>,
    pub balance: nat,
    pub nonce: u64,
    pub code_hash: Seq<u8>,
}

/// The content of an [`AccountStorageDiff`].
pub struct StorageModel {
    pub address: Seq<u8>,
    pub diffs: Seq<SlotModel>,
}

/// The content of an [`IndexValuePair`].
pub struct SlotModel {
    pub index: Seq<u8>,
    pub value: nat,
}

impl View for NewCode {
    type V = CodeModel;

    open spec fn view(&self) -> CodeModel {
        CodeModel { code_hash: self.code_hash@, code: self.code@ }
    }
}

impl View for NewAccount {
    type V = AccountModel;

    open spec fn view(&self) -> AccountModel {
        AccountModel {
            address: self.address@,
            balance: self.balance@,
            nonce: self.nonce,
            code_hash: self.code_hash@,
        }
    }
}

impl View for IndexValuePair {
    type V = SlotModel;

    open spec fn view(&self) -> SlotModel {
        SlotModel { index: self.index@, value: self.value@ }
    }
}

impl View for AccountStorageDiff {
    type V = StorageModel;

    open spec fn view(&self) -> StorageModel {
        StorageModel { address: self.address@, diffs: views(self.diffs@) }
    }
}

impl View for BlockStorageDiff {
    type V = DiffModel;

    open spec fn view(&self) -> DiffModel {
        DiffModel {
            hash: self.hash@,
            parent_hash: self.parent_hash@,
            new_accounts: views(self.new_accounts@),
            deleted_accounts: views(self.deleted_accounts@),
            storage_diffs: views(self.storage_diffs@),
            new_codes: views(self.new_codes@),
        }
    }
}

/// The difference that holds nothing.
pub open spec fn empty_diff() -> DiffModel {
    DiffModel {
        hash: zero_bytes(32),
        parent_hash: zero_bytes(32),
        new_accounts: Seq::empty(),
        deleted_accounts: Seq::empty(),
        storage_diffs: Seq::empty(),
        new_codes: Seq::empty(),
    }
}

impl Default for BlockStorageDiff {
    fn default() -> (r: BlockStorageDiff)
        ensures
            r@ == empty_diff(),
    {
        let r = BlockStorageDiff {
            hash: H256::zero(),
            parent_hash: H256::zero(),
            new_accounts: Vec::new(),
            deleted_accounts: Vec::new(),
            storage_diffs: Vec::new(),
            new_codes: Vec::new(),
        };
        proof {
            assert(views(r.new_accounts@) =~= Seq::empty());
            assert(views(r.deleted_accounts@) =~= Seq::empty());
            assert(views(r.storage_diffs@) =~= Seq::empty());
            assert(views(r.new_codes@) =~= Seq::empty());
        }
        r
    }
}

// ---------------------------------------------------------------------------------------------
// The genesis state
// ---------------------------------------------------------------------------------------------

/// An account in the genesis state.
#[derive(Clone, Debug)]
pub struct GenesisAccount {
    pub nonce: Option<u64>,
    pub balance: U256,
    pub code: Option<Vec<u8>>,
    /// The storage slots, with their values.
    pub storage: Option<Vec<(H256, H256)>>,
}

/// The genesis state.
#[derive(Clone, Debug)]
pub struct Genesis {
    /// The accounts by their addresses.
    pub alloc: Vec<(Address, GenesisAccount)>,
}

impl GenesisAccount {
    /// Whether no storage slot occurs twice.
    pub open spec fn well_formed(&self) -> bool {
        self.storage matches Some(slots) ==> keys_distinct(slots@)
    }
}

impl Genesis {
    /// Whether no account occurs twice, and no storage slot of an account.
    pub open spec fn well_formed(&self) -> bool {
        &&& keys_distinct(self.alloc@)
        &&& forall|i: int|
            0 <= i < self.alloc@.len() ==> (#[trigger] self.alloc@[i]).1.well_formed()
    }
}

/// The address of a genesis account that has storage.
pub open spec fn genesis_storage_owner(entry: (Address, GenesisAccount)) -> Option<Address> {
    if entry.1.storage is Some {
        Some(entry.0)
    } else {
        None
    }
}

/// The addresses of the genesis accounts that have storage, in the order of the accounts.
pub open spec fn genesis_storage_owners(alloc: Seq<(Address, GenesisAccount)>) -> Seq<Address> {
    alloc.filter_map(|entry: (Address, GenesisAccount)| genesis_storage_owner(entry))
}

/// The addresses of the genesis accounts that have storage, also if it holds no slot.
pub fn get_storage_contracts_from_genesis(genesis: &Genesis) -> (r: Vec<Address>)
    ensures
        r@ == genesis_storage_owners(genesis.alloc@),
{
    let mut addresses: Vec<Address> = Vec::new();
    let mut i: usize = 0;
    assert(genesis.alloc@.take(0) =~= Seq::empty());
    while i < genesis.alloc.len()
        invariant
            i <= genesis.alloc@.len(),
            addresses@ == genesis_storage_owners(genesis.alloc@.take(i as int)),
        decreases genesis.alloc.len() - i,
    {
        let entry = &genesis.alloc[i];
        assert(genesis.alloc@.take(i + 1).drop_last() =~= genesis.alloc@.take(i as int));
        if entry.1.storage.is_some() {
            addresses.push(entry.0);
        }
        i += 1;
    }
    assert(genesis.alloc@.take(i as int) =~= genesis.alloc@);
    addresses
}

/// The code hash of a genesis account: that of no code, if it has none.
pub open spec fn genesis_code_hash(account: GenesisAccount) -> Seq<u8> {
    match account.code {
        Some(code) => keccak256_digest(code@),
        None => keccak256_digest(Seq::empty()),
    }
}

/// A genesis account as a new account.
pub open spec fn genesis_account(entry: (Address, GenesisAccount)) -> AccountModel {
    AccountModel {
        address: keccak256_digest(entry.0@),
        balance: entry.1.balance@,
        nonce: match entry.1.nonce {
            Some(nonce) => nonce,
            None => 0,
        },
        code_hash: genesis_code_hash(entry.1),
    }
}

/// The code of a genesis account as new code, if it has code.
pub open spec fn genesis_code(entry: (Address, GenesisAccount)) -> Option<CodeModel> {
    match entry.1.code {
        Some(code) => Some(CodeModel { code_hash: keccak256_digest(code@), code: code@ }),
        None => None,
    }
}

/// A genesis storage slot as a changed one.
pub open spec fn genesis_slot(slot: (H256, H256)) -> SlotModel {
    SlotModel { index: keccak256_digest(slot.0@), value: be_value(slot.1@) }
}

/// Genesis storage slots as changed ones.
pub open spec fn genesis_slots(slots: Seq<(H256, H256)>) -> Seq<SlotModel> {
    Seq::new(slots.len(), |i: int| genesis_slot(slots[i]))
}

/// The storage of a genesis account as changed storage, if it holds a slot.
pub open spec fn genesis_storage(entry: (Address, GenesisAccount)) -> Option<StorageModel> {
    match entry.1.storage {
        Some(slots) if slots@.len() > 0 => Some(
            StorageModel { address: keccak256_digest(entry.0@), diffs: genesis_slots(slots@) },
        ),
        _ => None,
    }
}

/// Genesis accounts as new accounts, in the same order.
pub open spec fn genesis_accounts(alloc: Seq<(Address, GenesisAccount)>) -> Seq<AccountModel> {
    Seq::new(alloc.len(), |i: int| genesis_account(alloc[i]))
}

/// The code of genesis accounts, in the order of the accounts.
pub open spec fn genesis_codes(alloc: Seq<(Address, GenesisAccount)>) -> Seq<CodeModel> {
    alloc.filter_map(|entry: (Address, GenesisAccount)| genesis_code(entry))
}

/// The storage of genesis accounts, in the order of the accounts.
pub open spec fn genesis_storages(alloc: Seq<(Address, GenesisAccount)>) -> Seq<StorageModel> {
    alloc.filter_map(|entry: (Address, GenesisAccount)| genesis_storage(entry))
}

/// The genesis state as a difference from the state that holds nothing.
pub open spec fn genesis_diff(alloc: Seq<(Address, GenesisAccount)>) -> DiffModel {
    DiffModel {
        hash: zero_bytes(32),
        parent_hash: empty_trie_root(),
        new_accounts: genesis_accounts(alloc),
        deleted_accounts: Seq::empty(),
        storage_diffs: genesis_storages(alloc),
        new_codes: genesis_codes(alloc),
    }
}

/// The storage slots of a genesis account as changed ones.
fn genesis_slot_diffs(slots: &Vec<(H256, H256)>) -> (r: Vec<IndexValuePair>)
    ensures
        views(r@) == genesis_slots(slots@),
{
    let mut diffs: Vec<IndexValuePair> = Vec::new();
    let mut i: usize = 0;
    while i < slots.len()
        invariant
            i <= slots@.len(),
            views(diffs@) =~= genesis_slots(slots@.take(i as int)),
        decreases slots.len() - i,
    {
        let slot = &slots[i];
        let pair = IndexValuePair {
            index: keccak256(slot.0.bytes.as_slice()),
            value: word_from_be_bytes(slot.1.bytes),
        };
        proof {
            lemma_views_push(diffs@, pair);
            assert(slots@.take(i + 1) =~= slots@.take(i as int).push(slots@[i as int]));
        }
        diffs.push(pair);
        i += 1;
    }
    assert(slots@.take(i as int) =~= slots@);
    diffs
}

impl BlockStorageDiff {
    /// The genesis state as a difference from the state that holds nothing. The hash of the
    /// state is left zero.
    pub fn from(genesis: &Genesis) -> (r: BlockStorageDiff)
        ensures
            r@ == genesis_diff(genesis.alloc@),
    {
        let mut new_accounts: Vec<NewAccount> = Vec::new();
        let mut new_codes: Vec<NewCode> = Vec::new();
        let mut storage_diffs: Vec<AccountStorageDiff> = Vec::new();
        let alloc = &genesis.alloc;
        let mut i: usize = 0;
        proof {
            assert(alloc@.take(0) =~= Seq::empty());
            assert(views(new_codes@) =~= Seq::empty());
            assert(views(storage_diffs@) =~= Seq::empty());
        }
        while i < alloc.len()
            invariant
                i <= alloc@.len(),
                views(new_accounts@) =~= genesis_accounts(alloc@.take(i as int)),
                views(new_codes@) == genesis_codes(alloc@.take(i as int)),
                views(storage_diffs@) == genesis_storages(alloc@.take(i as int)),
            decreases alloc.len() - i,
        {
            let address = &alloc[i].0;
            let account = &alloc[i].1;
            proof {
                assert(alloc@.take(i + 1).drop_last() =~= alloc@.take(i as int));
                assert(alloc@.take(i + 1).last() == alloc@[i as int]);
            }
            let code_hash = match &account.code {
                None => keccak_empty(),
                Some(code) => {
                    let code_hash = keccak256(code.as_slice());
                    let new_code = NewCode { code_hash, code: copy_bytes(code) };
                    proof {
                        lemma_views_push(new_codes@, new_code);
                    }
                    new_codes.push(new_code);
                    code_hash
                },
            };
            let new_account = NewAccount {
                address: keccak256(address.bytes.as_slice()),
                balance: account.balance,
                nonce: match account.nonce {
                    Some(nonce) => nonce,
                    None => 0,
                },
                code_hash,
            };
            proof {
                lemma_views_push(new_accounts@, new_account);
            }
            new_accounts.push(new_account);
            if let Some(storage) = &account.storage {
                let diffs = genesis_slot_diffs(storage);
                if !diffs.is_empty() {
                    let diff = AccountStorageDiff {
                        address: keccak256(address.bytes.as_slice()),
                        diffs,
                    };
                    proof {
                        assert(views(diff.diffs@).len() == storage@.len());
                        lemma_views_push(storage_diffs@, diff);
                    }
                    storage_diffs.push(diff);
                } else {
                    assert(views(diffs@).len() == storage@.len());
                }
            }
            i += 1;
        }
        let r = BlockStorageDiff {
            hash: H256::zero(),
            parent_hash: empty_root_hash(),
            new_accounts,
            deleted_accounts: Vec::new(),
            storage_diffs,
            new_codes,
        };
        proof {
            assert(alloc@.take(i as int) =~= alloc@);
            assert(views(r.deleted_accounts@) =~= Seq::empty());
        }
        r
    }
}

// ---------------------------------------------------------------------------------------------
// The changes of a block
// ---------------------------------------------------------------------------------------------

/// What an account holds.
#[derive(Clone, Debug)]
pub struct AccountInfo {
    pub balance: U256,
    pub nonce: u64,
    pub code_hash: H256,
    /// The code, if it was loaded.
    pub code: Option<Vec<u8>>,
}

/// An account that a block touched, as it is behind the block.
#[derive(Clone, Debug)]
pub struct BundleAccount {
    /// What the account holds, unless it is gone.
    pub info: Option<AccountInfo>,
    /// The storage slots that were touched, with their present values.
    pub storage: Vec<(U256, U256)>,
}

/// The accounts that a block touched, in some order.
#[derive(Clone, Debug)]
pub struct BundleState {
    pub state: Vec<(Address, BundleAccount)>,
}

/// What is known of the state before the block: the code hashes of the accounts that were looked
/// up and found.
#[derive(Clone, Debug)]
pub struct PreState {
    pub code_hashes: Vec<(Address, H256)>,
}

impl BundleAccount {
    /// Whether no storage slot occurs twice.
    pub open spec fn well_formed(&self) -> bool {
        keys_distinct(self.storage@)
    }
}

impl BundleState {
    /// Whether no account occurs twice, and no storage slot of an account.
    pub open spec fn well_formed(&self) -> bool {
        &&& keys_distinct(self.state@)
        &&& forall|i: int|
            0 <= i < self.state@.len() ==> (#[trigger] self.state@[i]).1.well_formed()
    }
}

impl PreState {
    /// Whether no account occurs twice.
    pub open spec fn well_formed(&self) -> bool {
        keys_distinct(self.code_hashes@)
    }
}

/// The code hash that an account had, if it was found.
pub open spec fn known_code_hash(
    code_hashes: Seq<(Address, H256)>,
    address: Seq<u8>,
) -> Option<Seq<u8>>
    decreases code_hashes.len(),
{
    if code_hashes.len() == 0 {
        None
    } else if code_hashes[0].0@ == address {
        Some(code_hashes[0].1@)
    } else {
        known_code_hash(code_hashes.drop_first(), address)
    }
}

impl PreState {
    /// The code hash that an account had, if it was found.
    pub fn code_hash_of(&self, address: &Address) -> (r: Option<H256>)
        ensures
            match r {
                Some(hash) => known_code_hash(self.code_hashes@, address@) == Some(hash@),
                None => known_code_hash(self.code_hashes@, address@) is None,
            },
    {
        let mut i: usize = 0;
        assert(self.code_hashes@.skip(0) =~= self.code_hashes@);
        while i < self.code_hashes.len()
            invariant
                i <= self.code_hashes@.len(),
                known_code_hash(self.code_hashes@, address@) == known_code_hash(
                    self.code_hashes@.skip(i as int),
                    address@,
                ),
            decreases self.code_hashes.len() - i,
        {
            let entry = &self.code_hashes[i];
            assert(self.code_hashes@.skip(i as int)[0] == entry);
            if entry.0.same_as(address) {
                return Some(entry.1);
            }
            assert(self.code_hashes@.skip(i as int).drop_first() =~= self.code_hashes@.skip(i + 1));
            i += 1;
        }
        None
    }
}

/// The address of an account whose storage was touched.
pub open spec fn bundle_storage_owner(entry: (Address, BundleAccount)) -> Option<Address> {
    if entry.1.storage@.len() > 0 {
        Some(entry.0)
    } else {
        None
    }
}

/// The addresses of the accounts whose storage was touched, in the order of the accounts.
pub open spec fn bundle_storage_owners(state: Seq<(Address, BundleAccount)>) -> Seq<Address> {
    state.filter_map(|entry: (Address, BundleAccount)| bundle_storage_owner(entry))
}

/// The addresses of the accounts whose storage was touched.
pub fn get_storage_contracts_from_bundle(bundle: &BundleState) -> (r: Vec<Address>)
    ensures
        r@ == bundle_storage_owners(bundle.state@),
{
    let mut addresses: Vec<Address> = Vec::new();
    let mut i: usize = 0;
    assert(bundle.state@.take(0) =~= Seq::empty());
    while i < bundle.state.len()
        invariant
            i <= bundle.state@.len(),
            addresses@ == bundle_storage_owners(bundle.state@.take(i as int)),
        decreases bundle.state.len() - i,
    {
        let entry = &bundle.state[i];
        assert(bundle.state@.take(i + 1).drop_last() =~= bundle.state@.take(i as int));
        if !entry.1.storage.is_empty() {
            addresses.push(entry.0);
        }
        i += 1;
    }
    assert(bundle.state@.take(i as int) =~= bundle.state@);
    addresses
}

/// The address of an account that is not gone and has code.
pub open spec fn code_owner(entry: (Address, BundleAccount)) -> Option<Address> {
    match entry.1.info {
        Some(info) => if info.code is Some {
            Some(entry.0)
        } else {
            None
        },
        None => None,
    }
}

/// The addresses of the accounts that are not gone and have code, in the order of the accounts.
pub open spec fn code_owners(state: Seq<(Address, BundleAccount)>) -> Seq<Address> {
    state.filter_map(|entry: (Address, BundleAccount)| code_owner(entry))
}

/// The addresses of the accounts that are not gone and have code. For these the code hash before
/// the block is of interest, and for no others.
pub fn accounts_with_code(bundle: &BundleState) -> (r: Vec<Address>)
    ensures
        r@ == code_owners(bundle.state@),
{
    let mut addresses: Vec<Address> = Vec::new();
    let mut i: usize = 0;
    assert(bundle.state@.take(0) =~= Seq::empty());
    while i < bundle.state.len()
        invariant
            i <= bundle.state@.len(),
            addresses@ == code_owners(bundle.state@.take(i as int)),
        decreases bundle.state.len() - i,
    {
        let entry = &bundle.state[i];
        assert(bundle.state@.take(i + 1).drop_last() =~= bundle.state@.take(i as int));
        if let Some(info) = &entry.1.info {
            if info.code.is_some() {
                addresses.push(entry.0);
            }
        }
        i += 1;
    }
    assert(bundle.state@.take(i as int) =~= bundle.state@);
    addresses
}

/// The hashed address of an account that is gone.
pub open spec fn deleted_account(entry: (Address, BundleAccount)) -> Option<Seq<u8>> {
    match entry.1.info {
        Some(_) => None,
        None => Some(keccak256_digest(entry.0@)),
    }
}

/// An account that is not gone as a new account.
pub open spec fn changed_account(entry: (Address, BundleAccount)) -> Option<AccountModel> {
    match entry.1.info {
        Some(info) => Some(
            AccountModel {
                address: keccak256_digest(entry.0@),
                balance: info.balance@,
                nonce: info.nonce,
                code_hash: info.code_hash@,
            },
        ),
        None => None,
    }
}

/// A touched storage slot as a changed one: the index is the digest of the 32 bytes that stand
/// for the number of the slot.
pub open spec fn changed_slot(slot: (U256, U256)) -> SlotModel {
    SlotModel { index: keccak256_digest(be_digits(slot.0@, 32)), value: slot.1@ }
}

/// Touched storage slots as changed ones.
pub open spec fn changed_slots(slots: Seq<(U256, U256)>) -> Seq<SlotModel> {
    Seq::new(slots.len(), |i: int| changed_slot(slots[i]))
}

/// The touched storage of an account that is not gone, if a slot was touched.
pub open spec fn changed_storage(entry: (Address, BundleAccount)) -> Option<StorageModel> {
    if entry.1.info is Some && entry.1.storage@.len() > 0 {
        Some(
            StorageModel {
                address: keccak256_digest(entry.0@),
                diffs: changed_slots(entry.1.storage@),
            },
        )
    } else {
        None
    }
}

/// The code of an account that is not gone, unless the account is known to have had this code
/// before the block.
pub open spec fn changed_code(
    entry: (Address, BundleAccount),
    code_hashes: Seq<(Address, H256)>,
) -> Option<CodeModel> {
    match entry.1.info {
        Some(info) => match info.code {
            Some(code) => if known_code_hash(code_hashes, entry.0@) == Some(info.code_hash@) {
                None
            } else {
                Some(CodeModel { code_hash: info.code_hash@, code: code@ })
            },
            None => None,
        },
        None => None,
    }
}

/// The hashed addresses of the accounts that are gone, in the order of the accounts.
pub open spec fn deleted_accounts(state: Seq<(Address, BundleAccount)>) -> Seq<Seq<u8>> {
    state.filter_map(|entry: (Address, BundleAccount)| deleted_account(entry))
}

/// The accounts that are not gone, in the same order.
pub open spec fn changed_accounts(state: Seq<(Address, BundleAccount)>) -> Seq<AccountModel> {
    state.filter_map(|entry: (Address, BundleAccount)| changed_account(entry))
}

/// The touched storage, in the order of the accounts.
pub open spec fn changed_storages(state: Seq<(Address, BundleAccount)>) -> Seq<StorageModel> {
    state.filter_map(|entry: (Address, BundleAccount)| changed_storage(entry))
}

/// The new code, in the order of the accounts.
pub open spec fn changed_codes(
    state: Seq<(Address, BundleAccount)>,
    code_hashes: Seq<(Address, H256)>,
) -> Seq<CodeModel> {
    state.filter_map(|entry: (Address, BundleAccount)| changed_code(entry, code_hashes))
}

/// The changes of a block as a difference.
pub open spec fn bundle_diff(
    state: Seq<(Address, BundleAccount)>,
    code_hashes: Seq<(Address, H256)>,
) -> DiffModel {
    DiffModel {
        hash: zero_bytes(32),
        parent_hash: zero_bytes(32),
        new_accounts: changed_accounts(state),
        deleted_accounts: deleted_accounts(state),
        storage_diffs: changed_storages(state),
        new_codes: changed_codes(state, code_hashes),
    }
}

/// The touched storage slots of an account as changed ones.
fn bundle_slot_diffs(slots: &Vec<(U256, U256)>) -> (r: Vec<IndexValuePair>)
    ensures
        views(r@) == changed_slots(slots@),
{
    let mut diffs: Vec<IndexValuePair> = Vec::new();
    let mut i: usize = 0;
    while i < slots.len()
        invariant
            i <= slots@.len(),
            views(diffs@) =~= changed_slots(slots@.take(i as int)),
        decreases slots.len() - i,
    {
        let slot = &slots[i];
        let number = word_to_be_bytes(slot.0);
        let pair = IndexValuePair { index: keccak256(number.as_slice()), value: slot.1 };
        proof {
            lemma_be_digits(number@);
            lemma_views_push(diffs@, pair);
            assert(slots@.take(i + 1) =~= slots@.take(i as int).push(slots@[i as int]));
        }
        diffs.push(pair);
        i += 1;
    }
    assert(slots@.take(i as int) =~= slots@);
    diffs
}

/// The changes of a block as a difference. The hashes of the states are left zero. Code is new
/// unless the account is known to have had code with the same hash before the block.
pub fn get_storage_diffs_from_bundle(bundle: BundleState, pre_db: &PreState) -> (r:
    BlockStorageDiff)
    ensures
        r@ == bundle_diff(bundle.state@, pre_db.code_hashes@),
{
    let mut new_accounts: Vec<NewAccount> = Vec::new();
    let mut deleted: Vec<H256> = Vec::new();
    let mut storage_diffs: Vec<AccountStorageDiff> = Vec::new();
    let mut new_codes: Vec<NewCode> = Vec::new();
    let state = &bundle.state;
    let ghost known = pre_db.code_hashes@;
    let mut i: usize = 0;
    proof {
        assert(state@.take(0) =~= Seq::empty());
        assert(views(new_accounts@) =~= Seq::empty());
        assert(views(deleted@) =~= Seq::empty());
        assert(views(storage_diffs@) =~= Seq::empty());
        assert(views(new_codes@) =~= Seq::empty());
    }
    while i < state.len()
        invariant
            i <= state@.len(),
            known == pre_db.code_hashes@,
            views(new_accounts@) == changed_accounts(state@.take(i as int)),
            views(deleted@) == deleted_accounts(state@.take(i as int)),
            views(storage_diffs@) == changed_storages(state@.take(i as int)),
            views(new_codes@) == changed_codes(state@.take(i as int), known),
        decreases state.len() - i,
    {
        let address = &state[i].0;
        let account = &state[i].1;
        proof {
            assert(state@.take(i + 1).drop_last() =~= state@.take(i as int));
            assert(state@.take(i + 1).last() == state@[i as int]);
        }
        match &account.info {
            None => {
                let hashed = keccak256(address.bytes.as_slice());
                proof {
                    lemma_views_push(deleted@, hashed);
                }
                deleted.push(hashed);
            },
            Some(info) => {
                let new_account = NewAccount {
                    address: keccak256(address.bytes.as_slice()),
                    balance: info.balance,
                    nonce: info.nonce,
                    code_hash: info.code_hash,
                };
                proof {
                    lemma_views_push(new_accounts@, new_account);
                }
                new_accounts.push(new_account);
                if !account.storage.is_empty() {
                    let diff = AccountStorageDiff {
                        address: keccak256(address.bytes.as_slice()),
                        diffs: bundle_slot_diffs(&account.storage),
                    };
                    proof {
                        lemma_views_push(storage_diffs@, diff);
                    }
                    storage_diffs.push(diff);
                }
                if let Some(code) = &info.code {
                    let unchanged = match pre_db.code_hash_of(address) {
                        Some(hash) => hash.same_as(&info.code_hash),
                        None => false,
                    };
                    if !unchanged {
                        let new_code = NewCode {
                            code_hash: info.code_hash,
                            code: copy_bytes(code),
                        };
                        proof {
                            lemma_views_push(new_codes@, new_code);
                        }
                        new_codes.push(new_code);
                    }
                }
            },
        }
        i += 1;
    }
    assert(state@.take(i as int) =~= state@);
    BlockStorageDiff {
        hash: H256::zero(),
        parent_hash: H256::zero(),
        new_accounts,
        deleted_accounts: deleted,
        storage_diffs,
        new_codes,
    }
}

} // verus!
