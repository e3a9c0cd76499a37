//! The bytes of a state difference.

use vstd::prelude::*;

use crate::bindings::{encode_string, encode_u64, encode_word};
use crate::primitives::H256;
use crate::rlp::{
    be_bytes, encode_seq, extend, lemma_item_len, lemma_list_unique, lemma_number_unique,
    lemma_seq_unique, lemma_string_unique, list_item, rlp_list, rlp_number, rlp_seq, rlp_string,
    short, RlpEncode,
};
use crate::state_diff::{
    AccountModel, AccountStorageDiff, BlockStorageDiff, CodeModel, DiffModel,
    IndexValuePair, NewAccount, NewCode, SlotModel, StorageModel,
};

verus! {

impl RlpEncode for H256 {
    open spec fn item(value: Seq<u8>) -> Seq<u8> {
        rlp_string(value)
    }

    proof fn lemma_item_unique(a: Seq<u8>, b: Seq<u8>, x: Seq<u8>, y: Seq<u8>) {
        lemma_item_len(a);
        lemma_item_len(b);
        lemma_string_unique(a, b, x, y);
    }

    fn encode(&self) -> (r: Vec<u8>) {
        encode_string(self.bytes.as_slice())
    }
}

/// The fields of a new account, one behind the other.
pub open spec fn account_fields(account: AccountModel) -> Seq<u8> {
    rlp_string(account.address) + (rlp_number(account.balance) + (rlp_number(account.nonce as nat)
        + rlp_string(account.code_hash)))
}

impl RlpEncode for NewAccount {
    open spec fn item(value: AccountModel) -> Seq<u8> {
        rlp_list(account_fields(value))
    }

    proof fn lemma_item_unique(a: AccountModel, b: AccountModel, x: Seq<u8>, y: Seq<u8>) {
        let (p, q) = (account_fields(a), account_fields(b));
        lemma_item_len(p);
        lemma_item_len(q);
        lemma_list_unique(p, q, x, y);
        lemma_account_fields_unique(a, b);
    }

    fn encode(&self) -> (r: Vec<u8>) {
        let mut payload = encode_string(self.address.bytes.as_slice());
        extend(&mut payload, encode_word(self.balance));
        extend(&mut payload, encode_u64(self.nonce));
        extend(&mut payload, encode_string(self.code_hash.bytes.as_slice()));
        assert(payload@ =~= account_fields(self@));
        list_item(payload)
    }
}

proof fn lemma_account_fields_unique(a: AccountModel, b: AccountModel)
    requires
        short(account_fields(a).len()),
        account_fields(a) == account_fields(b),
    ensures
        a == b,
{
    let empty = Seq::<u8>::empty();
    let (a3, b3) = (rlp_string(a.code_hash), rlp_string(b.code_hash));
    let (a2, b2) = (rlp_number(a.nonce as nat) + a3, rlp_number(b.nonce as nat) + b3);
    let (a1, b1) = (rlp_number(a.balance) + a2, rlp_number(b.balance) + b2);
    lemma_item_len(a.address);
    lemma_item_len(b.address);
    lemma_item_len(be_bytes(a.balance));
    lemma_item_len(be_bytes(b.balance));
    lemma_item_len(be_bytes(a.nonce as nat));
    lemma_item_len(be_bytes(b.nonce as nat));
    lemma_item_len(a.code_hash);
    lemma_item_len(b.code_hash);
    lemma_string_unique(a.address, b.address, a1, b1);
    lemma_number_unique(a.balance, b.balance, a2, b2);
    lemma_number_unique(a.nonce as nat, b.nonce as nat, a3, b3);
    assert(a3 + empty =~= b3 + empty);
    lemma_string_unique(a.code_hash, b.code_hash, empty, empty);
}

/// The fields of new code, one behind the other.
pub open spec fn code_fields(code: CodeModel) -> Seq<u8> {
    rlp_string(code.code_hash) + rlp_string(code.code)
}

impl RlpEncode for NewCode {
    open spec fn item(value: CodeModel) -> Seq<u8> {
        rlp_list(code_fields(value))
    }

    proof fn lemma_item_unique(a: CodeModel, b: CodeModel, x: Seq<u8>, y: Seq<u8>) {
        let empty = Seq::<u8>::empty();
        let (p, q) = (code_fields(a), code_fields(b));
        lemma_item_len(p);
        lemma_item_len(q);
        lemma_list_unique(p, q, x, y);
        lemma_item_len(a.code_hash);
        lemma_item_len(b.code_hash);
        lemma_item_len(a.code);
        lemma_item_len(b.code);
        lemma_string_unique(a.code_hash, b.code_hash, rlp_string(a.code), rlp_string(b.code));
        assert(rlp_string(a.code) + empty =~= rlp_string(b.code) + empty);
        lemma_string_unique(a.code, b.code, empty, empty);
    }

    fn encode(&self) -> (r: Vec<u8>) {
        let mut payload = encode_string(self.code_hash.bytes.as_slice());
        extend(&mut payload, encode_string(self.code.as_slice()));
        list_item(payload)
    }
}

/// The fields of a storage slot, one behind the other.
pub open spec fn slot_fields(slot: SlotModel) -> Seq<u8> {
    rlp_string(slot.index) + rlp_number(slot.value)
}

impl RlpEncode for IndexValuePair {
    open spec fn item(value: SlotModel) -> Seq<u8> {
        rlp_list(slot_fields(value))
    }

    proof fn lemma_item_unique(a: SlotModel, b: SlotModel, x: Seq<u8>, y: Seq<u8>) {
        let empty = Seq::<u8>::empty();
        let (p, q) = (slot_fields(a), slot_fields(b));
        lemma_item_len(p);
        lemma_item_len(q);
        lemma_list_unique(p, q, x, y);
        lemma_item_len(a.index);
        lemma_item_len(b.index);
        lemma_item_len(be_bytes(a.value));
        lemma_item_len(be_bytes(b.value));
        lemma_string_unique(a.index, b.index, rlp_number(a.value), rlp_number(b.value));
        assert(rlp_number(a.value) + empty =~= rlp_number(b.value) + empty);
        lemma_number_unique(a.value, b.value, empty, empty);
    }

    fn encode(&self) -> (r: Vec<u8>) {
        let mut payload = encode_string(self.index.bytes.as_slice());
        extend(&mut payload, encode_word(self.value));
        list_item(payload)
    }
}

/// The fields of the storage of an account, one behind the other.
pub open spec fn storage_fields(storage: StorageModel) -> Seq<u8> {
    rlp_string(storage.address) + rlp_seq::<IndexValuePair>(storage.diffs)
}

impl RlpEncode for AccountStorageDiff {
    open spec fn item(value: StorageModel) -> Seq<u8> {
        rlp_list(storage_fields(value))
    }

    proof fn lemma_item_unique(a: StorageModel, b: StorageModel, x: Seq<u8>, y: Seq<u8>) {
        let empty = Seq::<u8>::empty();
        let (p, q) = (storage_fields(a), storage_fields(b));
        let (s, t) = (rlp_seq::<IndexValuePair>(a.diffs), rlp_seq::<IndexValuePair>(b.diffs));
        lemma_item_len(p);
        lemma_item_len(q);
        lemma_list_unique(p, q, x, y);
        lemma_item_len(a.address);
        lemma_item_len(b.address);
        lemma_string_unique(a.address, b.address, s, t);
        assert(s + empty =~= t + empty);
        lemma_seq_unique::<IndexValuePair>(a.diffs, b.diffs, empty, empty);
    }

    fn encode(&self) -> (r: Vec<u8>) {
        let mut payload = encode_string(self.address.bytes.as_slice());
        extend(&mut payload, encode_seq(&self.diffs));
        list_item(payload)
    }
}

/// The fields of a state difference, one behind the other.
pub open spec fn diff_fields(diff: DiffModel) -> Seq<u8> {
    rlp_string(diff.hash) + (rlp_string(diff.parent_hash) + (rlp_seq::<NewAccount>(
        diff.new_accounts,
    ) + (rlp_seq::<H256>(diff.deleted_accounts) + (rlp_seq::<AccountStorageDiff>(
        diff.storage_diffs,
    ) + rlp_seq::<NewCode>(diff.new_codes)))))
}

impl RlpEncode for BlockStorageDiff {
    open spec fn item(value: DiffModel) -> Seq<u8> {
        rlp_list(diff_fields(value))
    }

    proof fn lemma_item_unique(a: DiffModel, b: DiffModel, x: Seq<u8>, y: Seq<u8>) {
        let (p, q) = (diff_fields(a), diff_fields(b));
        lemma_item_len(p);
        lemma_item_len(q);
        lemma_list_unique(p, q, x, y);
        lemma_diff_fields_unique(a, b);
    }

    fn encode(&self) -> (r: Vec<u8>) {
        let mut payload = encode_string(self.hash.bytes.as_slice());
        extend(&mut payload, encode_string(self.parent_hash.bytes.as_slice()));
        extend(&mut payload, encode_seq(&self.new_accounts));
        extend(&mut payload, encode_seq(&self.deleted_accounts));
        extend(&mut payload, encode_seq(&self.storage_diffs));
        extend(&mut payload, encode_seq(&self.new_codes));
        assert(payload@ =~= diff_fields(self@));
        list_item(payload)
    }
}

proof fn lemma_diff_fields_unique(a: DiffModel, b: DiffModel)
    requires
        short(diff_fields(a).len()),
        diff_fields(a) == diff_fields(b),
    ensures
        a == b,
{
    let empty = Seq::<u8>::empty();
    let (a5, b5) = (rlp_seq::<NewCode>(a.new_codes), rlp_seq::<NewCode>(b.new_codes));
    let a4 = rlp_seq::<AccountStorageDiff>(a.storage_diffs) + a5;
    let b4 = rlp_seq::<AccountStorageDiff>(b.storage_diffs) + b5;
    let a3 = rlp_seq::<H256>(a.deleted_accounts) + a4;
    let b3 = rlp_seq::<H256>(b.deleted_accounts) + b4;
    let a2 = rlp_seq::<NewAccount>(a.new_accounts) + a3;
    let b2 = rlp_seq::<NewAccount>(b.new_accounts) + b3;
    let (a1, b1) = (rlp_string(a.parent_hash) + a2, rlp_string(b.parent_hash) + b2);
    lemma_item_len(a.hash);
    lemma_item_len(b.hash);
    lemma_item_len(a.parent_hash);
    lemma_item_len(b.parent_hash);
    lemma_string_unique(a.hash, b.hash, a1, b1);
    lemma_string_unique(a.parent_hash, b.parent_hash, a2, b2);
    lemma_seq_unique::<NewAccount>(a.new_accounts, b.new_accounts, a3, b3);
    lemma_seq_unique::<H256>(a.deleted_accounts, b.deleted_accounts, a4, b4);
    lemma_seq_unique::<AccountStorageDiff>(a.storage_diffs, b.storage_diffs, a5, b5);
    assert(a5 + empty =~= b5 + empty);
    lemma_seq_unique::<NewCode>(a.new_codes, b.new_codes, empty, empty);
}

/// The bytes of a state difference tell everything about it: two differences with the same bytes
/// are the same. The bytes are fewer than 2 to the power of 64, as the format has it.
pub proof fn law_encoding_unique(a: BlockStorageDiff, b: BlockStorageDiff)
    requires
        short(BlockStorageDiff::item(a@).len()),
        BlockStorageDiff::item(a@) == BlockStorageDiff::item(b@),
    ensures
        a@ == b@,
{
    let empty = Seq::<u8>::empty();
    assert(BlockStorageDiff::item(a@) + empty == BlockStorageDiff::item(b@) + empty);
    BlockStorageDiff::lemma_item_unique(a@, b@, empty, empty);
}

} // verus!
