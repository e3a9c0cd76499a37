//! What the bytes of a state difference stand for.

use vstd::prelude::*;

use crate::diff_encoding::{account_fields, code_fields, slot_fields, storage_fields};
use crate::primitives::H256;
use crate::rlp::{be_bytes, rlp_items, rlp_prefix, rlp_seq, rlp_string, RlpEncode};
use crate::state_diff::{
    AccountModel, AccountStorageDiff, BlockStorageDiff, CodeModel, DiffModel, IndexValuePair,
    NewAccount, NewCode, SlotModel, StorageModel,
};

verus! {

/// A tree of byte strings.
pub enum Tree {
    Bytes(Seq<u8>),
    List(Seq<Tree>),
}

/// The item for a tree: a byte string as an item, and a list as its prefix and the items for all
/// that it holds.
pub open spec fn tree_item(tree: Tree) -> Seq<u8>
    decreases tree,
{
    match tree {
        Tree::Bytes(bytes) => rlp_string(bytes),
        Tree::List(trees) => rlp_prefix(0xc0, tree_items(trees).len()) + tree_items(trees),
    }
}

/// The items for some trees, one behind the other.
pub open spec fn tree_items(trees: Seq<Tree>) -> Seq<u8>
    decreases trees,
{
    if trees.len() == 0 {
        Seq::empty()
    } else {
        tree_items(trees.drop_last()) + tree_item(trees.last())
    }
}

/// A number as a tree: its bytes, without leading zeroes.
pub open spec fn number_tree(n: nat) -> Tree {
    Tree::Bytes(be_bytes(n))
}

/// A new account as a tree: its address, balance, nonce and code hash.
pub open spec fn account_tree(account: AccountModel) -> Tree {
    Tree::List(
        seq![
            Tree::Bytes(account.address),
            number_tree(account.balance),
            number_tree(account.nonce as nat),
            Tree::Bytes(account.code_hash),
        ],
    )
}

/// New code as a tree: its hash and its bytes.
pub open spec fn code_tree(code: CodeModel) -> Tree {
    Tree::List(seq![Tree::Bytes(code.code_hash), Tree::Bytes(code.code)])
}

/// A storage slot as a tree: its index and its value.
pub open spec fn slot_tree(slot: SlotModel) -> Tree {
    Tree::List(seq![Tree::Bytes(slot.index), number_tree(slot.value)])
}

/// The storage of an account as a tree: its address and the list of its slots.
pub open spec fn storage_tree(storage: StorageModel) -> Tree {
    Tree::List(
        seq![
            Tree::Bytes(storage.address),
            Tree::List(Seq::new(storage.diffs.len(), |i: int| slot_tree(storage.diffs[i]))),
        ],
    )
}

/// A state difference as a tree: the hashes of the states behind and before it, and the lists of
/// new accounts, deleted accounts, storage and code.
pub open spec fn diff_tree(diff: DiffModel) -> Tree {
    Tree::List(
        seq![
            Tree::Bytes(diff.hash),
            Tree::Bytes(diff.parent_hash),
            Tree::List(
                Seq::new(diff.new_accounts.len(), |i: int| account_tree(diff.new_accounts[i])),
            ),
            Tree::List(
                Seq::new(
                    diff.deleted_accounts.len(),
                    |i: int| Tree::Bytes(diff.deleted_accounts[i]),
                ),
            ),
            Tree::List(
                Seq::new(diff.storage_diffs.len(), |i: int| storage_tree(diff.storage_diffs[i])),
            ),
            Tree::List(Seq::new(diff.new_codes.len(), |i: int| code_tree(diff.new_codes[i]))),
        ],
    )
}

/// The items for two lists of trees, one behind the other.
proof fn lemma_items_add(a: Seq<Tree>, b: Seq<Tree>)
    ensures
        tree_items(a + b) == tree_items(a) + tree_items(b),
    decreases b.len(),
{
    if b.len() == 0 {
        assert(a + b =~= a);
        assert(tree_items(a) + tree_items(b) =~= tree_items(a));
    } else {
        lemma_items_add(a, b.drop_last());
        assert((a + b).drop_last() =~= a + b.drop_last());
        assert(tree_items(a + b) =~= tree_items(a) + tree_items(b));
    }
}

/// The item for one tree.
proof fn lemma_items_one(tree: Tree)
    ensures
        tree_items(seq![tree]) == tree_item(tree),
{
    assert(tree_items(seq![tree].drop_last()) =~= Seq::empty());
    assert(seq![tree].last() == tree);
    assert(tree_items(seq![tree]) =~= tree_item(tree));
}

/// The items for two trees.
proof fn lemma_items_two(a: Tree, b: Tree)
    ensures
        tree_items(seq![a, b]) == tree_item(a) + tree_item(b),
{
    lemma_items_one(a);
    lemma_items_one(b);
    lemma_items_add(seq![a], seq![b]);
    assert(seq![a] + seq![b] =~= seq![a, b]);
}

/// The items for some values are those for their trees.
proof fn lemma_value_items<T: RlpEncode>(values: Seq<T::V>, tree: spec_fn(T::V) -> Tree)
    requires
        forall|i: int|
            0 <= i < values.len() ==> T::item(#[trigger] values[i]) == tree_item(tree(values[i])),
    ensures
        rlp_items::<T>(values) == tree_items(Seq::new(values.len(), |i: int| tree(values[i]))),
    decreases values.len(),
{
    let trees = Seq::new(values.len(), |i: int| tree(values[i]));
    if values.len() > 0 {
        let init = values.drop_last();
        assert forall|i: int| 0 <= i < init.len() implies T::item(#[trigger] init[i]) == tree_item(
            tree(init[i]),
        ) by {
            assert(init[i] == values[i]);
        }
        lemma_value_items::<T>(init, tree);
        assert(trees.drop_last() =~= Seq::new(init.len(), |i: int| tree(init[i])));
        assert(T::item(values[values.len() - 1]) == tree_item(tree(values[values.len() - 1])));
    }
}

proof fn lemma_account_item(account: AccountModel)
    ensures
        NewAccount::item(account) == tree_item(account_tree(account)),
{
    let (a, b) = (Tree::Bytes(account.address), number_tree(account.balance));
    let (c, d) = (number_tree(account.nonce as nat), Tree::Bytes(account.code_hash));
    lemma_items_two(a, b);
    lemma_items_two(c, d);
    lemma_items_add(seq![a, b], seq![c, d]);
    assert(seq![a, b] + seq![c, d] =~= seq![a, b, c, d]);
    assert(tree_items(seq![a, b, c, d]) =~= account_fields(account));
}

proof fn lemma_code_item(code: CodeModel)
    ensures
        NewCode::item(code) == tree_item(code_tree(code)),
{
    lemma_items_two(Tree::Bytes(code.code_hash), Tree::Bytes(code.code));
    assert(tree_items(seq![Tree::Bytes(code.code_hash), Tree::Bytes(code.code)]) =~= code_fields(
        code,
    ));
}

proof fn lemma_slot_item(slot: SlotModel)
    ensures
        IndexValuePair::item(slot) == tree_item(slot_tree(slot)),
{
    lemma_items_two(Tree::Bytes(slot.index), number_tree(slot.value));
    assert(tree_items(seq![Tree::Bytes(slot.index), number_tree(slot.value)]) =~= slot_fields(
        slot,
    ));
}

proof fn lemma_storage_item(storage: StorageModel)
    ensures
        AccountStorageDiff::item(storage) == tree_item(storage_tree(storage)),
{
    assert forall|i: int| 0 <= i < storage.diffs.len() implies IndexValuePair::item(
        #[trigger] storage.diffs[i],
    ) == tree_item(slot_tree(storage.diffs[i])) by {
        lemma_slot_item(storage.diffs[i]);
    }
    let tree = |slot: SlotModel| slot_tree(slot);
    lemma_value_items::<IndexValuePair>(storage.diffs, tree);
    let slots = Seq::new(storage.diffs.len(), |i: int| slot_tree(storage.diffs[i]));
    assert(slots =~= Seq::new(storage.diffs.len(), |i: int| tree(storage.diffs[i])));
    lemma_items_two(Tree::Bytes(storage.address), Tree::List(slots));
    assert(tree_items(seq![Tree::Bytes(storage.address), Tree::List(slots)]) =~= storage_fields(
        storage,
    ));
}

proof fn lemma_accounts_item(values: Seq<AccountModel>)
    ensures
        tree_item(Tree::List(Seq::new(values.len(), |i: int| account_tree(values[i]))))
            == rlp_seq::<NewAccount>(values),
{
    let tree = |account: AccountModel| account_tree(account);
    assert forall|i: int| 0 <= i < values.len() implies NewAccount::item(#[trigger] values[i])
        == tree_item(tree(values[i])) by {
        lemma_account_item(values[i]);
    }
    lemma_value_items::<NewAccount>(values, tree);
    assert(Seq::new(values.len(), |i: int| account_tree(values[i])) =~= Seq::new(
        values.len(),
        |i: int| tree(values[i]),
    ));
}

proof fn lemma_deleted_item(values: Seq<Seq<u8>>)
    ensures
        tree_item(Tree::List(Seq::new(values.len(), |i: int| Tree::Bytes(values[i]))))
            == rlp_seq::<H256>(values),
{
    let tree = |hash: Seq<u8>| Tree::Bytes(hash);
    lemma_value_items::<H256>(values, tree);
    assert(Seq::new(values.len(), |i: int| Tree::Bytes(values[i])) =~= Seq::new(
        values.len(),
        |i: int| tree(values[i]),
    ));
}

proof fn lemma_storages_item(values: Seq<StorageModel>)
    ensures
        tree_item(Tree::List(Seq::new(values.len(), |i: int| storage_tree(values[i]))))
            == rlp_seq::<AccountStorageDiff>(values),
{
    let tree = |storage: StorageModel| storage_tree(storage);
    assert forall|i: int|
        0 <= i < values.len() implies AccountStorageDiff::item(#[trigger] values[i]) == tree_item(
        tree(values[i]),
    ) by {
        lemma_storage_item(values[i]);
    }
    lemma_value_items::<AccountStorageDiff>(values, tree);
    assert(Seq::new(values.len(), |i: int| storage_tree(values[i])) =~= Seq::new(
        values.len(),
        |i: int| tree(values[i]),
    ));
}

proof fn lemma_codes_item(values: Seq<CodeModel>)
    ensures
        tree_item(Tree::List(Seq::new(values.len(), |i: int| code_tree(values[i]))))
            == rlp_seq::<NewCode>(values),
{
    let tree = |code: CodeModel| code_tree(code);
    assert forall|i: int| 0 <= i < values.len() implies NewCode::item(#[trigger] values[i])
        == tree_item(tree(values[i])) by {
        lemma_code_item(values[i]);
    }
    lemma_value_items::<NewCode>(values, tree);
    assert(Seq::new(values.len(), |i: int| code_tree(values[i])) =~= Seq::new(
        values.len(),
        |i: int| tree(values[i]),
    ));
}

/// The items for six trees.
proof fn lemma_items_six(a: Tree, b: Tree, c: Tree, d: Tree, e: Tree, f: Tree)
    ensures
        tree_items(seq![a, b, c, d, e, f]) == tree_item(a) + (tree_item(b) + (tree_item(c) + (
        tree_item(d) + (tree_item(e) + tree_item(f))))),
{
    lemma_items_two(a, b);
    lemma_items_two(c, d);
    lemma_items_two(e, f);
    lemma_items_add(seq![a, b], seq![c, d]);
    lemma_items_add(seq![a, b] + seq![c, d], seq![e, f]);
    assert(seq![a, b] + seq![c, d] + seq![e, f] =~= seq![a, b, c, d, e, f]);
    assert(tree_items(seq![a, b, c, d, e, f]) =~= tree_item(a) + (tree_item(b) + (tree_item(c) + (
    tree_item(d) + (tree_item(e) + tree_item(f))))));
}

/// The bytes of a state difference are those of the tree of its fields, in their order.
pub proof fn law_diff_bytes(diff: DiffModel)
    ensures
        BlockStorageDiff::item(diff) == tree_item(diff_tree(diff)),
{
    lemma_accounts_item(diff.new_accounts);
    lemma_deleted_item(diff.deleted_accounts);
    lemma_storages_item(diff.storage_diffs);
    lemma_codes_item(diff.new_codes);
    let trees = diff_tree(diff)->List_0;
    lemma_items_six(trees[0], trees[1], trees[2], trees[3], trees[4], trees[5]);
    assert(trees =~= seq![trees[0], trees[1], trees[2], trees[3], trees[4], trees[5]]);
}

/// A list of values is encoded as the prefix of a list and the items of the values, the first one
/// first.
pub proof fn law_list_bytes<T: RlpEncode>(a: Seq<T::V>, b: Seq<T::V>, value: T::V)
    ensures
        rlp_items::<T>(a + b) == rlp_items::<T>(a) + rlp_items::<T>(b),
        rlp_items::<T>(seq![value]) == T::item(value),
        rlp_items::<T>(Seq::<T::V>::empty()).len() == 0,
        rlp_seq::<T>(a) == rlp_prefix(0xc0, rlp_items::<T>(a).len()) + rlp_items::<T>(a),
    decreases b.len(),
{
    assert(rlp_items::<T>(seq![value].drop_last()) =~= Seq::empty());
    assert(seq![value].last() == value);
    assert(rlp_items::<T>(seq![value]) =~= T::item(value));
    if b.len() == 0 {
        assert(a + b =~= a);
    } else {
        law_list_bytes::<T>(a, b.drop_last(), value);
        assert((a + b).drop_last() =~= a + b.drop_last());
        assert((a + b).last() == b.last());
    }
    assert(rlp_items::<T>(a + b) =~= rlp_items::<T>(a) + rlp_items::<T>(b));
}

} // verus!
