//! What the records of blocks and transactions take from the chain, and what validates them.

use vstd::prelude::*;
use vstd::utf8::encode_utf8;

use crate::bindings::{empty_ommers_hash, empty_trie_root, sha1_digest};
use crate::block::{
    block_record, deposit_nonce, empty_transaction, gas_price_known, is_empty_block,
    is_empty_header, rpc_header, transaction_record, DebankBlock, DebankTransaction, Header,
    HeaderModel, OpReceipt, OpTransactionReceipt, RecoveredBlock, Transaction,
};
use crate::block_file::{
    digest_sum, file_ids, gathered, validation_number, BlockFile, DebankOutPut, FileModel,
};
use crate::primitives::be_value;
use crate::state_diff::empty_diff;
use crate::text::prefixed_hex;
use crate::trace_tree::Lists;

verus! {

// ---------------------------------------------------------------------------------------------
// Contents
// ---------------------------------------------------------------------------------------------

/// The content of a transaction record is what stands in its fields.
pub proof fn law_transaction_content(tx: DebankTransaction)
    ensures
        tx@.id == tx.id@,
        tx@.from == tx.from.bytes@,
        tx@.to == tx.to.bytes@,
        tx@.gas_limit == tx.gas_limit,
        tx@.gas_price == tx.gas_price,
        tx@.gas_used == tx.gas_used,
        tx@.status == tx.status,
        tx@.gas_fee_cap == tx.gas_fee_cap,
        tx@.gas_tip_cap == tx.gas_tip_cap,
        tx@.input == tx.input@,
        tx@.nonce == tx.nonce,
        tx@.transaction_index == tx.transaction_index,
        tx@.value == tx.value@,
{
}

/// The content of a header is what stands in its fields.
pub proof fn law_header_content(header: Header)
    ensures
        header@.parent_hash == header.inner.parent_hash,
        header@.ommers_hash == header.inner.ommers_hash,
        header@.beneficiary == header.inner.beneficiary,
        header@.state_root == header.inner.state_root,
        header@.transactions_root == header.inner.transactions_root,
        header@.receipts_root == header.inner.receipts_root,
        header@.logs_bloom == header.inner.logs_bloom,
        header@.difficulty == header.inner.difficulty,
        header@.number == header.inner.number,
        header@.gas_limit == header.inner.gas_limit,
        header@.gas_used == header.inner.gas_used,
        header@.timestamp == header.inner.timestamp,
        header@.extra_data == header.inner.extra_data@,
        header@.mix_hash == header.inner.mix_hash.bytes@,
        header@.nonce == header.inner.nonce@,
        header@.base_fee_per_gas == header.inner.base_fee_per_gas,
        header@.withdrawals_root == header.inner.withdrawals_root,
        header@.blob_gas_used == header.inner.blob_gas_used,
        header@.excess_blob_gas == header.inner.excess_blob_gas,
        header@.parent_beacon_block_root == header.inner.parent_beacon_block_root,
        header@.requests_hash == header.inner.requests_hash,
        header@.block_access_list_hash == header.inner.block_access_list_hash,
        header@.slot_number == header.inner.slot_number,
        header@.hash == header.hash,
        header@.total_difficulty == header.total_difficulty,
        header@.size == header.size,
{
}

/// The content of a file is what stands in its fields, item by item.
pub proof fn law_file_content(file: BlockFile)
    ensures
        file@.block == file.block,
        file@.transactions.len() == file.transactions@.len(),
        forall|i: int|
            0 <= i < file.transactions@.len() ==> (#[trigger] file@.transactions[i])
                == file.transactions@[i]@,
        file@.events.len() == file.events@.len(),
        forall|i: int|
            0 <= i < file.events@.len() ==> (#[trigger] file@.events[i]) == file.events@[i]@,
        file@.traces.len() == file.traces@.len(),
        forall|i: int|
            0 <= i < file.traces@.len() ==> (#[trigger] file@.traces[i]) == file.traces@[i]@,
        file@.error_events.len() == file.error_events@.len(),
        forall|i: int|
            0 <= i < file.error_events@.len() ==> (#[trigger] file@.error_events[i])
                == file.error_events@[i]@,
        file@.error_traces.len() == file.error_traces@.len(),
        forall|i: int|
            0 <= i < file.error_traces@.len() ==> (#[trigger] file@.error_traces[i])
                == file.error_traces@[i]@,
        file@.storage_contracts == file.storage_contracts@,
{
}

/// The content of an output is what stands in its fields.
pub proof fn law_output_content(output: DebankOutPut)
    ensures
        output@.block_file == output.block_file@,
        output@.header == output.header@,
        output@.state_diff == output.state_diff@,
        output@.validation_hash == output.validation_hash,
{
}

/// The records that hold nothing: no text, no bytes, no number above zero, and addresses and
/// hashes of zeroes. The empty header has the roots of nothing.
pub proof fn law_empty_contents(block: DebankBlock, header: HeaderModel)
    ensures
        ({
            let tx = empty_transaction();
            &&& tx.id.len() == 0 && tx.input.len() == 0
            &&& tx.from == Seq::new(20, |i: int| 0u8) && tx.to == Seq::new(20, |i: int| 0u8)
            &&& tx.gas_limit == 0 && tx.gas_price == 0 && tx.gas_used == 0 && !tx.status
            &&& tx.gas_fee_cap == 0 && tx.gas_tip_cap == 0 && tx.nonce == 0
            &&& tx.transaction_index == 0 && tx.value == 0
        }),
        ({
            let diff = empty_diff();
            &&& diff.hash == Seq::new(32, |i: int| 0u8)
            &&& diff.parent_hash == Seq::new(32, |i: int| 0u8)
            &&& diff.new_accounts.len() == 0 && diff.deleted_accounts.len() == 0
            &&& diff.storage_diffs.len() == 0 && diff.new_codes.len() == 0
        }),
        is_empty_block(block) ==> {
            &&& block.id.bytes@ == Seq::new(32, |i: int| 0u8)
            &&& block.parent_id.bytes@ == Seq::new(32, |i: int| 0u8)
            &&& block.miner.bytes@ == Seq::new(20, |i: int| 0u8)
            &&& block.base_fee_per_gas is None
            &&& block.height == 0 && block.gas_limit == 0 && block.gas_used == 0
            &&& block.timestamp == 0 && block.process_start_timestamp == 0
        },
        is_empty_header(header) ==> {
            &&& header.parent_hash.bytes@ == Seq::new(32, |i: int| 0u8)
            &&& header.hash.bytes@ == Seq::new(32, |i: int| 0u8)
            &&& header.mix_hash == Seq::new(32, |i: int| 0u8)
            &&& header.beneficiary.bytes@ == Seq::new(20, |i: int| 0u8)
            &&& header.ommers_hash.bytes@ == empty_ommers_hash()
            &&& header.state_root.bytes@ == empty_trie_root()
            &&& header.transactions_root.bytes@ == empty_trie_root()
            &&& header.receipts_root.bytes@ == empty_trie_root()
            &&& header.logs_bloom@ == Seq::new(256, |i: int| 0u8)
            &&& header.nonce == Seq::new(8, |i: int| 0u8)
            &&& header.difficulty@ == 0 && header.number == 0 && header.timestamp == 0
            &&& header.gas_limit == 0 && header.gas_used == 0 && header.extra_data.len() == 0
            &&& header.base_fee_per_gas is None && header.withdrawals_root is None
            &&& header.blob_gas_used is None && header.excess_blob_gas is None
            &&& header.parent_beacon_block_root is None && header.requests_hash is None
            &&& header.block_access_list_hash is None && header.slot_number is None
            &&& header.total_difficulty is None && header.size is None
        },
{
}

// ---------------------------------------------------------------------------------------------
// Records
// ---------------------------------------------------------------------------------------------

/// The record of a transaction carries the transaction's own gas limit, fee cap, input and value,
/// its tip cap where it has one, and what its receipt says of sender, receiver, gas, status and
/// place.
pub proof fn law_transaction_record(
    receipt: OpTransactionReceipt,
    tx: Transaction,
    deposit: Option<u64>,
    l1_fee: Option<u128>,
)
    ensures
        ({
            let record = transaction_record(receipt, tx, deposit, l1_fee);
            &&& record.id == prefixed_hex(receipt.transaction_hash.bytes@)
            &&& record.input == tx.input@
            &&& record.value == tx.value@
            &&& record.gas_limit == tx.gas_limit
            &&& record.gas_fee_cap == tx.max_fee_per_gas
            &&& tx.max_priority_fee_per_gas is Some ==> record.gas_tip_cap
                == tx.max_priority_fee_per_gas->0
            &&& tx.max_priority_fee_per_gas is None ==> record.gas_tip_cap == 0
            &&& record.from == receipt.from.bytes@
            &&& receipt.to is Some ==> record.to == (receipt.to->0).bytes@
            &&& receipt.to is None ==> record.to.len() == 20 && forall|i: int|
                0 <= i < 20 ==> #[trigger] record.to[i] == 0
            &&& record.gas_used == receipt.gas_used
            &&& record.status == receipt.status
            &&& receipt.transaction_index is Some ==> record.transaction_index
                == receipt.transaction_index->0
            &&& receipt.transaction_index is None ==> record.transaction_index == 0
        }),
{
}

/// A transaction keeps its own nonce unless that is zero. Then it has the nonce of the depositor,
/// if there is one.
pub proof fn law_transaction_nonce(
    receipt: OpTransactionReceipt,
    tx: Transaction,
    deposit: Option<u64>,
    l1_fee: Option<u128>,
)
    ensures
        ({
            let record = transaction_record(receipt, tx, deposit, l1_fee);
            &&& tx.nonce != 0 ==> record.nonce == tx.nonce
            &&& tx.nonce == 0 && deposit is Some ==> record.nonce == deposit->0
            &&& tx.nonce == 0 && deposit is None ==> record.nonce == 0
        }),
{
}

/// The gas price is the effective one, and with a fee for data the most that can be added to it
/// for each unit of gas used without taking more than the fee.
pub proof fn law_gas_price(
    receipt: OpTransactionReceipt,
    tx: Transaction,
    deposit: Option<u64>,
    l1_fee: Option<u128>,
)
    requires
        l1_fee is Some ==> receipt.gas_used > 0,
    ensures
        ({
            let price = transaction_record(receipt, tx, deposit, l1_fee).gas_price as int;
            let added = price - receipt.effective_gas_price;
            &&& l1_fee is None ==> added == 0
            &&& l1_fee is Some ==> {
                &&& 0 <= added
                &&& added * receipt.gas_used <= l1_fee->0
                &&& l1_fee->0 < (added + 1) * receipt.gas_used
            }
        }),
{
    if l1_fee is Some {
        let (fee, gas) = (l1_fee->0 as int, receipt.gas_used as int);
        let q = fee / gas;
        vstd::arithmetic::div_mod::lemma_fundamental_div_mod(fee, gas);
        vstd::arithmetic::div_mod::lemma_mod_bound(fee, gas);
        vstd::arithmetic::div_mod::lemma_div_pos_is_pos(fee, gas);
        assert(q * gas <= fee < (q + 1) * gas) by (nonlinear_arith)
            requires
                fee == gas * q + fee % gas,
                0 <= fee % gas < gas,
        ;
    }
}

/// A gas price can be told for every receipt that shares out no fee, and for every other one that
/// used gas, as long as fee and price together fit.
pub proof fn law_gas_price_known(receipt: OpTransactionReceipt, l1_fee: Option<u128>)
    ensures
        l1_fee is None ==> gas_price_known(receipt, l1_fee),
        l1_fee is Some && receipt.gas_used > 0 && l1_fee->0 + receipt.effective_gas_price
            <= u128::MAX ==> gas_price_known(receipt, l1_fee),
        l1_fee is Some && receipt.gas_used == 0 ==> !gas_price_known(receipt, l1_fee),
{
    if l1_fee is Some && receipt.gas_used > 0 {
        vstd::arithmetic::div_mod::lemma_div_is_ordered_by_denominator(
            l1_fee->0 as int,
            1,
            receipt.gas_used as int,
        );
    }
}

/// Only a deposit tells the nonce of a depositor, the one that it carries.
pub proof fn law_deposit_nonce(receipt: OpReceipt, nonce: Option<u64>)
    ensures
        deposit_nonce(OpReceipt::Deposit(nonce)) == nonce,
        !(receipt is Deposit) ==> deposit_nonce(receipt) is None,
{
}

/// The record of a block carries the hash, the number, the parent, the fee, the beneficiary, the
/// gas and the time of the block, and the time at which it was processed.
pub proof fn law_block_record(block: RecoveredBlock, now: u128)
    ensures
        ({
            let record = block_record(block, now);
            &&& record.id == block.hash
            &&& record.height == block.header.number
            &&& record.parent_id == block.header.parent_hash
            &&& record.base_fee_per_gas == block.header.base_fee_per_gas
            &&& record.miner == block.header.beneficiary
            &&& record.gas_limit == block.header.gas_limit
            &&& record.gas_used == block.header.gas_used
            &&& record.timestamp == block.header.timestamp
            &&& record.process_start_timestamp == now
        }),
{
}

/// The published header carries every field of the header of the block. A missing mix hash or
/// nonce is all zeroes, and slot number, total difficulty and size are left out.
pub proof fn law_rpc_header(block: RecoveredBlock)
    ensures
        ({
            let (out, own) = (rpc_header(block), block.header);
            &&& out.hash == block.hash
            &&& out.parent_hash == own.parent_hash
            &&& out.ommers_hash == own.ommers_hash
            &&& out.beneficiary == own.beneficiary
            &&& out.state_root == own.state_root
            &&& out.transactions_root == own.transactions_root
            &&& out.receipts_root == own.receipts_root
            &&& out.logs_bloom == own.logs_bloom
            &&& out.difficulty == own.difficulty
            &&& out.number == own.number
            &&& out.gas_limit == own.gas_limit
            &&& out.gas_used == own.gas_used
            &&& out.timestamp == own.timestamp
            &&& out.extra_data == own.extra_data@
            &&& own.mix_hash is Some ==> out.mix_hash == (own.mix_hash->0).bytes@
            &&& own.mix_hash is None ==> out.mix_hash.len() == 32 && forall|i: int|
                0 <= i < 32 ==> #[trigger] out.mix_hash[i] == 0
            &&& own.nonce is Some ==> out.nonce == (own.nonce->0)@
            &&& own.nonce is None ==> out.nonce.len() == 8 && forall|i: int|
                0 <= i < 8 ==> #[trigger] out.nonce[i] == 0
            &&& out.base_fee_per_gas == own.base_fee_per_gas
            &&& out.withdrawals_root == own.withdrawals_root
            &&& out.blob_gas_used == own.blob_gas_used
            &&& out.excess_blob_gas == own.excess_blob_gas
            &&& out.parent_beacon_block_root == own.parent_beacon_block_root
            &&& out.requests_hash == own.requests_hash
            &&& out.block_access_list_hash == own.block_access_list_hash
            &&& out.slot_number is None
            &&& out.total_difficulty is None
            &&& out.size is None
        }),
{
}

// ---------------------------------------------------------------------------------------------
// Validation
// ---------------------------------------------------------------------------------------------

/// One identifier is validated by the SHA-1 digest of all its bytes, read as a number.
pub proof fn law_validation_one(id: Seq<char>)
    ensures
        validation_number(seq![id]) == be_value(sha1_digest(encode_utf8(id))) % 1_000_000,
{
    let ids = seq![id];
    assert(digest_sum(ids.drop_last()) == 0);
    assert(ids.last() == id);
}

/// Two lists of identifiers, one behind the other, are validated by the sum of their numbers, and
/// no identifiers by zero.
pub proof fn law_validation_sum(a: Seq<Seq<char>>, b: Seq<Seq<char>>)
    ensures
        validation_number(a + b) == (validation_number(a) + validation_number(b)) % 1_000_000,
        validation_number(Seq::<Seq<char>>::empty()) == 0,
        validation_number(a) < 1_000_000,
{
    lemma_digest_sum_add(a, b);
}

proof fn lemma_digest_sum_add(a: Seq<Seq<char>>, b: Seq<Seq<char>>)
    ensures
        digest_sum(a + b) == digest_sum(a) + digest_sum(b),
    decreases b.len(),
{
    if b.len() == 0 {
        assert(a + b =~= a);
    } else {
        lemma_digest_sum_add(a, b.drop_last());
        assert((a + b).drop_last() =~= a + b.drop_last());
    }
}

/// The identifiers that validate a block: the hash of the block, and behind it the identifiers of
/// all its transactions, of all events and of all traces that took effect.
pub proof fn law_file_ids(file: FileModel)
    ensures
        ({
            let (t, e) = (file.transactions.len() as int, file.events.len() as int);
            &&& file_ids(file).len() == 1 + t + e + file.traces.len()
            &&& file_ids(file)[0] == prefixed_hex(file.block.id.bytes@)
            &&& forall|i: int|
                0 <= i < t ==> file_ids(file)[1 + i] == (#[trigger] file.transactions[i]).id
            &&& forall|i: int|
                0 <= i < e ==> file_ids(file)[1 + t + i] == (#[trigger] file.events[i]).id
            &&& forall|i: int|
                0 <= i < file.traces.len() ==> file_ids(file)[1 + t + e + i] == (
                #[trigger] file.traces[i]).id
        }),
{
}

// ---------------------------------------------------------------------------------------------
// Gathering
// ---------------------------------------------------------------------------------------------

/// The lists of one transaction are gathered as they are, those of none are empty, and the lists
/// of more transactions stand one behind the other, each in its own.
pub proof fn law_gathered(a: Seq<Lists>, b: Seq<Lists>, one: Lists)
    ensures
        gathered(seq![one]) == one,
        gathered(Seq::<Lists>::empty()).0.len() == 0,
        gathered(Seq::<Lists>::empty()).1.len() == 0,
        gathered(Seq::<Lists>::empty()).2.len() == 0,
        gathered(Seq::<Lists>::empty()).3.len() == 0,
        gathered(a + b).0 == gathered(a).0 + gathered(b).0,
        gathered(a + b).1 == gathered(a).1 + gathered(b).1,
        gathered(a + b).2 == gathered(a).2 + gathered(b).2,
        gathered(a + b).3 == gathered(a).3 + gathered(b).3,
    decreases b.len(),
{
    let single = seq![one];
    let none = gathered(single.drop_last());
    assert(none.0.len() == 0 && none.1.len() == 0 && none.2.len() == 0 && none.3.len() == 0);
    assert(single.last() == one);
    assert(gathered(single).0 =~= one.0);
    assert(gathered(single).1 =~= one.1);
    assert(gathered(single).2 =~= one.2);
    assert(gathered(single).3 =~= one.3);
    if b.len() == 0 {
        assert(a + b =~= a);
    } else {
        law_gathered(a, b.drop_last(), one);
        assert((a + b).drop_last() =~= a + b.drop_last());
        assert((a + b).last() == b.last());
    }
    assert(gathered(a + b).0 =~= gathered(a).0 + gathered(b).0);
    assert(gathered(a + b).1 =~= gathered(a).1 + gathered(b).1);
    assert(gathered(a + b).2 =~= gathered(a).2 + gathered(b).2);
    assert(gathered(a + b).3 =~= gathered(a).3 + gathered(b).3);
}

} // verus!
