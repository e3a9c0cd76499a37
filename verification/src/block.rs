//! Blocks, transactions and receipts, and the records and headers that are made of them.

use vstd::prelude::*;

use crate::bindings::{
    empty_ommer_root_hash, empty_ommers_hash, empty_root_hash, empty_trie_root, hash_text,
    word_add, word_div, word_from_u128, word_to_u128,
};
use crate::primitives::{
    address_or_zero, hash_or_zero, zero_bytes, Address, H256, U256,
};
use crate::records::copy_bytes;
use crate::text::prefixed_hex;

verus! {

// ---------------------------------------------------------------------------------------------
// Blocks
// ---------------------------------------------------------------------------------------------

/// The header of a block. What only some blocks carry is optional.
#[derive(Clone, Debug)]
pub struct BlockHeader {
    pub parent_hash: H256,
    pub ommers_hash: H256,
    pub beneficiary: Address,
    pub state_root: H256,
    pub transactions_root: H256,
    pub receipts_root: H256,
    pub logs_bloom: [u8; 256],
    pub difficulty: U256,
    pub number: u64,
    pub gas_limit: u64,
    pub gas_used: u64,
    pub timestamp: u64,
    pub extra_data: Vec<u8>,
    pub mix_hash: Option<H256>,
    pub nonce: Option<[u8; 8]>,
    pub base_fee_per_gas: Option<u64>,
    pub withdrawals_root: Option<H256>,
    pub blob_gas_used: Option<u64>,
    pub excess_blob_gas: Option<u64>,
    pub parent_beacon_block_root: Option<H256>,
    pub requests_hash: Option<H256>,
    pub block_access_list_hash: Option<H256>,
}

/// A block with its hash.
#[derive(Clone, Debug)]
pub struct RecoveredBlock {
    pub hash: H256,
    pub header: BlockHeader,
    pub transactions: Vec<Transaction>,
}

/// A block, as it is published.
#[derive(Clone, Copy, Debug)]
pub struct DebankBlock {
    pub id: H256,
    pub height: u64,
    pub parent_id: H256,
    pub base_fee_per_gas: Option<u64>,
    pub miner: Address,
    pub gas_limit: u64,
    pub gas_used: u64,
    pub timestamp: u64,
    /// When the block was processed, in milliseconds since 1970.
    pub process_start_timestamp: u128,
}

/// The record of a block that is processed at a given time.
pub open spec fn block_record(block: RecoveredBlock, now: u128) -> DebankBlock {
    DebankBlock {
        id: block.hash,
        height: block.header.number,
        parent_id: block.header.parent_hash,
        base_fee_per_gas: block.header.base_fee_per_gas,
        miner: block.header.beneficiary,
        gas_limit: block.header.gas_limit,
        gas_used: block.header.gas_used,
        timestamp: block.header.timestamp,
        process_start_timestamp: now,
    }
}

impl DebankBlock {
    /// The record of a block that is processed `now`, in milliseconds since 1970.
    pub fn from(block: &RecoveredBlock, now: u128) -> (r: DebankBlock)
        ensures
            r == block_record(*block, now),
            r.id == block.hash,
            r.height == block.header.number,
            r.parent_id == block.header.parent_hash,
            r.base_fee_per_gas == block.header.base_fee_per_gas,
            r.miner == block.header.beneficiary,
            r.gas_limit == block.header.gas_limit,
            r.gas_used == block.header.gas_used,
            r.timestamp == block.header.timestamp,
            r.process_start_timestamp == now,
    {
        DebankBlock {
            id: block.hash,
            height: block.header.number,
            parent_id: block.header.parent_hash,
            base_fee_per_gas: block.header.base_fee_per_gas,
            miner: block.header.beneficiary,
            gas_limit: block.header.gas_limit,
            gas_used: block.header.gas_used,
            timestamp: block.header.timestamp,
            process_start_timestamp: now,
        }
    }
}

/// Whether a record of a block holds nothing.
pub open spec fn is_empty_block(block: DebankBlock) -> bool {
    &&& block.id@ == zero_bytes(32)
    &&& block.height == 0
    &&& block.parent_id@ == zero_bytes(32)
    &&& block.base_fee_per_gas is None
    &&& block.miner@ == zero_bytes(20)
    &&& block.gas_limit == 0
    &&& block.gas_used == 0
    &&& block.timestamp == 0
    &&& block.process_start_timestamp == 0
}

impl Default for DebankBlock {
    fn default() -> (r: DebankBlock)
        ensures
            is_empty_block(r),
    {
        DebankBlock {
            id: H256::zero(),
            height: 0,
            parent_id: H256::zero(),
            base_fee_per_gas: None,
            miner: Address::zero(),
            gas_limit: 0,
            gas_used: 0,
            timestamp: 0,
            process_start_timestamp: 0,
        }
    }
}

// ---------------------------------------------------------------------------------------------
// Headers
// ---------------------------------------------------------------------------------------------

/// The fields of a header that its hash covers.
#[derive(Clone, Debug)]
pub struct InnerHeader {
    pub parent_hash: H256,
    pub ommers_hash: H256,
    pub beneficiary: Address,
    pub state_root: H256,
    pub transactions_root: H256,
    pub receipts_root: H256,
    pub logs_bloom: [u8; 256],
    pub difficulty: U256,
    pub number: u64,
    pub gas_limit: u64,
    pub gas_used: u64,
    pub timestamp: u64,
    pub extra_data: Vec<u8>,
    pub mix_hash: H256,
    pub nonce: [u8; 8],
    pub base_fee_per_gas: Option<u64>,
    pub withdrawals_root: Option<H256>,
    pub blob_gas_used: Option<u64>,
    pub excess_blob_gas: Option<u64>,
    pub parent_beacon_block_root: Option<H256>,
    pub requests_hash: Option<H256>,
    pub block_access_list_hash: Option<H256>,
    pub slot_number: Option<u64>,
}

/// A header, as it is published.
#[derive(Clone, Debug)]
pub struct Header {
    pub inner: InnerHeader,
    pub hash: H256,
    pub total_difficulty: Option<U256>,
    pub size: Option<U256>,
}

/// The content of a [`Header`].
pub struct HeaderModel {
    pub parent_hash: H256,
    pub ommers_hash: H256,
    pub beneficiary: Address,
    pub state_root: H256,
    pub transactions_root: H256,
    pub receipts_root: H256,
    pub logs_bloom: [u8; 256],
    pub difficulty: U256,
    pub number: u64,
    pub gas_limit: u64,
    pub gas_used: u64,
    pub timestamp: u64,
    pub extra_data: Seq<u8>,
    pub mix_hash: Seq<u8>,
    pub nonce: Seq<u8>,
    pub base_fee_per_gas: Option<u64>,
    pub withdrawals_root: Option<H256>,
    pub blob_gas_used: Option<u64>,
    pub excess_blob_gas: Option<u64>,
    pub parent_beacon_block_root: Option<H256>,
    pub requests_hash: Option<H256>,
    pub block_access_list_hash: Option<H256>,
    pub slot_number: Option<u64>,
    pub hash: H256,
    pub total_difficulty: Option<U256>,
    pub size: Option<U256>,
}

impl View for Header {
    type V = HeaderModel;

    open spec fn view(&self) -> HeaderModel {
        HeaderModel {
            parent_hash: self.inner.parent_hash,
            ommers_hash: self.inner.ommers_hash,
            beneficiary: self.inner.beneficiary,
            state_root: self.inner.state_root,
            transactions_root: self.inner.transactions_root,
            receipts_root: self.inner.receipts_root,
            logs_bloom: self.inner.logs_bloom,
            difficulty: self.inner.difficulty,
            number: self.inner.number,
            gas_limit: self.inner.gas_limit,
            gas_used: self.inner.gas_used,
            timestamp: self.inner.timestamp,
            extra_data: self.inner.extra_data@,
            mix_hash: self.inner.mix_hash@,
            nonce: self.inner.nonce@,
            base_fee_per_gas: self.inner.base_fee_per_gas,
            withdrawals_root: self.inner.withdrawals_root,
            blob_gas_used: self.inner.blob_gas_used,
            excess_blob_gas: self.inner.excess_blob_gas,
            parent_beacon_block_root: self.inner.parent_beacon_block_root,
            requests_hash: self.inner.requests_hash,
            block_access_list_hash: self.inner.block_access_list_hash,
            slot_number: self.inner.slot_number,
            hash: self.hash,
            total_difficulty: self.total_difficulty,
            size: self.size,
        }
    }
}

/// The header of a block, as it is published: a missing mix hash or nonce is zero, and slot
/// number, total difficulty and size are left out.
pub open spec fn rpc_header(block: RecoveredBlock) -> HeaderModel {
    HeaderModel {
        parent_hash: block.header.parent_hash,
        ommers_hash: block.header.ommers_hash,
        beneficiary: block.header.beneficiary,
        state_root: block.header.state_root,
        transactions_root: block.header.transactions_root,
        receipts_root: block.header.receipts_root,
        logs_bloom: block.header.logs_bloom,
        difficulty: block.header.difficulty,
        number: block.header.number,
        gas_limit: block.header.gas_limit,
        gas_used: block.header.gas_used,
        timestamp: block.header.timestamp,
        extra_data: block.header.extra_data@,
        mix_hash: hash_or_zero(block.header.mix_hash),
        nonce: match block.header.nonce {
            Some(nonce) => nonce@,
            None => zero_bytes(8),
        },
        base_fee_per_gas: block.header.base_fee_per_gas,
        withdrawals_root: block.header.withdrawals_root,
        blob_gas_used: block.header.blob_gas_used,
        excess_blob_gas: block.header.excess_blob_gas,
        parent_beacon_block_root: block.header.parent_beacon_block_root,
        requests_hash: block.header.requests_hash,
        block_access_list_hash: block.header.block_access_list_hash,
        slot_number: None,
        hash: block.hash,
        total_difficulty: None,
        size: None,
    }
}

/// The header of a block, as it is published.
pub fn build_rpc_header(block: &RecoveredBlock) -> (r: Header)
    ensures
        r@ == rpc_header(*block),
        r.hash == block.hash,
        r.inner.extra_data@ == block.header.extra_data@,
        block.header.mix_hash is Some ==> r.inner.mix_hash.bytes@ == (
        block.header.mix_hash->0).bytes@,
        block.header.nonce is Some ==> r.inner.nonce == block.header.nonce->0,
{
    let header = &block.header;
    let no_nonce: [u8; 8] = [0u8; 8];
    assert(no_nonce@ =~= zero_bytes(8));
    let inner = InnerHeader {
        parent_hash: header.parent_hash,
        ommers_hash: header.ommers_hash,
        beneficiary: header.beneficiary,
        state_root: header.state_root,
        transactions_root: header.transactions_root,
        receipts_root: header.receipts_root,
        logs_bloom: header.logs_bloom,
        difficulty: header.difficulty,
        number: header.number,
        gas_limit: header.gas_limit,
        gas_used: header.gas_used,
        timestamp: header.timestamp,
        extra_data: copy_bytes(&header.extra_data),
        mix_hash: H256::or_zero(header.mix_hash),
        nonce: match header.nonce {
            Some(nonce) => nonce,
            None => no_nonce,
        },
        base_fee_per_gas: header.base_fee_per_gas,
        withdrawals_root: header.withdrawals_root,
        blob_gas_used: header.blob_gas_used,
        excess_blob_gas: header.excess_blob_gas,
        parent_beacon_block_root: header.parent_beacon_block_root,
        requests_hash: header.requests_hash,
        block_access_list_hash: header.block_access_list_hash,
        slot_number: None,
    };
    Header { inner, hash: block.hash, total_difficulty: None, size: None }
}

/// Whether a header is that of a block with nothing in it: no ommers, an empty state, no
/// transactions and no receipts.
pub open spec fn is_empty_header(header: HeaderModel) -> bool {
    &&& header.parent_hash@ == zero_bytes(32)
    &&& header.ommers_hash@ == empty_ommers_hash()
    &&& header.beneficiary@ == zero_bytes(20)
    &&& header.state_root@ == empty_trie_root()
    &&& header.transactions_root@ == empty_trie_root()
    &&& header.receipts_root@ == empty_trie_root()
    &&& header.logs_bloom@ == zero_bytes(256)
    &&& header.difficulty@ == 0
    &&& header.number == 0
    &&& header.gas_limit == 0
    &&& header.gas_used == 0
    &&& header.timestamp == 0
    &&& header.extra_data.len() == 0
    &&& header.mix_hash == zero_bytes(32)
    &&& header.nonce == zero_bytes(8)
    &&& header.base_fee_per_gas is None
    &&& header.withdrawals_root is None
    &&& header.blob_gas_used is None
    &&& header.excess_blob_gas is None
    &&& header.parent_beacon_block_root is None
    &&& header.requests_hash is None
    &&& header.block_access_list_hash is None
    &&& header.slot_number is None
    &&& header.hash@ == zero_bytes(32)
    &&& header.total_difficulty is None
    &&& header.size is None
}

impl Default for Header {
    fn default() -> (r: Header)
        ensures
            is_empty_header(r@),
    {
        let logs_bloom: [u8; 256] = [0u8; 256];
        let nonce: [u8; 8] = [0u8; 8];
        proof {
            assert(logs_bloom@ =~= zero_bytes(256));
            assert(nonce@ =~= zero_bytes(8));
        }
        let inner = InnerHeader {
            parent_hash: H256::zero(),
            ommers_hash: empty_ommer_root_hash(),
            beneficiary: Address::zero(),
            state_root: empty_root_hash(),
            transactions_root: empty_root_hash(),
            receipts_root: empty_root_hash(),
            logs_bloom,
            difficulty: U256::zero(),
            number: 0,
            gas_limit: 0,
            gas_used: 0,
            timestamp: 0,
            extra_data: Vec::new(),
            mix_hash: H256::zero(),
            nonce,
            base_fee_per_gas: None,
            withdrawals_root: None,
            blob_gas_used: None,
            excess_blob_gas: None,
            parent_beacon_block_root: None,
            requests_hash: None,
            block_access_list_hash: None,
            slot_number: None,
        };
        Header { inner, hash: H256::zero(), total_difficulty: None, size: None }
    }
}

// ---------------------------------------------------------------------------------------------
// Receipts
// ---------------------------------------------------------------------------------------------

/// What kind of transaction a receipt is for.
#[derive(Clone, Copy, Debug)]
pub enum OpReceipt {
    Legacy,
    Eip2930,
    Eip1559,
    Eip7702,
    PostExec,
    /// A deposit, with the nonce of the depositor if it was recorded.
    Deposit(Option<u64>),
}

/// The receipt of a transaction.
#[derive(Clone, Copy, Debug)]
pub struct OpTransactionReceipt {
    pub receipt: OpReceipt,
    /// The fee for the data that went to the base chain.
    pub l1_fee: Option<u128>,
    pub transaction_hash: H256,
    pub transaction_index: Option<u64>,
    pub from: Address,
    pub to: Option<Address>,
    pub gas_used: u64,
    pub effective_gas_price: u128,
    pub status: bool,
}

/// The nonce of the depositor, for a deposit that has it.
pub open spec fn deposit_nonce(receipt: OpReceipt) -> Option<u64> {
    match receipt {
        OpReceipt::Deposit(nonce) => nonce,
        _ => None,
    }
}

/// The nonce of the depositor, for a deposit that has it.
pub fn get_deposit_nonce(receipt: &OpTransactionReceipt) -> (r: Option<u64>)
    ensures
        r == deposit_nonce(receipt.receipt),
        receipt.receipt is Deposit ==> r == receipt.receipt->Deposit_0,
        !(receipt.receipt is Deposit) ==> r is None,
{
    match receipt.receipt {
        OpReceipt::Deposit(nonce) => nonce,
        _ => None,
    }
}

/// The fee for the data that went to the base chain.
pub fn get_l1_fee(receipt: &OpTransactionReceipt) -> (r: Option<u128>)
    ensures
        r == receipt.l1_fee,
{
    receipt.l1_fee
}

// ---------------------------------------------------------------------------------------------
// Transactions
// ---------------------------------------------------------------------------------------------

/// A transaction of a block.
#[derive(Clone, Debug)]
pub struct Transaction {
    pub gas_limit: u64,
    pub max_fee_per_gas: u128,
    pub max_priority_fee_per_gas: Option<u128>,
    pub input: Vec<u8>,
    pub nonce: u64,
    pub value: U256,
}

/// A transaction, as it is published.
#[derive(Clone, Debug)]
pub struct DebankTransaction {
    pub id: String,
    pub from: Address,
    pub to: Address,
    pub gas_limit: u64,
    pub gas_price: u128,
    pub gas_used: u64,
    pub status: bool,
    pub gas_fee_cap: u128,
    pub gas_tip_cap: u128,
    pub input: Vec<u8>,
    pub nonce: u64,
    pub transaction_index: u64,
    pub value: U256,
}

/// The content of a [`DebankTransaction`].
pub struct TransactionModel {
    pub id: Seq<char>,
    pub from: Seq<u8>,
    pub to: Seq<u8>,
    pub gas_limit: u64,
    pub gas_price: nat,
    pub gas_used: u64,
    pub status: bool,
    pub gas_fee_cap: u128,
    pub gas_tip_cap: u128,
    pub input: Seq<u8>,
    pub nonce: u64,
    pub transaction_index: nat,
    pub value: nat,
}

impl View for DebankTransaction {
    type V = TransactionModel;

    open spec fn view(&self) -> TransactionModel {
        TransactionModel {
            id: self.id@,
            from: self.from@,
            to: self.to@,
            gas_limit: self.gas_limit,
            gas_price: self.gas_price as nat,
            gas_used: self.gas_used,
            status: self.status,
            gas_fee_cap: self.gas_fee_cap,
            gas_tip_cap: self.gas_tip_cap,
            input: self.input@,
            nonce: self.nonce,
            transaction_index: self.transaction_index as nat,
            value: self.value@,
        }
    }
}

/// The transaction that holds nothing.
pub open spec fn empty_transaction() -> TransactionModel {
    TransactionModel {
        id: Seq::empty(),
        from: zero_bytes(20),
        to: zero_bytes(20),
        gas_limit: 0,
        gas_price: 0,
        gas_used: 0,
        status: false,
        gas_fee_cap: 0,
        gas_tip_cap: 0,
        input: Seq::empty(),
        nonce: 0,
        transaction_index: 0,
        value: 0,
    }
}

impl Default for DebankTransaction {
    fn default() -> (r: DebankTransaction)
        ensures
            r@ == empty_transaction(),
    {
        DebankTransaction {
            id: String::new(),
            from: Address::zero(),
            to: Address::zero(),
            gas_limit: 0,
            gas_price: 0,
            gas_used: 0,
            status: false,
            gas_fee_cap: 0,
            gas_tip_cap: 0,
            input: Vec::new(),
            nonce: 0,
            transaction_index: 0,
            value: U256::zero(),
        }
    }
}

/// The price of a unit of gas in a transaction: the effective price, and with it, where a fee
/// for data was paid, the part of that fee that falls on each unit of gas.
pub open spec fn total_gas_price(receipt: OpTransactionReceipt, l1_fee: Option<u128>) -> nat {
    match l1_fee {
        None => receipt.effective_gas_price as nat,
        Some(fee) => fee as nat / receipt.gas_used as nat + receipt.effective_gas_price as nat,
    }
}

/// Whether the price of a unit of gas can be told: a fee for data can be shared out only where
/// gas was used, and the price must fit in its field.
pub open spec fn gas_price_known(receipt: OpTransactionReceipt, l1_fee: Option<u128>) -> bool {
    &&& l1_fee is Some ==> receipt.gas_used > 0
    &&& total_gas_price(receipt, l1_fee) <= u128::MAX
}

/// The record of a transaction with its receipt.
pub open spec fn transaction_record(
    receipt: OpTransactionReceipt,
    tx: Transaction,
    deposit_nonce: Option<u64>,
    l1_fee: Option<u128>,
) -> TransactionModel {
    TransactionModel {
        id: prefixed_hex(receipt.transaction_hash@),
        from: receipt.from@,
        to: address_or_zero(receipt.to),
        gas_limit: tx.gas_limit,
        gas_price: total_gas_price(receipt, l1_fee),
        gas_used: receipt.gas_used,
        status: receipt.status,
        gas_fee_cap: tx.max_fee_per_gas,
        gas_tip_cap: match tx.max_priority_fee_per_gas {
            Some(fee) => fee,
            None => 0,
        },
        input: tx.input@,
        nonce: if tx.nonce != 0 {
            tx.nonce
        } else {
            match deposit_nonce {
                Some(nonce) => nonce,
                None => 0,
            }
        },
        transaction_index: match receipt.transaction_index {
            Some(index) => index as nat,
            None => 0,
        },
        value: tx.value@,
    }
}

/// The price of a unit of gas in a transaction.
fn gas_price(receipt: &OpTransactionReceipt, l1_fee: Option<u128>) -> (r: U256)
    requires
        l1_fee is Some ==> receipt.gas_used > 0,
    ensures
        r@ == total_gas_price(*receipt, l1_fee),
{
    let effective_gas_price = word_from_u128(receipt.effective_gas_price);
    match l1_fee {
        None => effective_gas_price,
        Some(fee) => {
            let gas_used = word_from_u128(receipt.gas_used as u128);
            let share = word_div(word_from_u128(fee), gas_used);
            proof {
                vstd::arithmetic::div_mod::lemma_div_is_ordered_by_denominator(
                    fee as int,
                    1,
                    receipt.gas_used as int,
                );
            }
            word_add(share, effective_gas_price)
        },
    }
}

impl DebankTransaction {
    /// The record of a transaction with its receipt, the nonce of the depositor and the fee for
    /// data.
    pub fn from(parts: (&OpTransactionReceipt, &Transaction, Option<u64>, Option<u128>)) -> (r:
        DebankTransaction)
        requires
            gas_price_known(*parts.0, parts.3),
        ensures
            r@ == transaction_record(*parts.0, *parts.1, parts.2, parts.3),
            r.id@ == prefixed_hex(parts.0.transaction_hash.bytes@),
            r.from == parts.0.from,
            parts.0.to is Some ==> r.to.bytes@ == (parts.0.to->0).bytes@,
            parts.0.to is None ==> forall|i: int| 0 <= i < 20 ==> #[trigger] r.to.bytes@[i] == 0,
            r.gas_limit == parts.1.gas_limit,
            r.gas_used == parts.0.gas_used,
            r.status == parts.0.status,
            r.gas_fee_cap == parts.1.max_fee_per_gas,
            r.input@ == parts.1.input@,
            r.value == parts.1.value,
    {
        let (receipt, tx, deposit_nonce, l1_fee) = parts;
        let gas_price = word_to_u128(gas_price(receipt, l1_fee));
        DebankTransaction {
            id: hash_text(&receipt.transaction_hash),
            from: receipt.from,
            to: Address::or_zero(receipt.to),
            gas_limit: tx.gas_limit,
            gas_price,
            gas_used: receipt.gas_used,
            status: receipt.status,
            gas_fee_cap: tx.max_fee_per_gas,
            gas_tip_cap: match tx.max_priority_fee_per_gas {
                Some(fee) => fee,
                None => 0,
            },
            input: copy_bytes(&tx.input),
            nonce: if tx.nonce == 0 {
                match deposit_nonce {
                    Some(nonce) => nonce,
                    None => 0,
                }
            } else {
                tx.nonce
            },
            transaction_index: match receipt.transaction_index {
                Some(index) => index,
                None => 0,
            },
            value: tx.value,
        }
    }
}

impl OpTransactionReceipt {
    /// Whether the price of a unit of gas can be told for this receipt.
    pub fn has_gas_price(&self) -> (r: bool)
        ensures
            r == gas_price_known(*self, self.l1_fee),
    {
        match self.l1_fee {
            None => true,
            Some(fee) => if self.gas_used == 0 {
                false
            } else {
                let share = fee / self.gas_used as u128;
                share <= u128::MAX - self.effective_gas_price
            },
        }
    }
}

} // verus!
