use debank_trace::block::{
    build_rpc_header, get_deposit_nonce, get_l1_fee, BlockHeader, DebankBlock, DebankTransaction,
    OpReceipt, OpTransactionReceipt, RecoveredBlock, Transaction,
};
use debank_trace::block_id::{BlockId, BlockNumberOrTag, RpcBlockHash};
use debank_trace::primitives::{Address, H256, U256};

fn address(b: u8) -> Address {
    Address { bytes: [b; 20] }
}

fn hash(b: u8) -> H256 {
    H256 { bytes: [b; 32] }
}

fn block() -> RecoveredBlock {
    RecoveredBlock {
        hash: hash(1),
        header: BlockHeader {
            parent_hash: hash(2),
            ommers_hash: hash(3),
            beneficiary: address(4),
            state_root: hash(5),
            transactions_root: hash(6),
            receipts_root: hash(7),
            logs_bloom: [8; 256],
            difficulty: U256 { limbs: [9, 0, 0, 0] },
            number: 10,
            gas_limit: 11,
            gas_used: 12,
            timestamp: 13,
            extra_data: vec![14],
            mix_hash: Some(hash(15)),
            nonce: Some([16; 8]),
            base_fee_per_gas: Some(17),
            withdrawals_root: Some(hash(18)),
            blob_gas_used: Some(19),
            excess_blob_gas: Some(20),
            parent_beacon_block_root: Some(hash(21)),
            requests_hash: Some(hash(22)),
            block_access_list_hash: Some(hash(23)),
        },
        transactions: vec![],
    }
}

fn receipt() -> OpTransactionReceipt {
    OpTransactionReceipt {
        receipt: OpReceipt::Eip1559,
        l1_fee: None,
        transaction_hash: hash(0xcd),
        transaction_index: Some(4),
        from: address(1),
        to: Some(address(2)),
        gas_used: 100,
        effective_gas_price: 7,
        status: true,
    }
}

fn transaction() -> Transaction {
    Transaction {
        gas_limit: 50,
        max_fee_per_gas: 60,
        max_priority_fee_per_gas: Some(3),
        input: vec![1, 2],
        nonce: 9,
        value: U256 { limbs: [5, 0, 0, 0] },
    }
}

#[test]
fn record_of_a_block() {
    let record = DebankBlock::from(&block(), 1234);
    assert_eq!(record.id, hash(1));
    assert_eq!(record.height, 10);
    assert_eq!(record.parent_id, hash(2));
    assert_eq!(record.base_fee_per_gas, Some(17));
    assert_eq!(record.miner, address(4));
    assert_eq!(record.gas_limit, 11);
    assert_eq!(record.gas_used, 12);
    assert_eq!(record.timestamp, 13);
    assert_eq!(record.process_start_timestamp, 1234);
}

#[test]
fn header_of_a_block() {
    let header = build_rpc_header(&block());
    assert_eq!(header.hash, hash(1));
    assert_eq!(header.total_difficulty, None);
    assert_eq!(header.size, None);
    let inner = header.inner;
    assert_eq!(inner.parent_hash, hash(2));
    assert_eq!(inner.ommers_hash, hash(3));
    assert_eq!(inner.beneficiary, address(4));
    assert_eq!(inner.state_root, hash(5));
    assert_eq!(inner.transactions_root, hash(6));
    assert_eq!(inner.receipts_root, hash(7));
    assert_eq!(inner.logs_bloom, [8; 256]);
    assert_eq!(inner.difficulty, U256 { limbs: [9, 0, 0, 0] });
    assert_eq!(inner.number, 10);
    assert_eq!(inner.gas_limit, 11);
    assert_eq!(inner.gas_used, 12);
    assert_eq!(inner.timestamp, 13);
    assert_eq!(inner.extra_data, vec![14]);
    assert_eq!(inner.mix_hash, hash(15));
    assert_eq!(inner.nonce, [16; 8]);
    assert_eq!(inner.base_fee_per_gas, Some(17));
    assert_eq!(inner.withdrawals_root, Some(hash(18)));
    assert_eq!(inner.blob_gas_used, Some(19));
    assert_eq!(inner.excess_blob_gas, Some(20));
    assert_eq!(inner.parent_beacon_block_root, Some(hash(21)));
    assert_eq!(inner.requests_hash, Some(hash(22)));
    assert_eq!(inner.block_access_list_hash, Some(hash(23)));
    assert_eq!(inner.slot_number, None);
}

#[test]
fn missing_seal_is_zero() {
    let mut block = block();
    block.header.mix_hash = None;
    block.header.nonce = None;
    let header = build_rpc_header(&block);
    assert_eq!(header.inner.mix_hash, hash(0));
    assert_eq!(header.inner.nonce, [0; 8]);
}

#[test]
fn record_of_a_transaction() {
    let record = DebankTransaction::from((&receipt(), &transaction(), None, None));
    assert_eq!(record.id, format!("0x{}", "cd".repeat(32)));
    assert_eq!(record.from, address(1));
    assert_eq!(record.to, address(2));
    assert_eq!(record.gas_limit, 50);
    assert_eq!(record.gas_price, 7);
    assert_eq!(record.gas_used, 100);
    assert!(record.status);
    assert_eq!(record.gas_fee_cap, 60);
    assert_eq!(record.gas_tip_cap, 3);
    assert_eq!(record.input, vec![1, 2]);
    assert_eq!(record.nonce, 9);
    assert_eq!(record.transaction_index, 4);
    assert_eq!(record.value, U256 { limbs: [5, 0, 0, 0] });
}

#[test]
fn what_is_missing_is_zero() {
    let mut receipt = receipt();
    receipt.to = None;
    receipt.transaction_index = None;
    receipt.status = false;
    let mut tx = transaction();
    tx.max_priority_fee_per_gas = None;
    let record = DebankTransaction::from((&receipt, &tx, None, None));
    assert_eq!(record.to, address(0));
    assert_eq!(record.transaction_index, 0);
    assert_eq!(record.gas_tip_cap, 0);
    assert!(!record.status);
}

#[test]
fn data_fee_is_shared_out() {
    let record = DebankTransaction::from((&receipt(), &transaction(), None, Some(1099)));
    assert_eq!(record.gas_price, 10 + 7);
    let record = DebankTransaction::from((&receipt(), &transaction(), None, Some(99)));
    assert_eq!(record.gas_price, 7);
    let mut receipt = receipt();
    receipt.gas_used = 2;
    let record = DebankTransaction::from((&receipt, &transaction(), None, Some(u128::MAX)));
    assert_eq!(record.gas_price, u128::MAX / 2 + 7);
}

#[test]
fn gas_prices_that_cannot_be_told() {
    let mut receipt = receipt();
    receipt.gas_used = 0;
    assert!(receipt.has_gas_price());
    receipt.l1_fee = Some(5);
    assert!(!receipt.has_gas_price());
    receipt.gas_used = 1;
    assert!(receipt.has_gas_price());
    receipt.l1_fee = Some(u128::MAX - 7);
    assert!(receipt.has_gas_price());
    receipt.l1_fee = Some(u128::MAX - 6);
    assert!(!receipt.has_gas_price());
}

#[test]
fn nonce_of_a_deposit() {
    let nonce = |tx_nonce: u64, deposit: Option<u64>| {
        let mut tx = transaction();
        tx.nonce = tx_nonce;
        DebankTransaction::from((&receipt(), &tx, deposit, None)).nonce
    };
    assert_eq!(nonce(9, Some(5)), 9);
    assert_eq!(nonce(0, Some(5)), 5);
    assert_eq!(nonce(0, None), 0);
}

#[test]
fn what_receipts_tell() {
    let mut receipt = receipt();
    assert_eq!(get_deposit_nonce(&receipt), None);
    assert_eq!(get_l1_fee(&receipt), None);
    receipt.receipt = OpReceipt::Deposit(Some(8));
    receipt.l1_fee = Some(77);
    assert_eq!(get_deposit_nonce(&receipt), Some(8));
    assert_eq!(get_l1_fee(&receipt), Some(77));
    receipt.receipt = OpReceipt::Deposit(None);
    assert_eq!(get_deposit_nonce(&receipt), None);
}

#[test]
fn names_of_blocks() {
    let hash_id = |require_canonical: Option<bool>| {
        BlockId::Hash(RpcBlockHash { block_hash: hash(0xef), require_canonical }).text()
    };
    let digits = "ef".repeat(32);
    assert_eq!(hash_id(None), format!("hash 0x{digits}"));
    assert_eq!(hash_id(Some(false)), format!("hash 0x{digits}"));
    assert_eq!(hash_id(Some(true)), format!("canonical hash 0x{digits}"));
    assert_eq!(BlockId::from(hash(0xef)).text(), hash_id(None));
    let number = |n: BlockNumberOrTag| BlockId::Number(n).text();
    assert_eq!(number(BlockNumberOrTag::Number(0)), "0x0");
    assert_eq!(number(BlockNumberOrTag::Number(255)), "0xff");
    assert_eq!(number(BlockNumberOrTag::Number(4096)), "0x1000");
    assert_eq!(number(BlockNumberOrTag::Latest), "latest");
    assert_eq!(number(BlockNumberOrTag::Finalized), "finalized");
    assert_eq!(number(BlockNumberOrTag::Safe), "safe");
    assert_eq!(number(BlockNumberOrTag::Earliest), "earliest");
    assert_eq!(number(BlockNumberOrTag::Pending), "pending");
}
