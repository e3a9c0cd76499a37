use debank_trace::block::{DebankBlock, DebankTransaction};
use debank_trace::block_file::{
    calc_validation_hash, BlockFile, BlockValidation, DebankOutPut,
};
use debank_trace::primitives::{Address, H256, U256};
use debank_trace::records::{DebankEvent, DebankTrace};

fn ids(texts: &[&str]) -> Vec<String> {
    texts.iter().map(|t| t.to_string()).collect()
}

fn transaction(id: &str) -> DebankTransaction {
    DebankTransaction {
        id: id.to_string(),
        from: Address { bytes: [0; 20] },
        to: Address { bytes: [0; 20] },
        gas_limit: 0,
        gas_price: 0,
        gas_used: 0,
        status: true,
        gas_fee_cap: 0,
        gas_tip_cap: 0,
        input: vec![],
        nonce: 0,
        transaction_index: 0,
        value: U256 { limbs: [0; 4] },
    }
}

fn event(id: &str) -> DebankEvent {
    let mut event = DebankEvent::default();
    event.id = id.to_string();
    event
}

fn trace(id: &str) -> DebankTrace {
    let mut trace = DebankTrace::default();
    trace.id = id.to_string();
    trace
}

fn file() -> BlockFile {
    BlockFile {
        block: DebankBlock {
            id: H256 { bytes: [0xab; 32] },
            height: 1,
            parent_id: H256 { bytes: [0; 32] },
            base_fee_per_gas: None,
            miner: Address { bytes: [0; 20] },
            gas_limit: 0,
            gas_used: 0,
            timestamp: 0,
            process_start_timestamp: 0,
        },
        transactions: vec![transaction("t1"), transaction("t2")],
        events: vec![event("e1")],
        traces: vec![trace("c1"), trace("c2")],
        error_events: vec![],
        error_traces: vec![],
        storage_contracts: vec![],
    }
}

#[test]
fn no_identifiers() {
    assert_eq!(calc_validation_hash(&[]), 0);
}

#[test]
fn one_identifier() {
    assert_eq!(calc_validation_hash(&ids(&["abc"])), 479517);
}

#[test]
fn digests_are_added_up() {
    assert_eq!(calc_validation_hash(&ids(&["abc", "def"])), 693166);
    assert_eq!(calc_validation_hash(&ids(&["a", "b", "c"])), 290308);
}

#[test]
fn leading_zeroes_are_dropped() {
    assert_eq!(calc_validation_hash(&ids(&["8"])), 42143);
}

#[test]
fn order_does_not_matter() {
    assert_eq!(
        calc_validation_hash(&ids(&["c", "a", "b"])),
        calc_validation_hash(&ids(&["a", "b", "c"]))
    );
}

#[test]
fn identifiers_may_hold_any_text() {
    let one = calc_validation_hash(&ids(&["\u{e9}\u{1f600}"]));
    let two = calc_validation_hash(&ids(&["\u{e9}"]));
    assert!(0 <= one && one < 1_000_000);
    assert_ne!(one, two);
}

#[test]
fn validation_takes_block_transactions_events_and_traces() {
    let block = format!("0x{}", "ab".repeat(32));
    let expected = calc_validation_hash(&ids(&[&block, "t1", "t2", "e1", "c1", "c2"]));
    let validation = file().validation();
    assert_eq!(validation.validation_hash, expected);
    assert!(!validation.is_fork);
}

#[test]
fn validation_looks_at_identifiers_alone() {
    let mut other = file();
    other.transactions = vec![transaction("c2"), transaction("e1")];
    other.events = vec![event("t2")];
    other.traces = vec![trace("t1"), trace("c1")];
    other.transactions[0].value = U256 { limbs: [5, 0, 0, 0] };
    assert_eq!(other.validation().validation_hash, file().validation().validation_hash);
}

#[test]
fn values_that_hold_nothing() {
    let file = BlockFile::default();
    assert_eq!(file.block.id, H256 { bytes: [0; 32] });
    assert_eq!(file.block.height, 0);
    assert_eq!(file.block.base_fee_per_gas, None);
    assert!(file.transactions.is_empty() && file.events.is_empty() && file.traces.is_empty());
    assert!(file.error_events.is_empty() && file.error_traces.is_empty());
    assert!(file.storage_contracts.is_empty());
    let validation = BlockValidation::default();
    assert_eq!((validation.validation_hash, validation.is_fork), (0, false));
    let tx = DebankTransaction::default();
    assert_eq!(tx.id, "");
    assert!(!tx.status);
    assert_eq!(tx.value, U256 { limbs: [0; 4] });
    assert_eq!(DebankBlock::default().timestamp, 0);
}

#[test]
fn output_that_holds_nothing() {
    let output = DebankOutPut::default();
    assert!(output.state_diff.is_empty());
    assert_eq!(output.validation_hash, 0);
    let outside = alloy_rpc_types_eth::Header::<alloy_consensus::Header>::default();
    let inner = output.header.inner;
    assert_eq!(inner.ommers_hash.bytes, outside.inner.ommers_hash.0);
    assert_eq!(inner.state_root.bytes, outside.inner.state_root.0);
    assert_eq!(inner.transactions_root.bytes, outside.inner.transactions_root.0);
    assert_eq!(inner.receipts_root.bytes, outside.inner.receipts_root.0);
    assert_eq!(inner.parent_hash.bytes, outside.inner.parent_hash.0);
    assert_eq!(inner.logs_bloom, outside.inner.logs_bloom.into_array());
    assert_eq!(inner.nonce, outside.inner.nonce.0);
    assert_eq!(output.header.hash.bytes, outside.hash.0);
}

#[test]
fn validation_ignores_what_took_no_effect() {
    let mut other = file();
    other.error_events.push(event("e2"));
    other.error_traces.push(trace("c3"));
    other.storage_contracts.push(Address { bytes: [1; 20] });
    assert_eq!(other.validation().validation_hash, file().validation().validation_hash);
    other.events.push(event("e2"));
    assert_ne!(other.validation().validation_hash, file().validation().validation_hash);
}
