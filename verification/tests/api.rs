use debank_trace::block::{
    BlockHeader, OpReceipt, OpTransactionReceipt, RecoveredBlock, Transaction,
};
use debank_trace::block_file::DebankOutPut;
use debank_trace::block_id::{BlockId, BlockNumberOrTag, RpcBlockHash};
use debank_trace::call_trace::{
    CallKind, CallLog, CallTrace, CallTraceArena, CallTraceNode, TraceMemberOrder,
};
use debank_trace::primitives::{Address, H256, U256};
use debank_trace::rlp::RlpEncode;
use debank_trace::state_diff::{
    AccountInfo, BlockStorageDiff, BundleAccount, BundleState, Genesis, GenesisAccount, PreState,
};
use debank_trace::trace_api::{
    trace_all_block, Action, BlockTrace, DebankTraceApi, Event, TraceError, TraceState,
};

fn address(b: u8) -> Address {
    Address { bytes: [b; 20] }
}

fn hash(b: u8) -> H256 {
    H256 { bytes: [b; 32] }
}

fn word(n: u64) -> U256 {
    U256 { limbs: [n, 0, 0, 0] }
}

fn block_id() -> BlockId {
    BlockId::Number(BlockNumberOrTag::Number(18))
}

fn block(number: u64, state_root: H256, transactions: usize) -> RecoveredBlock {
    let transaction = Transaction {
        gas_limit: 1,
        max_fee_per_gas: 2,
        max_priority_fee_per_gas: None,
        input: vec![],
        nonce: 0,
        value: word(0),
    };
    RecoveredBlock {
        hash: hash(1),
        header: BlockHeader {
            parent_hash: hash(2),
            ommers_hash: hash(0),
            beneficiary: address(0),
            state_root,
            transactions_root: hash(0),
            receipts_root: hash(0),
            logs_bloom: [0; 256],
            difficulty: word(0),
            number,
            gas_limit: 0,
            gas_used: 0,
            timestamp: 0,
            extra_data: vec![],
            mix_hash: None,
            nonce: None,
            base_fee_per_gas: None,
            withdrawals_root: None,
            blob_gas_used: None,
            excess_blob_gas: None,
            parent_beacon_block_root: None,
            requests_hash: None,
            block_access_list_hash: None,
        },
        transactions: vec![transaction; transactions],
    }
}

fn receipt(b: u8) -> OpTransactionReceipt {
    OpTransactionReceipt {
        receipt: OpReceipt::Deposit(Some(b as u64)),
        l1_fee: Some(50),
        transaction_hash: hash(b),
        transaction_index: Some(0),
        from: address(1),
        to: None,
        gas_used: 10,
        effective_gas_price: 1,
        status: true,
    }
}

fn arena(logs: usize) -> CallTraceArena {
    CallTraceArena {
        nodes: vec![CallTraceNode {
            children: vec![],
            trace: CallTrace {
                success: true,
                caller: address(1),
                address: address(2),
                selfdestruct_address: None,
                selfdestruct_refund_target: None,
                selfdestruct_transferred_value: None,
                kind: CallKind::Call,
                value: word(0),
                data: vec![],
                output: vec![],
                gas_used: 0,
                gas_limit: 0,
                status: None,
                steps: vec![],
            },
            logs: vec![CallLog { topics: vec![], data: vec![] }; logs],
            ordering: (0..logs).map(TraceMemberOrder::Log).collect(),
        }],
    }
}

fn trace() -> BlockTrace {
    BlockTrace {
        transactions: vec![(hash(0x11), arena(2)), (hash(0x22), arena(1))],
        bundle: BundleState {
            state: vec![(
                address(7),
                BundleAccount {
                    info: Some(AccountInfo {
                        balance: word(1),
                        nonce: 2,
                        code_hash: hash(3),
                        code: None,
                    }),
                    storage: vec![(word(4), word(5))],
                },
            )],
        },
        pre_state: PreState { code_hashes: vec![] },
    }
}

/// What a node replies to each kind of request.
struct Node {
    block: Option<RecoveredBlock>,
    genesis: Genesis,
    receipts: Option<Vec<OpTransactionReceipt>>,
    parent: Option<RecoveredBlock>,
    trace: Option<BlockTrace>,
}

fn node() -> Node {
    Node {
        block: Some(block(18, hash(0xaa), 2)),
        genesis: Genesis { alloc: vec![] },
        receipts: Some(vec![receipt(0x11), receipt(0x22)]),
        parent: Some(block(17, hash(0xbb), 0)),
        trace: Some(trace()),
    }
}

/// Runs a request to its end, and tells what was asked for.
fn run(node: Node) -> (Vec<String>, Result<DebankOutPut, TraceError>) {
    let mut asked = vec![];
    let (mut state, mut action) = TraceState::start(block_id());
    loop {
        let event = match action {
            Action::Reply(answer) => {
                assert!(matches!(state, TraceState::Done));
                return (asked, answer);
            }
            Action::LoadBlock(id) => {
                asked.push(format!("block {}", id.text()));
                Event::Block(node.block.clone(), 99)
            }
            Action::LoadGenesis => {
                asked.push("genesis".to_string());
                Event::Genesis(node.genesis.clone())
            }
            Action::LoadReceipts(id) => {
                asked.push(format!("receipts {}", id.text()));
                Event::Receipts(node.receipts.clone())
            }
            Action::LoadParent(id) => {
                asked.push(format!("parent {}", id.text()));
                Event::Parent(node.parent.clone())
            }
            Action::TraceBlock(id) => {
                asked.push(format!("trace {}", id.text()));
                Event::Traced(node.trace.clone())
            }
        };
        assert!(state.expects(&event));
        (state, action) = state.step(event);
    }
}

fn is_header_not_found(answer: Result<DebankOutPut, TraceError>) -> bool {
    matches!(answer, Err(TraceError::HeaderNotFound(id)) if id == block_id())
}

#[test]
fn api_holds_its_node() {
    assert_eq!(DebankTraceApi::new(5u32).eth, 5);
}

#[test]
fn unknown_block() {
    let (asked, answer) = run(Node { block: None, ..node() });
    assert_eq!(asked, vec!["block 0x12"]);
    assert!(is_header_not_found(answer));
}

#[test]
fn unknown_receipts() {
    let (asked, answer) = run(Node { receipts: None, ..node() });
    assert_eq!(asked, vec!["block 0x12", "receipts 0x12"]);
    assert!(is_header_not_found(answer));
}

#[test]
fn unknown_parent_is_reported_for_the_block() {
    let (asked, answer) = run(Node { parent: None, ..node() });
    assert_eq!(asked[2], format!("parent hash 0x{}", "02".repeat(32)));
    assert_eq!(asked.len(), 3);
    assert!(is_header_not_found(answer));
}

#[test]
fn block_that_cannot_be_run_again() {
    let (asked, answer) = run(Node { trace: None, ..node() });
    assert_eq!(asked[3], "trace 0x12");
    match answer {
        Err(TraceError::EvmCustom(message)) => assert_eq!(message, "cannot find block 0x12"),
        _ => panic!("an error was expected"),
    }
}

#[test]
fn first_block_of_a_chain() {
    let account = GenesisAccount {
        nonce: None,
        balance: word(6),
        code: None,
        storage: Some(vec![(hash(1), hash(1))]),
    };
    let genesis = Genesis { alloc: vec![(address(9), account)] };
    let (asked, answer) = run(Node {
        block: Some(block(0, hash(0xaa), 0)),
        genesis: genesis.clone(),
        receipts: None,
        ..node()
    });
    assert_eq!(asked, vec!["block 0x12", "genesis"]);
    let output = answer.unwrap();
    assert_eq!(output.block_file.transactions.len(), 2);
    assert_eq!(output.block_file.traces.len(), 2);
    assert!(output.block_file.events.is_empty());
    assert!(output.block_file.error_events.is_empty());
    assert!(output.block_file.error_traces.is_empty());
    assert_eq!(output.block_file.storage_contracts, vec![address(9)]);
    assert_eq!(output.block_file.block.process_start_timestamp, 99);
    let mut diff = BlockStorageDiff::from(&genesis);
    diff.hash = hash(0xaa);
    assert_eq!(output.state_diff, diff.encode());
    assert_eq!(output.validation_hash, output.block_file.validation().validation_hash);
}

#[test]
fn block_that_left_the_state_as_it_was() {
    let (asked, answer) = run(Node { parent: Some(block(17, hash(0xaa), 0)), ..node() });
    assert_eq!(asked.len(), 3);
    let output = answer.unwrap();
    assert_eq!(output.block_file.transactions.len(), 2);
    assert!(output.block_file.traces.is_empty());
    assert!(output.block_file.storage_contracts.is_empty());
    let mut diff = BlockStorageDiff::default();
    diff.hash = hash(0xaa);
    diff.parent_hash = hash(0xaa);
    assert_eq!(output.state_diff, diff.encode());
}

#[test]
fn block_that_changed_the_state() {
    let (asked, answer) = run(node());
    assert_eq!(asked.len(), 4);
    let output = answer.unwrap();
    let file = &output.block_file;
    assert_eq!(file.transactions.len(), 2);
    assert_eq!(file.transactions[1].id, format!("0x{}", "22".repeat(32)));
    assert_eq!(file.transactions[1].nonce, 0x22);
    assert_eq!(file.transactions[1].gas_price, 6);
    assert_eq!(file.traces.len(), 2);
    assert_eq!(file.traces[1].tx_id, format!("0x{}", "22".repeat(32)));
    assert_eq!(file.events.iter().map(|e| e.idx).collect::<Vec<_>>(), vec![0, 1, 2]);
    assert!(file.error_traces.is_empty() && file.error_events.is_empty());
    assert_eq!(file.storage_contracts, vec![address(7)]);
    assert_eq!(file.block.id, hash(1));
    assert_eq!(output.header.hash, hash(1));
    assert_eq!(output.header.inner.number, file.block.height);
    let (_, mut diff, _) = trace_all_block(trace());
    diff.hash = hash(0xaa);
    diff.parent_hash = hash(0xbb);
    assert_eq!(diff.new_accounts.len(), 1);
    assert_eq!(output.state_diff, diff.encode());
    assert_eq!(output.validation_hash, file.validation().validation_hash);
}

#[test]
fn what_did_not_take_effect_is_kept_apart() {
    let mut failed = trace();
    failed.transactions[0].1.nodes[0].trace.success = false;
    let (_, answer) = run(Node { trace: Some(failed), ..node() });
    let file = answer.unwrap().block_file;
    assert_eq!(file.traces.len(), 1);
    assert_eq!(file.error_traces.len(), 1);
    assert_eq!(file.error_events.len(), 2);
    assert_eq!(file.events.len(), 1);
    assert_eq!(file.events[0].idx, 0);
}

#[test]
fn receipts_must_fit() {
    let state = || TraceState::Receipts {
        block_id: block_id(),
        block: block(18, hash(0xaa), 2),
        now: 0,
    };
    assert!(state().expects(&Event::Receipts(None)));
    assert!(!state().expects(&Event::Receipts(Some(vec![receipt(1)]))));
    let mut unpriced = receipt(2);
    unpriced.gas_used = 0;
    assert!(!state().expects(&Event::Receipts(Some(vec![receipt(1), unpriced]))));
    assert!(state().expects(&Event::Receipts(Some(vec![receipt(1), receipt(2), unpriced]))));
}

#[test]
fn replies_must_be_waited_for() {
    let (state, _) = TraceState::start(block_id());
    assert!(!state.expects(&Event::Parent(None)));
    assert!(state.expects(&Event::Block(None, 0)));
    assert!(!TraceState::Done.expects(&Event::Block(None, 0)));
}

#[test]
fn traces_must_be_in_order() {
    assert!(trace().is_in_order());
    let mut broken = trace();
    broken.transactions[1].1.nodes[0].ordering.push(TraceMemberOrder::Log(9));
    assert!(!broken.is_in_order());
}

#[test]
fn block_by_hash_in_messages() {
    let id = BlockId::Hash(RpcBlockHash { block_hash: hash(3), require_canonical: Some(true) });
    let state = TraceState::Trace {
        block_id: id,
        block: block(18, hash(0xaa), 0),
        parent_root: hash(0xbb),
        now: 0,
        transactions: vec![],
    };
    match state.step(Event::Traced(None)) {
        (TraceState::Done, Action::Reply(Err(TraceError::EvmCustom(message)))) => {
            let digits = "03".repeat(32);
            assert_eq!(message, format!("cannot find block canonical hash 0x{digits}"));
        }
        _ => panic!("an error was expected"),
    }
}
