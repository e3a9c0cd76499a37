//! The way from a request for a block to its answer.
//!
//! What a request needs from the node is asked for step by step: [`TraceState::step`] takes the
//! state of a request and what the node replied, and returns the next state and what to do next.

use vstd::prelude::*;
use vstd::string::*;

use crate::block::{
    block_record, build_rpc_header, deposit_nonce, gas_price_known, get_deposit_nonce, get_l1_fee,
    rpc_header, transaction_record, DebankBlock, DebankTransaction, OpTransactionReceipt,
    RecoveredBlock, TransactionModel,
};
use crate::block_file::{
    output_of, plain_file, traced_file, BlockFile, DebankOutPut, FileModel, OutputModel,
};
use crate::block_id::{block_id_text, id_of_hash, BlockId};
use crate::call_trace::CallTraceArena;
use crate::genesis::{
    build_genesis_txs_and_traces, genesis_items, genesis_traces, genesis_transactions,
};
use crate::lists::{lemma_views_push, views};
use crate::primitives::{Address, H256};
use crate::state_diff::{
    bundle_diff, bundle_storage_owners, empty_diff, genesis_diff, genesis_storage_owners,
    get_storage_contracts_from_bundle, get_storage_contracts_from_genesis,
    get_storage_diffs_from_bundle, BlockStorageDiff, BundleState, DiffModel, Genesis, PreState,
};
use crate::trace_tree::{
    arena_in_order, block_lists, build_block_traces, entry_models,
    lemma_logs_before_grow, logs_before, TraceEntry,
};

verus! {

/// Answers requests for blocks with what a node knows.
#[derive(Debug)]
pub struct DebankTraceApi<Eth> {
    pub eth: Eth,
}

impl<Eth> DebankTraceApi<Eth> {
    /// Answers requests with what this node knows.
    pub fn new(eth: Eth) -> (r: Self)
        ensures
            r.eth == eth,
    {
        DebankTraceApi { eth }
    }
}

// ---------------------------------------------------------------------------------------------
// Traced blocks
// ---------------------------------------------------------------------------------------------

/// What running a block again brought to light.
#[derive(Clone, Debug)]
pub struct BlockTrace {
    /// The transactions with their frames, in the order of the block.
    pub transactions: Vec<(H256, CallTraceArena)>,
    /// The accounts that the block touched.
    pub bundle: BundleState,
    /// What is known of the state before the block.
    pub pre_state: PreState,
}

/// Whether the frames of all transactions are in order, and the logs of the block can be counted.
pub open spec fn trace_in_order(trace: BlockTrace) -> bool {
    &&& forall|k: int|
        0 <= k < trace.transactions@.len() ==> arena_in_order(
            (#[trigger] trace.transactions@[k]).1.nodes@,
        )
    &&& logs_before(trace.transactions@, trace.transactions@.len() as int) <= usize::MAX
}

impl BlockTrace {
    /// Whether the frames of all transactions are in order, and the logs of the block can be
    /// counted.
    pub fn is_in_order(&self) -> (r: bool)
        ensures
            r == trace_in_order(*self),
    {
        let ghost txs = self.transactions@;
        let mut count: usize = 0;
        let mut i: usize = 0;
        while i < self.transactions.len()
            invariant
                txs == self.transactions@,
                i <= txs.len(),
                forall|k: int| 0 <= k < i ==> arena_in_order((#[trigger] txs[k]).1.nodes@),
                count == logs_before(txs, i as int),
            decreases self.transactions.len() - i,
        {
            proof {
                lemma_logs_before_grow(txs, i as int + 1, txs.len() as int);
            }
            match self.transactions[i].1.effective_log_count() {
                Some(logs) => match count.checked_add(logs) {
                    Some(sum) => {
                        count = sum;
                    },
                    None => {
                        return false;
                    },
                },
                None => {
                    return false;
                },
            }
            i += 1;
        }
        true
    }
}

/// Builds the traces and events of a block that was run again, the changes of the state, and the
/// addresses of the accounts whose storage was touched.
pub fn trace_all_block(trace: BlockTrace) -> (r: (Vec<TraceEntry>, BlockStorageDiff, Vec<Address>))
    requires
        trace_in_order(trace),
    ensures
        entry_models(r.0@) == block_lists(trace.transactions@),
        r.1@ == bundle_diff(trace.bundle.state@, trace.pre_state.code_hashes@),
        r.2@ == bundle_storage_owners(trace.bundle.state@),
{
    let results = build_block_traces(trace.transactions);
    let change_addresses = get_storage_contracts_from_bundle(&trace.bundle);
    let storage_diff = get_storage_diffs_from_bundle(trace.bundle, &trace.pre_state);
    (results, storage_diff, change_addresses)
}

// ---------------------------------------------------------------------------------------------
// Answers
// ---------------------------------------------------------------------------------------------

/// Why a request failed.
#[derive(Clone, Debug)]
pub enum TraceError {
    /// Something of this block is not known.
    HeaderNotFound(BlockId),
    /// The block cannot be run again.
    EvmCustom(String),
}

/// The content of a [`TraceError`].
pub enum ErrorModel {
    HeaderNotFound(BlockId),
    EvmCustom(Seq<char>),
}

impl View for TraceError {
    type V = ErrorModel;

    open spec fn view(&self) -> ErrorModel {
        match *self {
            TraceError::HeaderNotFound(block_id) => ErrorModel::HeaderNotFound(block_id),
            TraceError::EvmCustom(message) => ErrorModel::EvmCustom(message@),
        }
    }
}

/// The answer to a request.
pub type Answer = Result<DebankOutPut, TraceError>;

/// The content of an answer.
pub open spec fn answer_model(answer: Answer) -> Result<OutputModel, ErrorModel> {
    match answer {
        Ok(output) => Ok(output@),
        Err(error) => Err(error@),
    }
}

/// The answer for the first block of a chain: the genesis state stands in it as transactions,
/// traces and as a difference from the state that holds nothing.
pub open spec fn genesis_output(block: RecoveredBlock, genesis: Genesis, now: u128) -> OutputModel {
    let alloc = genesis.alloc@;
    let file = FileModel {
        traces: genesis_traces(genesis_items(alloc)),
        storage_contracts: genesis_storage_owners(alloc),
        ..plain_file(block_record(block, now), genesis_transactions(genesis_items(alloc)))
    };
    let diff = DiffModel { hash: block.header.state_root@, ..genesis_diff(alloc) };
    output_of(file, rpc_header(block), diff)
}

/// The records of the transactions of a block with their receipts.
pub open spec fn block_transactions(
    block: RecoveredBlock,
    receipts: Seq<OpTransactionReceipt>,
) -> Seq<TransactionModel> {
    Seq::new(
        block.transactions@.len(),
        |i: int|
            transaction_record(
                receipts[i],
                block.transactions@[i],
                deposit_nonce(receipts[i].receipt),
                receipts[i].l1_fee,
            ),
    )
}

/// Whether there is a receipt for each transaction of a block, and each of these receipts tells
/// the price of gas.
pub open spec fn receipts_fit(block: RecoveredBlock, receipts: Seq<OpTransactionReceipt>) -> bool {
    &&& block.transactions@.len() <= receipts.len()
    &&& forall|i: int|
        0 <= i < block.transactions@.len() ==> gas_price_known(
            #[trigger] receipts[i],
            receipts[i].l1_fee,
        )
}

/// The answer for a block that left the state as it was.
pub open spec fn unchanged_output(
    block: RecoveredBlock,
    parent_root: H256,
    now: u128,
    transactions: Seq<TransactionModel>,
) -> OutputModel {
    let diff = DiffModel {
        hash: block.header.state_root@,
        parent_hash: parent_root@,
        ..empty_diff()
    };
    output_of(plain_file(block_record(block, now), transactions), rpc_header(block), diff)
}

/// The answer for a block that changed the state and was run again.
pub open spec fn traced_output(
    block: RecoveredBlock,
    parent_root: H256,
    now: u128,
    transactions: Seq<TransactionModel>,
    trace: BlockTrace,
) -> OutputModel {
    let file = traced_file(
        block_record(block, now),
        transactions,
        block_lists(trace.transactions@),
        bundle_storage_owners(trace.bundle.state@),
    );
    let diff = DiffModel {
        hash: block.header.state_root@,
        parent_hash: parent_root@,
        ..bundle_diff(trace.bundle.state@, trace.pre_state.code_hashes@)
    };
    output_of(file, rpc_header(block), diff)
}

/// Builds the records of the transactions of a block with their receipts.
fn build_transactions(block: &RecoveredBlock, receipts: &Vec<OpTransactionReceipt>) -> (r:
    Vec<DebankTransaction>)
    requires
        receipts_fit(*block, receipts@),
    ensures
        views(r@) == block_transactions(*block, receipts@),
{
    let mut txs: Vec<DebankTransaction> = Vec::with_capacity(block.transactions.len());
    let mut i: usize = 0;
    while i < block.transactions.len()
        invariant
            i <= block.transactions@.len(),
            receipts_fit(*block, receipts@),
            views(txs@) =~= block_transactions(*block, receipts@).take(i as int),
        decreases block.transactions.len() - i,
    {
        let receipt = &receipts[i];
        assert(receipts@[i as int] == receipt);
        let tx = DebankTransaction::from(
            (receipt, &block.transactions[i], get_deposit_nonce(receipt), get_l1_fee(receipt)),
        );
        proof {
            lemma_views_push(txs@, tx);
        }
        txs.push(tx);
        i += 1;
    }
    txs
}

/// Builds the answer for the first block of a chain.
fn build_genesis_output(block: RecoveredBlock, genesis: &Genesis, now: u128) -> (r: DebankOutPut)
    ensures
        r@ == genesis_output(block, *genesis, now),
{
    let debank_block = DebankBlock::from(&block, now);
    let mut state_diff = BlockStorageDiff::from(genesis);
    state_diff.hash = block.header.state_root;
    let (transactions, traces) = build_genesis_txs_and_traces(genesis);
    let mut block_file = BlockFile::new(debank_block, transactions);
    block_file.traces = traces;
    block_file.storage_contracts = get_storage_contracts_from_genesis(genesis);
    DebankOutPut::new(block_file, build_rpc_header(&block), state_diff)
}

/// Builds the answer for a block that left the state as it was.
fn build_unchanged_output(
    block: RecoveredBlock,
    parent_root: H256,
    now: u128,
    transactions: Vec<DebankTransaction>,
) -> (r: DebankOutPut)
    ensures
        r@ == unchanged_output(block, parent_root, now, views(transactions@)),
{
    let block_file = BlockFile::new(DebankBlock::from(&block, now), transactions);
    let mut state_diff = BlockStorageDiff::default();
    state_diff.hash = block.header.state_root;
    state_diff.parent_hash = parent_root;
    DebankOutPut::new(block_file, build_rpc_header(&block), state_diff)
}

/// Builds the answer for a block that changed the state and was run again.
fn build_traced_output(
    block: RecoveredBlock,
    parent_root: H256,
    now: u128,
    transactions: Vec<DebankTransaction>,
    trace: BlockTrace,
) -> (r: DebankOutPut)
    requires
        trace_in_order(trace),
    ensures
        r@ == traced_output(block, parent_root, now, views(transactions@), trace),
{
    let (entries, mut state_diff, change_addresses) = trace_all_block(trace);
    state_diff.hash = block.header.state_root;
    state_diff.parent_hash = parent_root;
    let block_file = BlockFile::traced(
        DebankBlock::from(&block, now),
        transactions,
        entries,
        change_addresses,
    );
    DebankOutPut::new(block_file, build_rpc_header(&block), state_diff)
}

// ---------------------------------------------------------------------------------------------
// Steps
// ---------------------------------------------------------------------------------------------

/// What a request waits for.
#[derive(Debug)]
pub enum TraceState {
    /// The block.
    Block { block_id: BlockId },
    /// The genesis state, for the first block of a chain.
    Genesis { block: RecoveredBlock, now: u128 },
    /// The receipts of the block.
    Receipts { block_id: BlockId, block: RecoveredBlock, now: u128 },
    /// The block before the block.
    Parent {
        block_id: BlockId,
        block: RecoveredBlock,
        now: u128,
        transactions: Vec<DebankTransaction>,
    },
    /// The block, run again.
    Trace {
        block_id: BlockId,
        block: RecoveredBlock,
        parent_root: H256,
        now: u128,
        transactions: Vec<DebankTransaction>,
    },
    /// Nothing: the request is answered.
    Done,
}

/// What to do next for a request.
#[derive(Debug)]
pub enum Action {
    LoadBlock(BlockId),
    LoadGenesis,
    LoadReceipts(BlockId),
    LoadParent(BlockId),
    TraceBlock(BlockId),
    Reply(Answer),
}

/// What the node replied.
#[derive(Debug)]
pub enum Event {
    /// The block, if it is known, and the time in milliseconds since 1970.
    Block(Option<RecoveredBlock>, u128),
    Genesis(Genesis),
    /// The receipts, if they are known.
    Receipts(Option<Vec<OpTransactionReceipt>>),
    /// The block before the block, if it is known.
    Parent(Option<RecoveredBlock>),
    /// The block, run again, if it is known.
    Traced(Option<BlockTrace>),
}

/// Whether a reply is what a request waits for, and holds what an answer can be made of.
pub open spec fn expected(state: TraceState, event: Event) -> bool {
    match (state, event) {
        (TraceState::Block { .. }, Event::Block(_, _)) => true,
        (TraceState::Genesis { .. }, Event::Genesis(_)) => true,
        (TraceState::Receipts { block, .. }, Event::Receipts(receipts)) => match receipts {
            Some(receipts) => receipts_fit(block, receipts@),
            None => true,
        },
        (TraceState::Parent { .. }, Event::Parent(_)) => true,
        (TraceState::Trace { .. }, Event::Traced(trace)) => match trace {
            Some(trace) => trace_in_order(trace),
            None => true,
        },
        _ => false,
    }
}

/// Whether a request is answered, with an answer of this content.
pub open spec fn replies(
    state: TraceState,
    action: Action,
    content: Result<OutputModel, ErrorModel>,
) -> bool {
    &&& state is Done
    &&& action is Reply
    &&& answer_model(action->Reply_0) == content
}

/// Whether a request goes on in this way on a reply that it waits for.
pub open spec fn goes_on(
    state: TraceState,
    event: Event,
    next: TraceState,
    action: Action,
) -> bool {
    match (state, event) {
        (TraceState::Block { block_id }, Event::Block(reply, now)) => match reply {
            None => replies(next, action, Err(ErrorModel::HeaderNotFound(block_id))),
            Some(block) => if block.header.number == 0 {
                &&& next == TraceState::Genesis { block, now }
                &&& action == Action::LoadGenesis
            } else {
                &&& next == TraceState::Receipts { block_id, block, now }
                &&& action == Action::LoadReceipts(block_id)
            },
        },
        (TraceState::Genesis { block, now }, Event::Genesis(genesis)) => replies(
            next,
            action,
            Ok(genesis_output(block, genesis, now)),
        ),
        (TraceState::Receipts { block_id, block, now }, Event::Receipts(reply)) => match reply {
            None => replies(next, action, Err(ErrorModel::HeaderNotFound(block_id))),
            Some(receipts) => {
                &&& next is Parent
                &&& next->Parent_block_id == block_id
                &&& next->Parent_block == block
                &&& next->Parent_now == now
                &&& views(next->Parent_transactions@) == block_transactions(block, receipts@)
                &&& action == Action::LoadParent(id_of_hash(block.header.parent_hash))
            },
        },
        (TraceState::Parent { block_id, block, now, transactions }, Event::Parent(reply)) =>
        match reply {
            None => replies(next, action, Err(ErrorModel::HeaderNotFound(block_id))),
            Some(parent) => {
                let parent_root = parent.header.state_root;
                if parent_root@ == block.header.state_root@ {
                    replies(
                        next,
                        action,
                        Ok(unchanged_output(block, parent_root, now, views(transactions@))),
                    )
                } else {
                    &&& next == TraceState::Trace {
                        block_id,
                        block,
                        parent_root,
                        now,
                        transactions,
                    }
                    &&& action == Action::TraceBlock(block_id)
                }
            },
        },
        (
            TraceState::Trace { block_id, block, parent_root, now, transactions },
            Event::Traced(reply),
        ) => match reply {
            None => replies(
                next,
                action,
                Err(ErrorModel::EvmCustom("cannot find block "@ + block_id_text(block_id))),
            ),
            Some(trace) => replies(
                next,
                action,
                Ok(traced_output(block, parent_root, now, views(transactions@), trace)),
            ),
        },
        _ => false,
    }
}

/// A failed request for a block of which something is not known.
fn header_not_found(block_id: BlockId) -> (r: (TraceState, Action))
    ensures
        replies(r.0, r.1, Err(ErrorModel::HeaderNotFound(block_id))),
{
    (TraceState::Done, Action::Reply(Err(TraceError::HeaderNotFound(block_id))))
}

/// An answered request.
fn reply(output: DebankOutPut) -> (r: (TraceState, Action))
    ensures
        replies(r.0, r.1, Ok(output@)),
{
    (TraceState::Done, Action::Reply(Ok(output)))
}

impl TraceState {
    /// Begins a request for a block.
    pub fn start(block_id: BlockId) -> (r: (TraceState, Action))
        ensures
            r.0 == (TraceState::Block { block_id }),
            r.1 == Action::LoadBlock(block_id),
    {
        (TraceState::Block { block_id }, Action::LoadBlock(block_id))
    }

    /// Whether a reply is what this request waits for, and holds what an answer can be made of.
    pub fn expects(&self, event: &Event) -> (r: bool)
        ensures
            r == expected(*self, *event),
    {
        match (self, event) {
            (TraceState::Block { .. }, Event::Block(_, _)) => true,
            (TraceState::Genesis { .. }, Event::Genesis(_)) => true,
            (TraceState::Receipts { block, .. }, Event::Receipts(receipts)) => match receipts {
                Some(receipts) => check_receipts(block, receipts),
                None => true,
            },
            (TraceState::Parent { .. }, Event::Parent(_)) => true,
            (TraceState::Trace { .. }, Event::Traced(trace)) => match trace {
                Some(trace) => trace.is_in_order(),
                None => true,
            },
            _ => false,
        }
    }

    /// Takes a reply of the node, and returns how the request goes on and what to do next.
    pub fn step(self, event: Event) -> (r: (TraceState, Action))
        requires
            expected(self, event),
        ensures
            goes_on(self, event, r.0, r.1),
    {
        match (self, event) {
            (TraceState::Block { block_id }, Event::Block(block, now)) => match block {
                None => header_not_found(block_id),
                Some(block) => if block.header.number == 0 {
                    (TraceState::Genesis { block, now }, Action::LoadGenesis)
                } else {
                    (
                        TraceState::Receipts { block_id, block, now },
                        Action::LoadReceipts(block_id),
                    )
                },
            },
            (TraceState::Genesis { block, now }, Event::Genesis(genesis)) => reply(
                build_genesis_output(block, &genesis, now),
            ),
            (TraceState::Receipts { block_id, block, now }, Event::Receipts(receipts)) =>
            match receipts {
                None => header_not_found(block_id),
                Some(receipts) => {
                    let transactions = build_transactions(&block, &receipts);
                    let parent_id = BlockId::from(block.header.parent_hash);
                    (
                        TraceState::Parent { block_id, block, now, transactions },
                        Action::LoadParent(parent_id),
                    )
                },
            },
            (TraceState::Parent { block_id, block, now, transactions }, Event::Parent(parent)) =>
            match parent {
                None => header_not_found(block_id),
                Some(parent) => {
                    let parent_root = parent.header.state_root;
                    if parent_root.same_as(&block.header.state_root) {
                        reply(build_unchanged_output(block, parent_root, now, transactions))
                    } else {
                        (
                            TraceState::Trace { block_id, block, parent_root, now, transactions },
                            Action::TraceBlock(block_id),
                        )
                    }
                },
            },
            (
                TraceState::Trace { block_id, block, parent_root, now, transactions },
                Event::Traced(trace),
            ) => match trace {
                None => {
                    let mut message = "cannot find block ".to_owned();
                    message.append(block_id.text().as_str());
                    (TraceState::Done, Action::Reply(Err(TraceError::EvmCustom(message))))
                },
                Some(trace) => reply(
                    build_traced_output(block, parent_root, now, transactions, trace),
                ),
            },
            _ => vstd::pervasive::unreached(),
        }
    }
}

/// Whether there is a receipt for each transaction of a block, and each of these receipts tells
/// the price of gas.
fn check_receipts(block: &RecoveredBlock, receipts: &Vec<OpTransactionReceipt>) -> (r: bool)
    ensures
        r == receipts_fit(*block, receipts@),
{
    if block.transactions.len() > receipts.len() {
        return false;
    }
    let mut i: usize = 0;
    while i < block.transactions.len()
        invariant
            i <= block.transactions@.len() <= receipts@.len(),
            forall|k: int|
                0 <= k < i ==> gas_price_known(#[trigger] receipts@[k], receipts@[k].l1_fee),
        decreases block.transactions.len() - i,
    {
        if !receipts[i].has_gas_price() {
            assert(!gas_price_known(receipts@[i as int], receipts@[i as int].l1_fee));
            return false;
        }
        i += 1;
    }
    true
}

} // verus!
