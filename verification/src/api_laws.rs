//! What holds of every request for a block.

use vstd::prelude::*;

use crate::bindings::empty_trie_root;
use crate::block::{
    block_record, gas_price_known, rpc_header, OpTransactionReceipt, RecoveredBlock,
};
use crate::block_file::{file_ids, gathered, validation_number, OutputModel};
use crate::block_id::{block_id_text, BlockId, RpcBlockHash};
use crate::call_trace::CallTraceArena;
use crate::genesis::{genesis_items, genesis_traces, genesis_transactions};
use crate::primitives::H256;
use crate::rlp::RlpEncode;
use crate::state_diff::{
    bundle_diff, bundle_storage_owners, empty_diff, genesis_diff, genesis_storage_owners,
    BlockStorageDiff, DiffModel, Genesis,
};
use crate::text::prefixed_hex;
use crate::trace_api::{
    answer_model, block_transactions, expected, genesis_output, goes_on, traced_output,
    unchanged_output, Action, Answer, BlockTrace, ErrorModel, Event, TraceError, TraceState,
};
use crate::trace_laws::{block_events, law_block_log_indices};
use crate::trace_tree::{arena_in_order, block_lists, sorted_out, transaction_records, Lists};

verus! {

/// What a node replies to a request: the block and the time, the genesis state, the receipts of
/// the block, the block before it, and the block run again, each as far as it is known.
pub struct Node {
    pub block: Option<RecoveredBlock>,
    pub now: u128,
    pub genesis: Genesis,
    pub receipts: Option<Vec<OpTransactionReceipt>>,
    pub parent: Option<RecoveredBlock>,
    pub trace: Option<BlockTrace>,
}

/// The reply of a node to what it is asked for.
pub open spec fn reply_of(node: Node, action: Action) -> Event {
    match action {
        Action::LoadBlock(_) => Event::Block(node.block, node.now),
        Action::LoadGenesis => Event::Genesis(node.genesis),
        Action::LoadReceipts(_) => Event::Receipts(node.receipts),
        Action::LoadParent(_) => Event::Parent(node.parent),
        Action::TraceBlock(_) => Event::Traced(node.trace),
        Action::Reply(_) => arbitrary(),
    }
}

/// The answer to a request for a block from what a node knows. A block that is not known, has no
/// known receipts, or stands behind a block that is not known, is answered with an error that
/// names the block that was asked for. The first block of a chain is answered from the genesis
/// state, without receipts. A block that left the state root as it was is answered without
/// running it again.
pub open spec fn answer_of(block_id: BlockId, node: Node) -> Result<OutputModel, ErrorModel> {
    let not_found = Err(ErrorModel::HeaderNotFound(block_id));
    match (node.block, node.receipts, node.parent) {
        (None, _, _) => not_found,
        (Some(block), _, _) if block.header.number == 0 => Ok(
            genesis_output(block, node.genesis, node.now),
        ),
        (_, None, _) => not_found,
        (_, _, None) => not_found,
        (Some(block), Some(receipts), Some(parent)) => {
            let root = parent.header.state_root;
            let txs = block_transactions(block, receipts@);
            if root@ == block.header.state_root@ {
                Ok(unchanged_output(block, root, node.now, txs))
            } else {
                match node.trace {
                    None => Err(
                        ErrorModel::EvmCustom("cannot find block "@ + block_id_text(block_id)),
                    ),
                    Some(trace) => Ok(traced_output(block, root, node.now, txs, trace)),
                }
            }
        },
    }
}

/// How many more replies a request may wait for.
pub open spec fn replies_left(state: TraceState) -> nat {
    match state {
        TraceState::Block { .. } => 4,
        TraceState::Receipts { .. } => 3,
        TraceState::Parent { .. } => 2,
        TraceState::Genesis { .. } => 1,
        TraceState::Trace { .. } => 1,
        TraceState::Done => 0,
    }
}

/// Whether an action asks for what a request waits for.
pub open spec fn asks_for(action: Action, state: TraceState) -> bool {
    match state {
        TraceState::Block { block_id } => action == Action::LoadBlock(block_id),
        TraceState::Receipts { block_id, .. } => action == Action::LoadReceipts(block_id),
        TraceState::Parent { .. } => action is LoadParent,
        TraceState::Genesis { .. } => action is LoadGenesis,
        TraceState::Trace { block_id, .. } => action == Action::TraceBlock(block_id),
        TraceState::Done => action is Reply,
    }
}

/// Each reply brings a request nearer to its answer, so that four replies are enough, and what
/// is done next is to ask for what the request waits for, or to answer it.
pub proof fn law_progress(state: TraceState, event: Event, next: TraceState, action: Action)
    requires
        goes_on(state, event, next, action),
    ensures
        replies_left(next) < replies_left(state),
        asks_for(action, next),
{
}

/// Whether a request went through these states and actions, with the replies of a node.
pub open spec fn is_run(
    block_id: BlockId,
    node: Node,
    states: Seq<TraceState>,
    actions: Seq<Action>,
) -> bool {
    &&& states.len() == actions.len() > 0
    &&& states[0] == TraceState::Block { block_id }
    &&& actions[0] == Action::LoadBlock(block_id)
    &&& forall|i: int|
        0 < i < states.len() ==> goes_on(
            states[i - 1],
            reply_of(node, actions[i - 1]),
            #[trigger] states[i],
            actions[i],
        )
}

/// The answer that a request comes to is the one that follows from what the node knows.
pub proof fn law_answer(
    block_id: BlockId,
    node: Node,
    states: Seq<TraceState>,
    actions: Seq<Action>,
)
    requires
        is_run(block_id, node, states, actions),
        actions.last() is Reply,
    ensures
        answer_model(actions.last()->Reply_0) == answer_of(block_id, node),
{
    let n = states.len() as int;
    assert(n > 1);
    assert(goes_on(states[0], reply_of(node, actions[0]), states[1], actions[1]));
    if n > 2 {
        assert(goes_on(states[1], reply_of(node, actions[1]), states[2], actions[2]));
        if n > 3 {
            assert(goes_on(states[2], reply_of(node, actions[2]), states[3], actions[3]));
            if n > 4 {
                assert(goes_on(states[3], reply_of(node, actions[3]), states[4], actions[4]));
                if n > 5 {
                    assert(goes_on(states[4], reply_of(node, actions[4]), states[5], actions[5]));
                }
            }
        }
    }
}

/// Whatever a request is answered with, the header and the record of the block are of the same
/// block, with the same number and the same block before it.
pub proof fn law_same_block(block_id: BlockId, node: Node)
    requires
        answer_of(block_id, node) is Ok,
    ensures
        ({
            let output = answer_of(block_id, node)->Ok_0;
            let block = node.block->0;
            &&& output.header.hash == block.hash && output.block_file.block.id == block.hash
            &&& output.header.number == output.block_file.block.height
            &&& output.header.parent_hash == output.block_file.block.parent_id
        }),
{
}

/// The events that took effect, gathered from the transactions of a block.
proof fn lemma_gathered_events(txs: Seq<(H256, CallTraceArena)>, k: int)
    requires
        0 <= k <= txs.len(),
    ensures
        gathered(block_lists(txs).take(k)).2 == block_events(txs, k),
    decreases k,
{
    let lists = block_lists(txs);
    if k > 0 {
        lemma_gathered_events(txs, k - 1);
        assert(lists.take(k).drop_last() =~= lists.take(k - 1));
        assert(lists.take(k).last() == lists[k - 1]);
    } else {
        assert(lists.take(0) =~= Seq::<Lists>::empty());
    }
}

/// The events that took effect in a block are published in order and numbered by their position.
pub proof fn law_published_events(block_id: BlockId, node: Node, j: int)
    requires
        answer_of(block_id, node) is Ok,
        0 <= j < (answer_of(block_id, node)->Ok_0).block_file.events.len(),
    ensures
        (answer_of(block_id, node)->Ok_0).block_file.events[j].idx == j,
{
    let txs = (node.trace->0).transactions@;
    let n = txs.len() as int;
    lemma_gathered_events(txs, n);
    law_block_log_indices(txs, n);
    assert(block_lists(txs).take(n) =~= block_lists(txs));
    assert(block_events(txs, n)[j].idx == j);
}

// ---------------------------------------------------------------------------------------------
// What is asked for
// ---------------------------------------------------------------------------------------------

/// A node is asked for the genesis state of the first block of a chain only, and for the receipts
/// of every other block under the name by which the block was asked for. The block before it is
/// asked for by its hash, on whatever chain it is, and the block is run again only if the two have
/// different state roots, again under its own name.
pub proof fn law_asked(state: TraceState, event: Event, next: TraceState, action: Action)
    requires
        goes_on(state, event, next, action),
    ensures
        state is Block && event->Block_0 is Some ==> {
            let block = event->Block_0->0;
            &&& block.header.number == 0 ==> action == Action::LoadGenesis
            &&& block.header.number != 0 ==> action == Action::LoadReceipts(state->Block_block_id)
        },
        state is Receipts && event->Receipts_0 is Some ==> action == Action::LoadParent(
            BlockId::Hash(
                RpcBlockHash {
                    block_hash: state->Receipts_block.header.parent_hash,
                    require_canonical: None,
                },
            ),
        ),
        state is Parent && event->Parent_0 is Some ==> {
            let own = state->Parent_block.header.state_root.bytes@;
            let before = (event->Parent_0->0).header.state_root.bytes@;
            &&& own == before ==> action is Reply
            &&& own != before ==> action == Action::TraceBlock(state->Parent_block_id)
        },
        state is Genesis ==> action is Reply,
        state is Trace ==> action is Reply,
        !(state is Done),
{
}

/// A request waits for what it asked for, and takes any reply to it but receipts that are fewer
/// than the transactions or from which a price of gas cannot be told, and frames that are not in
/// order or have too many logs to be counted.
pub proof fn law_expected(state: TraceState, event: Event)
    ensures
        state is Block ==> (expected(state, event) <==> event is Block),
        state is Genesis ==> (expected(state, event) <==> event is Genesis),
        state is Parent ==> (expected(state, event) <==> event is Parent),
        state is Done ==> !expected(state, event),
        state is Receipts && !(event is Receipts) ==> !expected(state, event),
        state is Receipts && event is Receipts && event->Receipts_0 is None ==> expected(
            state,
            event,
        ),
        state is Receipts && event is Receipts && event->Receipts_0 is Some ==> {
            let txs = state->Receipts_block.transactions@;
            let receipts = (event->Receipts_0->0)@;
            expected(state, event) <==> txs.len() <= receipts.len() && forall|i: int|
                0 <= i < txs.len() ==> {
                    let receipt = #[trigger] receipts[i];
                    receipt.l1_fee is Some ==> receipt.gas_used > 0 && receipt.l1_fee->0 as int
                        / receipt.gas_used as int + receipt.effective_gas_price <= u128::MAX
                }
        },
        state is Trace && !(event is Traced) ==> !expected(state, event),
        state is Trace && event is Traced && event->Traced_0 is None ==> expected(state, event),
        state is Trace && event is Traced && event->Traced_0 is Some ==> {
            let txs = (event->Traced_0->0).transactions@;
            expected(state, event) <==> (forall|k: int|
                0 <= k < txs.len() ==> arena_in_order((#[trigger] txs[k]).1.nodes@)) && gathered(
                block_lists(txs),
            ).2.len() <= usize::MAX
        },
{
    if state is Receipts && event is Receipts && event->Receipts_0 is Some {
        let txs = state->Receipts_block.transactions@;
        let receipts = (event->Receipts_0->0)@;
        assert forall|i: int| 0 <= i < receipts.len() implies (gas_price_known(
            #[trigger] receipts[i],
            receipts[i].l1_fee,
        ) <==> (receipts[i].l1_fee is Some ==> receipts[i].gas_used > 0 && receipts[i].l1_fee->0
            as int / receipts[i].gas_used as int + receipts[i].effective_gas_price
            <= u128::MAX)) by {}
    }
    if state is Trace && event is Traced && event->Traced_0 is Some {
        let txs = (event->Traced_0->0).transactions@;
        let n = txs.len() as int;
        lemma_gathered_events(txs, n);
        law_block_log_indices(txs, n);
        assert(block_lists(txs).take(n) =~= block_lists(txs));
    }
}

// ---------------------------------------------------------------------------------------------
// What is answered
// ---------------------------------------------------------------------------------------------

/// A request for a block that is not known, for a block but the first one of a chain whose
/// receipts are not known, or whose parent is not known, fails and names the block that was asked
/// for. A block with another state root than its parent that cannot be run again fails with a
/// message. Every other request is answered.
pub proof fn law_decisions(block_id: BlockId, node: Node)
    ensures
        ({
            let answer = answer_of(block_id, node);
            let not_found: Result<OutputModel, ErrorModel> = Err(
                ErrorModel::HeaderNotFound(block_id),
            );
            let own = (node.block->0).header;
            let before = (node.parent->0).header;
            let later = node.block is Some && own.number != 0;
            let known = node.receipts is Some && node.parent is Some;
            let moved = own.state_root.bytes@ != before.state_root.bytes@;
            &&& node.block is None ==> answer == not_found
            &&& node.block is Some && own.number == 0 ==> answer is Ok
            &&& later && !known ==> answer == not_found
            &&& later && known && !moved ==> answer is Ok
            &&& later && known && moved && node.trace is Some ==> answer is Ok
            &&& later && known && moved && node.trace is None ==> answer == Err::<
                OutputModel,
                ErrorModel,
            >(ErrorModel::EvmCustom("cannot find block "@ + block_id_text(block_id)))
        }),
{
}

/// An answer carries the header and the record of the block that was asked for, and the number
/// that its identifiers give.
pub proof fn law_answer_block(block_id: BlockId, node: Node)
    requires
        answer_of(block_id, node) is Ok,
    ensures
        ({
            let output = answer_of(block_id, node)->Ok_0;
            let block = node.block->0;
            &&& output.header == rpc_header(block)
            &&& output.block_file.block == block_record(block, node.now)
            &&& output.validation_hash == validation_number(file_ids(output.block_file))
        }),
{
}

/// An answer carries every transaction of the block at its own position, with the transaction's
/// own input, value, gas limit, caps and nonce, and what the receipt at that position says.
pub proof fn law_answer_transactions(block_id: BlockId, node: Node, i: int)
    requires
        answer_of(block_id, node) is Ok,
        (node.block->0).header.number != 0,
        0 <= i < (node.block->0).transactions@.len(),
    ensures
        ({
            let txs = (answer_of(block_id, node)->Ok_0).block_file.transactions;
            let tx = (node.block->0).transactions@[i];
            let receipt = (node.receipts->0)@[i];
            let kind = receipt.receipt;
            &&& txs.len() == (node.block->0).transactions@.len()
            &&& txs[i].input == tx.input@
            &&& txs[i].value == tx.value@
            &&& txs[i].gas_limit == tx.gas_limit
            &&& txs[i].gas_fee_cap == tx.max_fee_per_gas
            &&& tx.max_priority_fee_per_gas is Some ==> txs[i].gas_tip_cap
                == tx.max_priority_fee_per_gas->0
            &&& tx.max_priority_fee_per_gas is None ==> txs[i].gas_tip_cap == 0
            &&& tx.nonce != 0 ==> txs[i].nonce == tx.nonce
            &&& tx.nonce == 0 && kind is Deposit && kind->Deposit_0 is Some ==> txs[i].nonce
                == kind->Deposit_0->0
            &&& tx.nonce == 0 && !(kind is Deposit && kind->Deposit_0 is Some) ==> txs[i].nonce == 0
            &&& txs[i].id == prefixed_hex(receipt.transaction_hash.bytes@)
            &&& txs[i].from == receipt.from.bytes@
            &&& receipt.to is Some ==> txs[i].to == (receipt.to->0).bytes@
            &&& receipt.to is None ==> txs[i].to == Seq::new(20, |k: int| 0u8)
            &&& txs[i].gas_used == receipt.gas_used
            &&& txs[i].status == receipt.status
            &&& receipt.l1_fee is None ==> txs[i].gas_price == receipt.effective_gas_price
            &&& receipt.l1_fee is Some && receipt.gas_used > 0 ==> txs[i].gas_price
                == receipt.l1_fee->0 as int / receipt.gas_used as int + receipt.effective_gas_price
            &&& receipt.transaction_index is Some ==> txs[i].transaction_index
                == receipt.transaction_index->0
            &&& receipt.transaction_index is None ==> txs[i].transaction_index == 0
        }),
{
}

/// The records of an answer: for the first block of a chain those that stand for the genesis
/// state, for a block with the state root of its parent none but the transactions, and for every
/// other block those of its transactions, one behind the other, and the accounts whose storage it
/// touched.
pub proof fn law_answer_records(block_id: BlockId, node: Node)
    requires
        answer_of(block_id, node) is Ok,
    ensures
        ({
            let file = (answer_of(block_id, node)->Ok_0).block_file;
            let own = (node.block->0).header;
            let moved = own.state_root.bytes@ != (node.parent->0).header.state_root.bytes@;
            let alloc = node.genesis.alloc@;
            &&& own.number == 0 ==> {
                &&& file.transactions == genesis_transactions(genesis_items(alloc))
                &&& file.traces == genesis_traces(genesis_items(alloc))
                &&& file.error_traces.len() == 0
                &&& file.events.len() == 0 && file.error_events.len() == 0
                &&& file.storage_contracts == genesis_storage_owners(alloc)
            }
            &&& own.number != 0 && !moved ==> {
                &&& file.traces.len() == 0 && file.error_traces.len() == 0
                &&& file.events.len() == 0 && file.error_events.len() == 0
                &&& file.storage_contracts.len() == 0
            }
            &&& own.number != 0 && moved ==> {
                let trace = node.trace->0;
                let lists = gathered(block_lists(trace.transactions@));
                &&& file.traces == lists.0 && file.error_traces == lists.1
                &&& file.events == lists.2 && file.error_events == lists.3
                &&& file.storage_contracts == bundle_storage_owners(trace.bundle.state@)
            }
        }),
{
}

/// Whether the bytes of an answer are those of a difference.
pub open spec fn carries_diff(output: OutputModel, diff: DiffModel) -> bool {
    output.state_diff == BlockStorageDiff::item(diff)
}

/// The state difference of an answer stands between the state root of the parent, or that of the
/// state that holds nothing, and the state root of the block. It holds the genesis state, nothing,
/// or what the block changed.
pub proof fn law_answer_diff(block_id: BlockId, node: Node)
    requires
        answer_of(block_id, node) is Ok,
    ensures
        exists|diff: DiffModel|
            {
                let own = (node.block->0).header;
                let before = (node.parent->0).header.state_root.bytes@;
                let trace = node.trace->0;
                let genesis = genesis_diff(node.genesis.alloc@);
                let bundle = bundle_diff(trace.bundle.state@, trace.pre_state.code_hashes@);
                &&& #[trigger] carries_diff(answer_of(block_id, node)->Ok_0, diff)
                &&& diff.hash == own.state_root.bytes@
                &&& own.number == 0 ==> {
                    &&& diff.parent_hash == empty_trie_root()
                    &&& diff.new_accounts == genesis.new_accounts
                    &&& diff.deleted_accounts.len() == 0
                    &&& diff.storage_diffs == genesis.storage_diffs
                    &&& diff.new_codes == genesis.new_codes
                }
                &&& own.number != 0 ==> diff.parent_hash == before
                &&& own.number != 0 && own.state_root.bytes@ == before ==> {
                    &&& diff.new_accounts.len() == 0 && diff.deleted_accounts.len() == 0
                    &&& diff.storage_diffs.len() == 0 && diff.new_codes.len() == 0
                }
                &&& own.number != 0 && own.state_root.bytes@ != before ==> {
                    &&& diff.new_accounts == bundle.new_accounts
                    &&& diff.deleted_accounts == bundle.deleted_accounts
                    &&& diff.storage_diffs == bundle.storage_diffs
                    &&& diff.new_codes == bundle.new_codes
                }
            },
{
    let own = (node.block->0).header;
    let root = (node.parent->0).header.state_root;
    let trace = node.trace->0;
    let output = answer_of(block_id, node)->Ok_0;
    let diff = if own.number == 0 {
        DiffModel { hash: own.state_root@, ..genesis_diff(node.genesis.alloc@) }
    } else if root@ == own.state_root@ {
        DiffModel { hash: own.state_root@, parent_hash: root@, ..empty_diff() }
    } else {
        DiffModel {
            hash: own.state_root@,
            parent_hash: root@,
            ..bundle_diff(trace.bundle.state@, trace.pre_state.code_hashes@)
        }
    };
    assert(carries_diff(output, diff));
}

/// The lists of a block are those of its transactions, each with its own hash and frames, and with
/// its logs numbered behind all logs that took effect before it.
pub proof fn law_block_lists(txs: Seq<(H256, CallTraceArena)>, k: int)
    requires
        0 <= k < txs.len(),
    ensures
        block_lists(txs).len() == txs.len(),
        block_lists(txs)[k] == sorted_out(
            transaction_records(
                txs[k].0.bytes@,
                txs[k].1.nodes@,
                gathered(block_lists(txs).take(k)).2.len(),
            ),
        ),
{
    lemma_gathered_events(txs, k);
    law_block_log_indices(txs, k);
}

/// The content of an error is what stands in it.
pub proof fn law_error_content(error: TraceError, answer: Answer)
    ensures
        error is HeaderNotFound ==> error@ == ErrorModel::HeaderNotFound(error->HeaderNotFound_0),
        error is EvmCustom ==> error@ == ErrorModel::EvmCustom(error->EvmCustom_0@),
        answer is Ok ==> answer_model(answer) == Ok::<OutputModel, ErrorModel>((answer->Ok_0)@),
        answer is Err ==> answer_model(answer) == Err::<OutputModel, ErrorModel>((answer->Err_0)@),
{
}

} // verus!
