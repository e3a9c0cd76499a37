//! From the frames of a transaction to its trace and event records.

use vstd::prelude::*;

use crate::bindings::hash_text;
use crate::call_trace::{
    destroys_itself, execution_account, CallTraceArena, CallTraceNode, TraceMemberOrder,
};
use crate::lists::views;
use crate::primitives::{address_or_zero, word_or_zero, Address, H256, U256};
use crate::records::{
    copy_event, copy_trace, empty_trace, event_of_log, event_source, is_id, record_id,
    trace_of_node, trace_source, writes_storage, DebankEvent, DebankID, DebankTrace, EventModel,
    TraceModel,
};
use crate::published_laws::lemma_one_outermost;
use crate::text::prefixed_hex;
use crate::trace_laws::law_frame_records;

verus! {

// ---------------------------------------------------------------------------------------------
// The frames
// ---------------------------------------------------------------------------------------------

/// Whether the frame at `at` and the frames below it are in order: every index in them points
/// at something, the destruction of an account can be counted as one more child, and no way down
/// is longer than `depth` frames. A way down that is longer than
/// there are frames would come back to a frame that it left.
pub open spec fn frames_in_order(nodes: Seq<CallTraceNode>, at: int, depth: nat) -> bool
    decreases depth,
{
    &&& depth > 0
    &&& 0 <= at < nodes.len()
    &&& destroys_itself(nodes[at]) ==> nodes[at].children@.len() < usize::MAX
    &&& forall|k: int|
        0 <= k < nodes[at].ordering@.len() ==> match #[trigger] nodes[at].ordering@[k] {
            TraceMemberOrder::Call(c) => c < nodes[at].children@.len() && frames_in_order(
                nodes,
                nodes[at].children@[c as int] as int,
                (depth - 1) as nat,
            ),
            TraceMemberOrder::Log(l) => l < nodes[at].logs@.len(),
            TraceMemberOrder::Step(_) => true,
        }
}

/// How many logs of the frame at `at` and of the frames below it take effect, if the frame that
/// entered it succeeded or not.
pub open spec fn effective_logs(
    nodes: Seq<CallTraceNode>,
    at: int,
    depth: nat,
    parent_success: bool,
) -> nat
    decreases depth, 1int, 0int,
{
    if depth == 0 {
        0
    } else {
        effective_member_logs(nodes, at, depth, parent_success, nodes[at].ordering@.len() as int)
    }
}

/// [`effective_logs`], for the first `k` things that happened in the frame.
pub open spec fn effective_member_logs(
    nodes: Seq<CallTraceNode>,
    at: int,
    depth: nat,
    parent_success: bool,
    k: int,
) -> nat
    decreases depth, 0int, k,
{
    if k <= 0 || depth == 0 {
        0
    } else {
        let success = nodes[at].trace.success && parent_success;
        let before = effective_member_logs(nodes, at, depth, parent_success, k - 1);
        match nodes[at].ordering@[k - 1] {
            TraceMemberOrder::Call(c) => before + effective_logs(
                nodes,
                nodes[at].children@[c as int] as int,
                (depth - 1) as nat,
                success,
            ),
            TraceMemberOrder::Log(_) => before + if success { 1nat } else { 0 },
            TraceMemberOrder::Step(_) => before,
        }
    }
}

/// Whether the frame at `at` wrote storage, or a frame below it did, on a way down on which
/// every frame succeeded.
pub open spec fn changes_storage(nodes: Seq<CallTraceNode>, at: int, depth: nat) -> bool
    decreases depth,
{
    ||| writes_storage(nodes[at])
    ||| depth > 0 && exists|k: int|
        0 <= k < nodes[at].ordering@.len() && match #[trigger] nodes[at].ordering@[k] {
            TraceMemberOrder::Call(c) => {
                let child = nodes[at].children@[c as int] as int;
                nodes[child].trace.success && changes_storage(nodes, child, (depth - 1) as nat)
            },
            _ => false,
        }
}

/// Whether one of the first `k` things that happened in a frame is a frame that succeeded and
/// changed storage.
pub open spec fn member_changes_storage(
    nodes: Seq<CallTraceNode>,
    at: int,
    depth: nat,
    k: int,
) -> bool {
    exists|j: int|
        0 <= j < k && match #[trigger] nodes[at].ordering@[j] {
            TraceMemberOrder::Call(c) => {
                let child = nodes[at].children@[c as int] as int;
                nodes[child].trace.success && changes_storage(nodes, child, (depth - 1) as nat)
            },
            _ => false,
        }
}

/// How many of the first `k` things that happened in a frame are frames or logs.
pub open spec fn member_count(ordering: Seq<TraceMemberOrder>, k: int) -> nat
    decreases k,
{
    if k <= 0 {
        0
    } else {
        member_count(ordering, k - 1) + if ordering[k - 1] is Step { 0nat } else { 1 }
    }
}

/// The position among the children of the last frame in the first `k` things that happened in a
/// frame.
pub open spec fn last_call(ordering: Seq<TraceMemberOrder>, k: int) -> Option<usize>
    decreases k,
{
    if k <= 0 {
        None
    } else {
        match ordering[k - 1] {
            TraceMemberOrder::Call(c) => Some(c),
            _ => last_call(ordering, k - 1),
        }
    }
}

// ---------------------------------------------------------------------------------------------
// The records
// ---------------------------------------------------------------------------------------------

/// One record of a transaction, with whether the frame that it belongs to took effect.
pub enum Record {
    Trace(TraceModel, bool),
    Event(EventModel, bool),
}

/// Where a frame stands: in which transaction, under which record, at which position, on which
/// way down, below a frame that took effect or not, and with how many effective logs before it.
pub struct Place {
    pub tx_id: Seq<char>,
    pub parent_trace_id: Seq<char>,
    pub pos: nat,
    pub trace_address: Seq<usize>,
    pub parent_success: bool,
    pub log_index: nat,
}

/// The trace of a frame at its place, with its identifier.
pub open spec fn frame_trace(
    nodes: Seq<CallTraceNode>,
    at: int,
    depth: nat,
    place: Place,
) -> TraceModel {
    let placed = TraceModel {
        tx_id: place.tx_id,
        parent_trace_id: place.parent_trace_id,
        pos_in_parent_trace: place.pos,
        trace_address: place.trace_address,
        storage_change: changes_storage(nodes, at, depth),
        subtraces: nodes[at].children@.len() + if destroys_itself(nodes[at]) { 1nat } else { 0 },
        ..trace_of_node(nodes[at])
    };
    TraceModel { id: record_id(trace_source(placed)), ..placed }
}

/// Whether a frame took effect: it and every frame above it succeeded.
pub open spec fn frame_success(nodes: Seq<CallTraceNode>, at: int, place: Place) -> bool {
    nodes[at].trace.success && place.parent_success
}

/// The event of a log of a frame, behind `k` other things that happened in the frame.
pub open spec fn log_event(
    nodes: Seq<CallTraceNode>,
    at: int,
    frame_id: Seq<char>,
    log: int,
    k: int,
    log_index: nat,
) -> EventModel {
    let placed = EventModel {
        contract_id: execution_account(nodes[at])@,
        parent_trace_id: frame_id,
        pos_in_parent_trace: member_count(nodes[at].ordering@, k),
        idx: log_index,
        ..event_of_log(nodes[at].logs@[log])
    };
    EventModel { id: record_id(event_source(placed)), ..placed }
}

/// The trace for the destruction of an account, which stands behind everything else that
/// happened in the frame. It is numbered behind the last frame that this frame entered.
pub open spec fn destruction_trace(
    nodes: Seq<CallTraceNode>,
    at: int,
    place: Place,
    frame_id: Seq<char>,
) -> TraceModel {
    let node = nodes[at];
    let k = node.ordering@.len() as int;
    let placed = TraceModel {
        from_addr: address_or_zero(node.trace.selfdestruct_address),
        to_addr: address_or_zero(node.trace.selfdestruct_refund_target),
        value: word_or_zero(node.trace.selfdestruct_transferred_value),
        trace_address: match last_call(node.ordering@, k) {
            Some(c) => place.trace_address.push((c + 1) as usize),
            None => Seq::empty(),
        },
        parent_trace_id: frame_id,
        pos_in_parent_trace: member_count(node.ordering@, k),
        tx_id: place.tx_id,
        call_create_type: "suicide"@,
        ..empty_trace()
    };
    TraceModel { id: record_id(trace_source(placed)), ..placed }
}

/// The number of events in a list of records that took effect.
pub open spec fn success_events(records: Seq<Record>) -> nat
    decreases records.len(),
{
    if records.len() == 0 {
        0
    } else {
        success_events(records.drop_last()) + match records.last() {
            Record::Event(_, true) => 1nat,
            _ => 0,
        }
    }
}

/// The records of a frame: first its own trace, then those of everything that happened in it,
/// in order, and last the destruction of its account.
pub open spec fn frame_records(
    nodes: Seq<CallTraceNode>,
    at: int,
    depth: nat,
    place: Place,
) -> Seq<Record>
    decreases depth, 1int, 0int,
{
    if depth == 0 {
        Seq::empty()
    } else {
        let success = frame_success(nodes, at, place);
        let trace = frame_trace(nodes, at, depth, place);
        let members = member_records(nodes, at, depth, place, nodes[at].ordering@.len() as int);
        let destruction = if destroys_itself(nodes[at]) {
            seq![Record::Trace(destruction_trace(nodes, at, place, trace.id), success)]
        } else {
            Seq::empty()
        };
        seq![Record::Trace(trace, success)] + members + destruction
    }
}

/// The place of a frame that is the last of the first `k` things that happened in another one.
pub open spec fn member_place(
    nodes: Seq<CallTraceNode>,
    at: int,
    depth: nat,
    place: Place,
    k: int,
    child: usize,
    before: Seq<Record>,
) -> Place {
    Place {
        tx_id: place.tx_id,
        parent_trace_id: frame_trace(nodes, at, depth, place).id,
        pos: member_count(nodes[at].ordering@, k - 1),
        trace_address: place.trace_address.push(child),
        parent_success: frame_success(nodes, at, place),
        log_index: place.log_index + success_events(before),
    }
}

/// The records of the first `k` things that happened in a frame.
pub open spec fn member_records(
    nodes: Seq<CallTraceNode>,
    at: int,
    depth: nat,
    place: Place,
    k: int,
) -> Seq<Record>
    decreases depth, 0int, k,
{
    if k <= 0 || depth == 0 {
        Seq::empty()
    } else {
        let before = member_records(nodes, at, depth, place, k - 1);
        match nodes[at].ordering@[k - 1] {
            TraceMemberOrder::Call(c) => before + frame_records(
                nodes,
                nodes[at].children@[c as int] as int,
                (depth - 1) as nat,
                member_place(nodes, at, depth, place, k, c, before),
            ),
            TraceMemberOrder::Log(l) => before.push(
                Record::Event(
                    log_event(
                        nodes,
                        at,
                        frame_trace(nodes, at, depth, place).id,
                        l as int,
                        k - 1,
                        place.log_index + success_events(before),
                    ),
                    frame_success(nodes, at, place),
                ),
            ),
            TraceMemberOrder::Step(_) => before,
        }
    }
}

// ---------------------------------------------------------------------------------------------
// The tree that is built of them
// ---------------------------------------------------------------------------------------------

/// What happened in a frame.
pub enum DebankTraceOrLog {
    Trace(DebankTraceNode),
    Log(DebankEvent),
}

/// The trace of a frame with everything that happened in it.
pub struct DebankTraceNode {
    pub trace: DebankTrace,
    pub children: Vec<DebankTraceOrLog>,
    pub success: bool,
}

/// The records of a tree, whose root has this trace: first the root, then everything in it, in
/// order.
pub open spec fn tree_records(
    trace: TraceModel,
    children: Seq<DebankTraceOrLog>,
    success: bool,
) -> Seq<Record>
    decreases children, 1int,
{
    seq![Record::Trace(trace, success)] + item_records(children, trace.id, success)
}

/// The records of what happened in a frame with this identifier. The traces are put under that
/// frame.
pub open spec fn item_records(
    items: Seq<DebankTraceOrLog>,
    frame_id: Seq<char>,
    success: bool,
) -> Seq<Record>
    decreases items, 0int,
{
    if items.len() == 0 {
        Seq::empty()
    } else {
        item_records(items.drop_last(), frame_id, success) + match items.last() {
            DebankTraceOrLog::Trace(node) => tree_records(
                TraceModel { parent_trace_id: frame_id, ..node.trace@ },
                node.children@,
                node.success,
            ),
            DebankTraceOrLog::Log(event) => seq![Record::Event(event@, success)],
        }
    }
}

/// The position that a member of a frame carries.
pub open spec fn item_position(item: DebankTraceOrLog) -> nat {
    match item {
        DebankTraceOrLog::Trace(node) => node.trace@.pos_in_parent_trace,
        DebankTraceOrLog::Log(event) => event@.pos_in_parent_trace,
    }
}

/// The identifier of the trace that a member of a frame carries as the one above it.
pub open spec fn item_parent(item: DebankTraceOrLog) -> Seq<char> {
    match item {
        DebankTraceOrLog::Trace(node) => node.trace@.parent_trace_id,
        DebankTraceOrLog::Log(event) => event@.parent_trace_id,
    }
}

/// Whether every member of a frame carries its position and the identifier of the frame.
pub open spec fn items_placed(items: Seq<DebankTraceOrLog>, frame_id: Seq<char>) -> bool {
    forall|j: int|
        0 <= j < items.len() ==> item_position(#[trigger] items[j]) == j && item_parent(items[j])
            == frame_id
}

/// Whether a tree is that of the frame at `at`: its root is the trace of the frame, its members
/// are the frames and logs of the frame in their order, and the destruction of the account
/// behind them.
pub open spec fn is_tree_of(
    node: DebankTraceNode,
    nodes: Seq<CallTraceNode>,
    at: int,
    depth: nat,
    place: Place,
) -> bool
    decreases depth, 1int,
{
    let ordering = nodes[at].ordering@;
    let count = member_count(ordering, ordering.len() as int);
    &&& depth > 0
    &&& node.trace@ == frame_trace(nodes, at, depth, place)
    &&& node.success == frame_success(nodes, at, place)
    &&& node.children@.len() == count + if destroys_itself(nodes[at]) { 1nat } else { 0 }
    &&& forall|k: int|
        #![trigger ordering[k]]
        0 <= k < ordering.len() ==> is_member_of(
            node.children@,
            nodes,
            at,
            depth,
            place,
            k,
        )
    &&& destroys_itself(nodes[at]) ==> is_destruction_of(
        node.children@[count as int],
        nodes,
        at,
        depth,
        place,
    )
}

/// Whether the thing at `k` that happened in a frame stands among the members of its tree: a
/// frame with its own tree, a log with its event, and a step not at all.
pub open spec fn is_member_of(
    items: Seq<DebankTraceOrLog>,
    nodes: Seq<CallTraceNode>,
    at: int,
    depth: nat,
    place: Place,
    k: int,
) -> bool
    decreases depth, 0int,
{
    let ordering = nodes[at].ordering@;
    let before = member_records(nodes, at, depth, place, k);
    let item = items[member_count(ordering, k) as int];
    match ordering[k] {
        TraceMemberOrder::Call(c) => {
            &&& depth > 0
            &&& item is Trace
            &&& is_tree_of(
                item->Trace_0,
                nodes,
                nodes[at].children@[c as int] as int,
                (depth - 1) as nat,
                member_place(nodes, at, depth, place, k + 1, c, before),
            )
        },
        TraceMemberOrder::Log(l) => {
            &&& item is Log
            &&& item->Log_0@ == log_event(
                nodes,
                at,
                frame_trace(nodes, at, depth, place).id,
                l as int,
                k,
                place.log_index + success_events(before),
            )
        },
        TraceMemberOrder::Step(_) => true,
    }
}

/// Whether a member of a tree stands for the destruction of the account of its frame.
pub open spec fn is_destruction_of(
    item: DebankTraceOrLog,
    nodes: Seq<CallTraceNode>,
    at: int,
    depth: nat,
    place: Place,
) -> bool {
    &&& item is Trace
    &&& item->Trace_0.trace@ == destruction_trace(
        nodes,
        at,
        place,
        frame_trace(nodes, at, depth, place).id,
    )
    &&& item->Trace_0.success == frame_success(nodes, at, place)
    &&& item->Trace_0.children@.len() == 0
}

/// More members do not move those that stand already.
proof fn lemma_members_kept(
    items: Seq<DebankTraceOrLog>,
    more: Seq<DebankTraceOrLog>,
    nodes: Seq<CallTraceNode>,
    at: int,
    depth: nat,
    place: Place,
    k: int,
)
    requires
        items.len() == member_count(nodes[at].ordering@, k),
        items.len() <= more.len(),
        more.take(items.len() as int) == items,
        forall|j: int| 0 <= j < k ==> #[trigger] is_member_of(items, nodes, at, depth, place, j),
    ensures
        forall|j: int| 0 <= j < k ==> #[trigger] is_member_of(more, nodes, at, depth, place, j),
{
    let ordering = nodes[at].ordering@;
    assert forall|j: int| 0 <= j < k implies #[trigger] is_member_of(
        more,
        nodes,
        at,
        depth,
        place,
        j,
    ) by {
        assert(is_member_of(items, nodes, at, depth, place, j));
        if !(ordering[j] is Step) {
            lemma_member_count_grow(ordering, j + 1, k);
            let i = member_count(ordering, j) as int;
            assert(more.take(items.len() as int)[i] == more[i]);
        }
    }
}

proof fn lemma_member_count_grow(ordering: Seq<TraceMemberOrder>, j: int, k: int)
    requires
        j <= k,
    ensures
        member_count(ordering, j) <= member_count(ordering, k),
    decreases k - j,
{
    if j < k {
        lemma_member_count_grow(ordering, j, k - 1);
    }
}

/// The identifier of a record.
pub open spec fn id_of(record: Record) -> Seq<char> {
    match record {
        Record::Trace(trace, _) => trace.id,
        Record::Event(event, _) => event.id,
    }
}

/// Whether the identifiers of all records have the form of an identifier.
pub open spec fn ids_formed(records: Seq<Record>) -> bool {
    forall|m: int| 0 <= m < records.len() ==> is_id(id_of(#[trigger] records[m]))
}

proof fn lemma_ids_add(a: Seq<Record>, b: Seq<Record>)
    requires
        ids_formed(a),
        ids_formed(b),
    ensures
        ids_formed(a + b),
{
    assert forall|m: int| 0 <= m < (a + b).len() implies is_id(id_of(#[trigger] (a + b)[m])) by {
        if m < a.len() {
            assert(a[m] == (a + b)[m]);
        } else {
            assert(b[m - a.len()] == (a + b)[m]);
        }
    }
}

/// The events of two lists of records, one behind the other, add up.
pub proof fn lemma_success_events_add(a: Seq<Record>, b: Seq<Record>)
    ensures
        success_events(a + b) == success_events(a) + success_events(b),
    decreases b.len(),
{
    if b.len() == 0 {
        assert(a + b =~= a);
    } else {
        lemma_success_events_add(a, b.drop_last());
        assert((a + b).drop_last() =~= a + b.drop_last());
        assert((a + b).last() == b.last());
    }
}

/// One record more.
pub proof fn lemma_success_events_push(a: Seq<Record>, r: Record)
    ensures
        success_events(a.push(r)) == success_events(a) + match r {
            Record::Event(_, true) => 1nat,
            _ => 0,
        },
{
    assert(a.push(r).drop_last() =~= a);
}

/// The records of a frame hold as many effective events as the frame has effective logs.
proof fn lemma_frame_events(nodes: Seq<CallTraceNode>, at: int, depth: nat, place: Place)
    ensures
        success_events(frame_records(nodes, at, depth, place)) == effective_logs(
            nodes,
            at,
            depth,
            place.parent_success,
        ),
    decreases depth, 1int, 0int,
{
    if depth > 0 {
        let success = frame_success(nodes, at, place);
        let trace = frame_trace(nodes, at, depth, place);
        let k = nodes[at].ordering@.len() as int;
        let members = member_records(nodes, at, depth, place, k);
        lemma_member_events(nodes, at, depth, place, k);
        let head = seq![Record::Trace(trace, success)];
        assert(head =~= Seq::<Record>::empty().push(Record::Trace(trace, success)));
        lemma_success_events_push(Seq::empty(), Record::Trace(trace, success));
        lemma_success_events_add(head, members);
        if destroys_itself(nodes[at]) {
            let last = Record::Trace(destruction_trace(nodes, at, place, trace.id), success);
            assert(head + members + seq![last] =~= (head + members).push(last));
            lemma_success_events_push(head + members, last);
        } else {
            assert(head + members + Seq::<Record>::empty() =~= head + members);
        }
    }
}

/// [`lemma_frame_events`], for the first `k` things that happened in the frame.
proof fn lemma_member_events(nodes: Seq<CallTraceNode>, at: int, depth: nat, place: Place, k: int)
    ensures
        success_events(member_records(nodes, at, depth, place, k)) == effective_member_logs(
            nodes,
            at,
            depth,
            place.parent_success,
            k,
        ),
    decreases depth, 0int, k,
{
    if k > 0 && depth > 0 {
        lemma_member_events(nodes, at, depth, place, k - 1);
        let before = member_records(nodes, at, depth, place, k - 1);
        match nodes[at].ordering@[k - 1] {
            TraceMemberOrder::Call(c) => {
                let child = nodes[at].children@[c as int] as int;
                let below = member_place(nodes, at, depth, place, k, c, before);
                lemma_frame_events(nodes, child, (depth - 1) as nat, below);
                lemma_success_events_add(
                    before,
                    frame_records(nodes, child, (depth - 1) as nat, below),
                );
            },
            TraceMemberOrder::Log(l) => {
                let event = log_event(
                    nodes,
                    at,
                    frame_trace(nodes, at, depth, place).id,
                    l as int,
                    k - 1,
                    place.log_index + success_events(before),
                );
                lemma_success_events_push(
                    before,
                    Record::Event(event, frame_success(nodes, at, place)),
                );
            },
            TraceMemberOrder::Step(_) => {},
        }
    }
}

/// The number of effective logs grows with the number of things that happened.
proof fn lemma_member_logs_grow(
    nodes: Seq<CallTraceNode>,
    at: int,
    depth: nat,
    parent_success: bool,
    j: int,
    k: int,
)
    requires
        j <= k,
    ensures
        effective_member_logs(nodes, at, depth, parent_success, j) <= effective_member_logs(
            nodes,
            at,
            depth,
            parent_success,
            k,
        ),
    decreases k - j,
{
    if j < k {
        lemma_member_logs_grow(nodes, at, depth, parent_success, j, k - 1);
    }
}

/// Builds the tree of a frame and of the frames below it.
#[verifier::rlimit(60)]
#[verifier::spinoff_prover]
fn build_trace_node(
    tx_id: &String,
    parent_trace_id: String,
    pos_in_parent_trace: usize,
    at: usize,
    nodes: &Vec<CallTraceNode>,
    parent_success: bool,
    trace_address: Vec<usize>,
    log_index: &mut usize,
    Ghost(depth): Ghost<nat>,
) -> (r: DebankTraceNode)
    requires
        frames_in_order(nodes@, at as int, depth),
        *old(log_index) + effective_logs(nodes@, at as int, depth, parent_success) <= usize::MAX,
    ensures
        ({
            let place = Place {
                tx_id: tx_id@,
                parent_trace_id: parent_trace_id@,
                pos: pos_in_parent_trace as nat,
                trace_address: trace_address@,
                parent_success,
                log_index: *old(log_index) as nat,
            };
            &&& r.trace@ == frame_trace(nodes@, at as int, depth, place)
            &&& r.success == frame_success(nodes@, at as int, place)
            &&& is_tree_of(r, nodes@, at as int, depth, place)
            &&& ids_formed(frame_records(nodes@, at as int, depth, place))
            &&& tree_records(r.trace@, r.children@, r.success) == frame_records(
                nodes@,
                at as int,
                depth,
                place,
            )
        }),
        items_placed(r.children@, r.trace@.id),
        *final(log_index) == *old(log_index) + effective_logs(
            nodes@,
            at as int,
            depth,
            parent_success,
        ),
    decreases depth,
{
    let ghost place = Place {
        tx_id: tx_id@,
        parent_trace_id: parent_trace_id@,
        pos: pos_in_parent_trace as nat,
        trace_address: trace_address@,
        parent_success,
        log_index: *log_index as nat,
    };
    let ghost start = *log_index;
    let ghost i = at as int;
    let node = &nodes[at];
    let success = node.trace.success && parent_success;
    let mut trace = DebankTrace::from(node);
    trace.trace_address = copy_address(&trace_address);
    trace.parent_trace_id = parent_trace_id;
    trace.pos_in_parent_trace = pos_in_parent_trace;
    trace.tx_id = tx_id.clone();
    trace.id = trace.debank_id();
    let ghost full = frame_trace(nodes@, i, depth, place);
    let contract_id = node.execution_address();
    let mut children: Vec<DebankTraceOrLog> = Vec::new();
    let mut child_trace_address: Vec<usize> = Vec::new();
    let mut k: usize = 0;
    while k < node.ordering.len()
        invariant
            frames_in_order(nodes@, i, depth),
            i == at,
            node == nodes@[i],
            place == (Place {
                tx_id: tx_id@,
                parent_trace_id: place.parent_trace_id,
                pos: pos_in_parent_trace as nat,
                trace_address: trace_address@,
                parent_success,
                log_index: start as nat,
            }),
            start + effective_logs(nodes@, i, depth, parent_success) <= usize::MAX,
            success == frame_success(nodes@, i, place),
            full == frame_trace(nodes@, i, depth, place),
            contract_id == execution_account(*node),
            k <= node.ordering@.len(),
            trace@ == (TraceModel {
                storage_change: writes_storage(*node) || member_changes_storage(
                    nodes@,
                    i,
                    depth,
                    k as int,
                ),
                subtraces: node.children@.len(),
                ..full
            }),
            children@.len() == member_count(node.ordering@, k as int),
            forall|j: int|
                0 <= j < k ==> #[trigger] is_member_of(children@, nodes@, i, depth, place, j),
            items_placed(children@, full.id),
            is_id(full.id),
            ids_formed(member_records(nodes@, i, depth, place, k as int)),
            item_records(children@, full.id, success) == member_records(
                nodes@,
                i,
                depth,
                place,
                k as int,
            ),
            *log_index == start + effective_member_logs(
                nodes@,
                i,
                depth,
                parent_success,
                k as int,
            ),
            child_trace_address@ == match last_call(node.ordering@, k as int) {
                Some(c) => trace_address@.push(c),
                None => Seq::empty(),
            },
        decreases node.ordering.len() - k,
    {
        let ghost before = member_records(nodes@, i, depth, place, k as int);
        let ghost items = children@;
        proof {
            lemma_member_events(nodes@, i, depth, place, k as int);
            lemma_member_logs_grow(
                nodes@,
                i,
                depth,
                parent_success,
                k as int + 1,
                node.ordering@.len() as int,
            );
        }
        let member = node.ordering[k];
        assert(node.ordering@[k as int] == member);
        match member {
            TraceMemberOrder::Call(c) => {
                let child = node.children[c];
                assert((child as int) < nodes@.len()) by {
                    reveal_with_fuel(frames_in_order, 2);
                }
                let mut below = copy_address(&trace_address);
                below.push(c);
                child_trace_address = copy_address(&below);
                let ghost below_place = member_place(nodes@, i, depth, place, k + 1, c, before);
                let child_trace = build_trace_node(
                    tx_id,
                    trace.id.clone(),
                    children.len(),
                    child,
                    nodes,
                    success,
                    below,
                    log_index,
                    Ghost((depth - 1) as nat),
                );
                if child_trace.trace.storage_change && nodes[child].trace.success {
                    trace.storage_change = true;
                }
                proof {
                    assert(child_trace.trace@.parent_trace_id == full.id);
                    assert((TraceModel { parent_trace_id: full.id, ..child_trace.trace@ })
                        == child_trace.trace@);
                    lemma_member_storage_step(nodes@, i, depth, k as int);
                }
                children.push(DebankTraceOrLog::Trace(child_trace));
                proof {
                    assert(children@.drop_last() =~= items);
                    assert(children@.take(items.len() as int) =~= items);
                    lemma_members_kept(items, children@, nodes@, i, depth, place, k as int);
                    assert(is_member_of(children@, nodes@, i, depth, place, k as int));
                    lemma_ids_add(
                        before,
                        frame_records(nodes@, child as int, (depth - 1) as nat, below_place),
                    );
                }
            },
            TraceMemberOrder::Log(l) => {
                let mut child_event = DebankEvent::from(&node.logs[l]);
                child_event.pos_in_parent_trace = children.len();
                child_event.contract_id = contract_id;
                child_event.parent_trace_id = trace.id.clone();
                child_event.id = child_event.debank_id();
                child_event.idx = *log_index;
                if success {
                    *log_index += 1;
                }
                proof {
                    lemma_member_storage_step(nodes@, i, depth, k as int);
                }
                children.push(DebankTraceOrLog::Log(child_event));
                proof {
                    assert(children@.drop_last() =~= items);
                    assert(children@.take(items.len() as int) =~= items);
                    lemma_members_kept(items, children@, nodes@, i, depth, place, k as int);
                    assert(is_member_of(children@, nodes@, i, depth, place, k as int));
                }
                assert(item_records(children@, full.id, success) =~= member_records(
                    nodes@,
                    i,
                    depth,
                    place,
                    k + 1,
                ));
            },
            TraceMemberOrder::Step(_) => {
                proof {
                    lemma_member_storage_step(nodes@, i, depth, k as int);
                    assert(is_member_of(children@, nodes@, i, depth, place, k as int));
                }
            },
        }
        k += 1;
    }
    let ghost members = member_records(nodes@, i, depth, place, k as int);
    let ghost items = children@;
    if node.is_selfdestruct() {
        if child_trace_address.len() > 0 {
            let last = child_trace_address.len() - 1;
            let position = child_trace_address[last];
            proof {
                lemma_last_call(nodes@, i, depth, k as int);
            }
            child_trace_address.set(last, position + 1);
            assert(child_trace_address@ =~= trace_address@.push((position + 1) as usize));
        }
        trace.subtraces = trace.subtraces + 1;
        let mut selfdestruct_trace = DebankTrace::default();
        selfdestruct_trace.from_addr = Address::or_zero(node.trace.selfdestruct_address);
        selfdestruct_trace.to_addr = Address::or_zero(node.trace.selfdestruct_refund_target);
        selfdestruct_trace.value = U256::or_zero(node.trace.selfdestruct_transferred_value);
        selfdestruct_trace.trace_address = child_trace_address;
        selfdestruct_trace.parent_trace_id = trace.id.clone();
        selfdestruct_trace.pos_in_parent_trace = children.len();
        selfdestruct_trace.tx_id = tx_id.clone();
        selfdestruct_trace.call_create_type = "suicide".to_owned();
        selfdestruct_trace.id = selfdestruct_trace.debank_id();
        let ghost last_trace = selfdestruct_trace@;
        let last_node = DebankTraceNode {
            trace: selfdestruct_trace,
            children: Vec::new(),
            success: parent_success && success,
        };
        children.push(DebankTraceOrLog::Trace(last_node));
        proof {
            assert(children@.drop_last() =~= items);
            assert((TraceModel { parent_trace_id: full.id, ..last_trace }) == last_trace);
            assert(last_node.children@ =~= Seq::<DebankTraceOrLog>::empty());
            assert(item_records(last_node.children@, last_trace.id, success) =~= Seq::empty());
            assert(tree_records(last_trace, last_node.children@, success) =~= seq![
                Record::Trace(last_trace, success),
            ]);
            assert(last_trace == destruction_trace(nodes@, i, place, full.id));
            assert(children@.take(items.len() as int) =~= items);
            lemma_members_kept(items, children@, nodes@, i, depth, place, k as int);
            assert(is_destruction_of(children@[items.len() as int], nodes@, i, depth, place));
        }
    }
    let r = DebankTraceNode { trace, children, success };
    proof {
        lemma_member_storage_all(nodes@, i, depth);
        assert(r.trace@ == full);
        let head = seq![Record::Trace(full, success)];
        let last = if destroys_itself(*node) {
            seq![Record::Trace(destruction_trace(nodes@, i, place, full.id), success)]
        } else {
            Seq::empty()
        };
        lemma_ids_add(head, members);
        lemma_ids_add(head + members, last);
        assert(frame_records(nodes@, i, depth, place) == head + members + last);
        let ordering = nodes@[i].ordering@;
        assert forall|j: int|
            #![trigger ordering[j]]
            0 <= j < ordering.len() implies is_member_of(
            r.children@,
            nodes@,
            i,
            depth,
            place,
            j,
        ) by {}
        assert(tree_records(r.trace@, r.children@, r.success) =~= frame_records(
            nodes@,
            i,
            depth,
            place,
        ));
    }
    r
}

/// A copy of the way down to a frame.
fn copy_address(address: &Vec<usize>) -> (r: Vec<usize>)
    ensures
        r@ == address@,
{
    let r = address.clone();
    assert(r@ =~= address@);
    r
}

/// One thing more that happened.
proof fn lemma_member_storage_step(nodes: Seq<CallTraceNode>, at: int, depth: nat, k: int)
    requires
        0 <= k < nodes[at].ordering@.len(),
    ensures
        member_changes_storage(nodes, at, depth, k + 1) == (member_changes_storage(
            nodes,
            at,
            depth,
            k,
        ) || match nodes[at].ordering@[k] {
            TraceMemberOrder::Call(c) => {
                let child = nodes[at].children@[c as int] as int;
                nodes[child].trace.success && changes_storage(nodes, child, (depth - 1) as nat)
            },
            _ => false,
        }),
{
    let last = nodes[at].ordering@[k];
}

/// All that happened.
proof fn lemma_member_storage_all(nodes: Seq<CallTraceNode>, at: int, depth: nat)
    requires
        depth > 0,
    ensures
        changes_storage(nodes, at, depth) == (writes_storage(nodes[at]) || member_changes_storage(
            nodes,
            at,
            depth,
            nodes[at].ordering@.len() as int,
        )),
{
}

/// The last frame that a frame entered is one of its children.
proof fn lemma_last_call(nodes: Seq<CallTraceNode>, at: int, depth: nat, k: int)
    requires
        frames_in_order(nodes, at, depth),
        k <= nodes[at].ordering@.len(),
    ensures
        last_call(nodes[at].ordering@, k) matches Some(c) ==> c < nodes[at].children@.len(),
    decreases k,
{
    if k > 0 {
        let last = nodes[at].ordering@[k - 1];
        lemma_last_call(nodes, at, depth, k - 1);
    }
}

// ---------------------------------------------------------------------------------------------
// The lists that are published
// ---------------------------------------------------------------------------------------------

/// The traces in a list of records that took effect, or those that did not.
pub open spec fn traces_of(records: Seq<Record>, success: bool) -> Seq<TraceModel>
    decreases records.len(),
{
    if records.len() == 0 {
        Seq::empty()
    } else {
        let before = traces_of(records.drop_last(), success);
        match records.last() {
            Record::Trace(trace, s) => if s == success {
                before.push(trace)
            } else {
                before
            },
            Record::Event(_, _) => before,
        }
    }
}

/// The events in a list of records that took effect, or those that did not.
pub open spec fn events_of(records: Seq<Record>, success: bool) -> Seq<EventModel>
    decreases records.len(),
{
    if records.len() == 0 {
        Seq::empty()
    } else {
        let before = events_of(records.drop_last(), success);
        match records.last() {
            Record::Event(event, s) => if s == success {
                before.push(event)
            } else {
                before
            },
            Record::Trace(_, _) => before,
        }
    }
}

/// Two lists of records, one behind the other.
pub proof fn lemma_records_add(a: Seq<Record>, b: Seq<Record>, success: bool)
    ensures
        traces_of(a + b, success) == traces_of(a, success) + traces_of(b, success),
        events_of(a + b, success) == events_of(a, success) + events_of(b, success),
    decreases b.len(),
{
    if b.len() == 0 {
        assert(a + b =~= a);
        assert(traces_of(a, success) + traces_of(b, success) =~= traces_of(a, success));
        assert(events_of(a, success) + events_of(b, success) =~= events_of(a, success));
    } else {
        lemma_records_add(a, b.drop_last(), success);
        assert((a + b).drop_last() =~= a + b.drop_last());
        assert((a + b).last() == b.last());
        assert(traces_of(a + b, success) =~= traces_of(a, success) + traces_of(b, success));
        assert(events_of(a + b, success) =~= events_of(a, success) + events_of(b, success));
    }
}

/// A list of one record.
proof fn lemma_records_one(r: Record, success: bool)
    ensures
        traces_of(seq![r], success) == match r {
            Record::Trace(trace, s) => if s == success { seq![trace] } else { Seq::empty() },
            Record::Event(_, _) => Seq::empty(),
        },
        events_of(seq![r], success) == match r {
            Record::Event(event, s) => if s == success { seq![event] } else { Seq::empty() },
            Record::Trace(_, _) => Seq::empty(),
        },
{
    assert(seq![r].drop_last() =~= Seq::<Record>::empty());
    assert(traces_of(seq![r].drop_last(), success) =~= Seq::<TraceModel>::empty());
    assert(events_of(seq![r].drop_last(), success) =~= Seq::<EventModel>::empty());
    match r {
        Record::Trace(trace, s) => {
            assert(Seq::<TraceModel>::empty().push(trace) =~= seq![trace]);
        },
        Record::Event(event, s) => {
            assert(Seq::<EventModel>::empty().push(event) =~= seq![event]);
        },
    }
}

/// The contents of four lists: the traces that took effect, those that did not, the events that
/// took effect, and those that did not.
pub type Lists = (Seq<TraceModel>, Seq<TraceModel>, Seq<EventModel>, Seq<EventModel>);

/// The four lists hold, behind what they held before, the records of a list.
pub open spec fn lists_extend(
    old_lists: Lists,
    new_lists: Lists,
    records: Seq<Record>,
) -> bool {
    &&& new_lists.0 == old_lists.0 + traces_of(records, true)
    &&& new_lists.1 == old_lists.1 + traces_of(records, false)
    &&& new_lists.2 == old_lists.2 + events_of(records, true)
    &&& new_lists.3 == old_lists.3 + events_of(records, false)
}

/// The contents of four lists.
pub open spec fn list_models(
    traces: Seq<DebankTrace>,
    error_traces: Seq<DebankTrace>,
    events: Seq<DebankEvent>,
    error_events: Seq<DebankEvent>,
) -> Lists {
    (
        views(traces),
        views(error_traces),
        views(events),
        views(error_events),
    )
}

/// Extending twice is extending by both lists of records.
proof fn lemma_lists_extend(
    l0: Lists,
    l1: Lists,
    l2: Lists,
    a: Seq<Record>,
    b: Seq<Record>,
)
    requires
        lists_extend(l0, l1, a),
        lists_extend(l1, l2, b),
    ensures
        lists_extend(l0, l2, a + b),
{
    lemma_records_add(a, b, true);
    lemma_records_add(a, b, false);
    assert(l2.0 =~= l0.0 + traces_of(a + b, true));
    assert(l2.1 =~= l0.1 + traces_of(a + b, false));
    assert(l2.2 =~= l0.2 + events_of(a + b, true));
    assert(l2.3 =~= l0.3 + events_of(a + b, false));
}

/// Puts a trace into the list that it belongs to.
fn push_trace(
    trace: DebankTrace,
    success: bool,
    traces: &mut Vec<DebankTrace>,
    error_traces: &mut Vec<DebankTrace>,
)
    ensures
        views(final(traces)@) == views(old(traces)@) + traces_of(
            seq![Record::Trace(trace@, success)],
            true,
        ),
        views(final(error_traces)@) == views(old(error_traces)@) + traces_of(
            seq![Record::Trace(trace@, success)],
            false,
        ),
        events_of(seq![Record::Trace(trace@, success)], true) == Seq::<EventModel>::empty(),
        events_of(seq![Record::Trace(trace@, success)], false) == Seq::<EventModel>::empty(),
{
    proof {
        lemma_records_one(Record::Trace(trace@, success), true);
        lemma_records_one(Record::Trace(trace@, success), false);
    }
    if success {
        traces.push(trace);
    } else {
        error_traces.push(trace);
    }
    assert(views(traces@) =~= views(old(traces)@) + traces_of(
        seq![Record::Trace(trace@, success)],
        true,
    ));
    assert(views(error_traces@) =~= views(old(error_traces)@) + traces_of(
        seq![Record::Trace(trace@, success)],
        false,
    ));
}

/// Puts an event into the list that it belongs to.
fn push_event(
    event: DebankEvent,
    success: bool,
    events: &mut Vec<DebankEvent>,
    error_events: &mut Vec<DebankEvent>,
)
    ensures
        views(final(events)@) == views(old(events)@) + events_of(
            seq![Record::Event(event@, success)],
            true,
        ),
        views(final(error_events)@) == views(old(error_events)@) + events_of(
            seq![Record::Event(event@, success)],
            false,
        ),
        traces_of(seq![Record::Event(event@, success)], true) == Seq::<TraceModel>::empty(),
        traces_of(seq![Record::Event(event@, success)], false) == Seq::<TraceModel>::empty(),
{
    proof {
        lemma_records_one(Record::Event(event@, success), true);
        lemma_records_one(Record::Event(event@, success), false);
    }
    if success {
        events.push(event);
    } else {
        error_events.push(event);
    }
    assert(views(events@) =~= views(old(events)@) + events_of(
        seq![Record::Event(event@, success)],
        true,
    ));
    assert(views(error_events@) =~= views(old(error_events)@) + events_of(
        seq![Record::Event(event@, success)],
        false,
    ));
}

/// Whether the members of two trees are the same, but that those of the second carry the right
/// identifiers of the traces above them: the traces among them that of the frame, and the traces
/// below these that of the trace that they stand under.
pub open spec fn items_settled(
    before: Seq<DebankTraceOrLog>,
    after: Seq<DebankTraceOrLog>,
    frame_id: Seq<char>,
) -> bool
    decreases before,
{
    &&& before.len() == after.len()
    &&& forall|i: int|
        0 <= i < before.len() ==> match #[trigger] before[i] {
            DebankTraceOrLog::Trace(x) => {
                &&& after[i] is Trace
                &&& after[i]->Trace_0.trace@ == TraceModel {
                    parent_trace_id: frame_id,
                    ..x.trace@
                }
                &&& after[i]->Trace_0.success == x.success
                &&& items_settled(x.children@, after[i]->Trace_0.children@, x.trace@.id)
            },
            DebankTraceOrLog::Log(x) => after[i] is Log && after[i]->Log_0@ == x@,
        }
}

/// Whether two trees are the same, but that the traces of the second carry the right identifiers
/// of the traces above them.
pub open spec fn tree_settled(before: DebankTraceNode, after: DebankTraceNode) -> bool {
    &&& after.trace@ == before.trace@
    &&& after.success == before.success
    &&& items_settled(before.children@, after.children@, before.trace@.id)
}

/// Puts the records of a tree into the lists that they belong to. On the way the traces of the
/// tree are given the identifiers of the traces above them.
fn finish_build_traces(
    node: &mut DebankTraceNode,
    traces: &mut Vec<DebankTrace>,
    error_traces: &mut Vec<DebankTrace>,
    events: &mut Vec<DebankEvent>,
    error_events: &mut Vec<DebankEvent>,
)
    ensures
        lists_extend(
            list_models(old(traces)@, old(error_traces)@, old(events)@, old(error_events)@),
            list_models(final(traces)@, final(error_traces)@, final(events)@, final(error_events)@),
            tree_records(old(node).trace@, old(node).children@, old(node).success),
        ),
        tree_settled(*old(node), *final(node)),
    decreases old(node).children@,
{
    let ghost l0 = list_models(traces@, error_traces@, events@, error_events@);
    let ghost head = seq![Record::Trace(node.trace@, node.success)];
    let ghost items = node.children@;
    let ghost frame = node.trace@;
    let success = node.success;
    let id = node.trace.id.clone();
    push_trace(copy_trace(&node.trace), success, traces, error_traces);
    let ghost l1 = list_models(traces@, error_traces@, events@, error_events@);
    proof {
        assert(l1.2 =~= l0.2 + Seq::<EventModel>::empty());
        assert(l1.3 =~= l0.3 + Seq::<EventModel>::empty());
        assert(items.take(0) =~= Seq::<DebankTraceOrLog>::empty());
        assert(l1.0 =~= l1.0 + traces_of(Seq::<Record>::empty(), true));
        assert(l1.1 =~= l1.1 + traces_of(Seq::<Record>::empty(), false));
        assert(l1.2 =~= l1.2 + events_of(Seq::<Record>::empty(), true));
        assert(l1.3 =~= l1.3 + events_of(Seq::<Record>::empty(), false));
        assert(node.children@.take(0) =~= items.take(0));
    }
    let mut i: usize = 0;
    while i < node.children.len()
        invariant
            items == old(node).children@,
            id@ == frame.id,
            node.trace@ == frame,
            node.success == success,
            i <= items.len(),
            node.children@.len() == items.len(),
            forall|j: int| i <= j < items.len() ==> node.children@[j] == #[trigger] items[j],
            items_settled(items.take(i as int), node.children@.take(i as int), frame.id),
            lists_extend(
                l1,
                list_models(traces@, error_traces@, events@, error_events@),
                item_records(items.take(i as int), frame.id, success),
            ),
        decreases items.len() - i,
    {
        let ghost j = i as int;
        let ghost so_far = node.children@;
        let ghost l2 = list_models(traces@, error_traces@, events@, error_events@);
        let ghost done = item_records(items.take(j), frame.id, success);
        assert(node.children@[j] == items[j]);
        assert(items.take(j + 1).drop_last() =~= items.take(j));
        match &mut node.children[i] {
            DebankTraceOrLog::Trace(child) => {
                child.trace.parent_trace_id = id.clone();
                let ghost below = tree_records(child.trace@, child.children@, child.success);
                finish_build_traces(child, traces, error_traces, events, error_events);
                proof {
                    lemma_lists_extend(
                        l1,
                        l2,
                        list_models(traces@, error_traces@, events@, error_events@),
                        done,
                        below,
                    );
                }
            },
            DebankTraceOrLog::Log(event) => {
                let ghost one = seq![Record::Event(event@, success)];
                push_event(copy_event(event), success, events, error_events);
                proof {
                    let l3 = list_models(traces@, error_traces@, events@, error_events@);
                    assert(l3.0 =~= l2.0 + Seq::<TraceModel>::empty());
                    assert(l3.1 =~= l2.1 + Seq::<TraceModel>::empty());
                    lemma_lists_extend(l1, l2, l3, done, one);
                }
            },
        }
        proof {
            lemma_settled_push(
                items.take(j),
                so_far.take(j),
                items[j],
                node.children@[j],
                frame.id,
            );
            assert(items.take(j + 1) =~= items.take(j).push(items[j]));
            assert(node.children@.take(j + 1) =~= so_far.take(j).push(node.children@[j]));
        }
        i += 1;
    }
    proof {
        assert(items.take(items.len() as int) =~= items);
        assert(node.children@.take(items.len() as int) =~= node.children@);
        lemma_lists_extend(
            l0,
            l1,
            list_models(traces@, error_traces@, events@, error_events@),
            head,
            item_records(items, frame.id, success),
        );
    }
}

/// Whether a member of a tree is another one that carries the right identifiers.
spec fn item_settled(
    before: DebankTraceOrLog,
    after: DebankTraceOrLog,
    frame_id: Seq<char>,
) -> bool {
    match before {
        DebankTraceOrLog::Trace(x) => {
            &&& after is Trace
            &&& after->Trace_0.trace@ == TraceModel { parent_trace_id: frame_id, ..x.trace@ }
            &&& after->Trace_0.success == x.success
            &&& items_settled(x.children@, after->Trace_0.children@, x.trace@.id)
        },
        DebankTraceOrLog::Log(x) => after is Log && after->Log_0@ == x@,
    }
}

proof fn lemma_settled_push(
    before: Seq<DebankTraceOrLog>,
    after: Seq<DebankTraceOrLog>,
    x: DebankTraceOrLog,
    y: DebankTraceOrLog,
    frame_id: Seq<char>,
)
    requires
        items_settled(before, after, frame_id),
        item_settled(x, y, frame_id),
    ensures
        items_settled(before.push(x), after.push(y), frame_id),
{
    let (b, a) = (before.push(x), after.push(y));
    assert forall|i: int| 0 <= i < b.len() implies item_settled(
        #[trigger] b[i],
        a[i],
        frame_id,
    ) by {
        if i < before.len() {
            assert(b[i] == before[i]);
            assert(a[i] == after[i]);
        }
    }
}

// ---------------------------------------------------------------------------------------------
// Transactions
// ---------------------------------------------------------------------------------------------

/// The place of the outermost frame of a transaction.
pub open spec fn root_place(tx_id: Seq<u8>, log_index: nat) -> Place {
    Place {
        tx_id: prefixed_hex(tx_id),
        parent_trace_id: Seq::empty(),
        pos: 0,
        trace_address: Seq::empty(),
        parent_success: true,
        log_index,
    }
}

/// The records of a transaction with these frames.
pub open spec fn transaction_records(
    tx_id: Seq<u8>,
    nodes: Seq<CallTraceNode>,
    log_index: nat,
) -> Seq<Record> {
    if nodes.len() == 0 {
        Seq::empty()
    } else {
        frame_records(nodes, 0, nodes.len(), root_place(tx_id, log_index))
    }
}

/// Whether the frames of a transaction are in order.
pub open spec fn arena_in_order(nodes: Seq<CallTraceNode>) -> bool {
    nodes.len() > 0 ==> frames_in_order(nodes, 0, nodes.len())
}

/// How many logs of a transaction take effect.
pub open spec fn arena_logs(nodes: Seq<CallTraceNode>) -> nat {
    if nodes.len() == 0 {
        0
    } else {
        effective_logs(nodes, 0, nodes.len(), true)
    }
}

/// The records of a transaction hold as many effective events as the transaction has effective
/// logs.
pub proof fn lemma_transaction_events(tx_id: Seq<u8>, nodes: Seq<CallTraceNode>, log_index: nat)
    ensures
        success_events(transaction_records(tx_id, nodes, log_index)) == arena_logs(nodes),
{
    if nodes.len() > 0 {
        lemma_frame_events(nodes, 0, nodes.len(), root_place(tx_id, log_index));
    }
}

/// The logs of a frame that take effect, if the frames are in order and the logs can be counted.
fn count_logs(nodes: &Vec<CallTraceNode>, at: usize, depth: usize, parent_success: bool) -> (r:
    Option<usize>)
    ensures
        r is Some <==> frames_in_order(nodes@, at as int, depth as nat) && effective_logs(
            nodes@,
            at as int,
            depth as nat,
            parent_success,
        ) <= usize::MAX,
        r matches Some(n) ==> n == effective_logs(
            nodes@,
            at as int,
            depth as nat,
            parent_success,
        ),
    decreases depth,
{
    if depth == 0 || at >= nodes.len() {
        return None;
    }
    let node = &nodes[at];
    if node.is_selfdestruct() && node.children.len() == usize::MAX {
        return None;
    }
    let ghost i = at as int;
    let ghost d = depth as nat;
    let success = node.trace.success && parent_success;
    let mut count: usize = 0;
    let mut k: usize = 0;
    while k < node.ordering.len()
        invariant
            depth > 0,
            i == at,
            d == depth,
            i < nodes@.len(),
            node == nodes@[i],
            destroys_itself(*node) ==> node.children@.len() < usize::MAX,
            success == (node.trace.success && parent_success),
            k <= node.ordering@.len(),
            forall|j: int|
                0 <= j < k ==> match #[trigger] node.ordering@[j] {
                    TraceMemberOrder::Call(c) => c < node.children@.len() && frames_in_order(
                        nodes@,
                        node.children@[c as int] as int,
                        (d - 1) as nat,
                    ),
                    TraceMemberOrder::Log(l) => l < node.logs@.len(),
                    TraceMemberOrder::Step(_) => true,
                },
            count == effective_member_logs(nodes@, i, d, parent_success, k as int),
        decreases node.ordering.len() - k,
    {
        let member = node.ordering[k];
        assert(node.ordering@[k as int] == member);
        proof {
            lemma_member_logs_grow(
                nodes@,
                i,
                d,
                parent_success,
                k as int + 1,
                node.ordering@.len() as int,
            );
        }
        match member {
            TraceMemberOrder::Call(c) => {
                if c >= node.children.len() {
                    return None;
                }
                match count_logs(nodes, node.children[c], depth - 1, success) {
                    Some(below) => match count.checked_add(below) {
                        Some(sum) => {
                            count = sum;
                        },
                        None => {
                            return None;
                        },
                    },
                    None => {
                        return None;
                    },
                }
            },
            TraceMemberOrder::Log(l) => {
                if l >= node.logs.len() {
                    return None;
                }
                if success {
                    match count.checked_add(1) {
                        Some(sum) => {
                            count = sum;
                        },
                        None => {
                            return None;
                        },
                    }
                }
            },
            TraceMemberOrder::Step(_) => {},
        }
        k += 1;
    }
    Some(count)
}

impl CallTraceArena {
    /// The number of logs that take effect. Nothing is returned if an index in a frame points at
    /// nothing, if frames go round in a circle, or if the logs cannot be counted.
    pub fn effective_log_count(&self) -> (r: Option<usize>)
        ensures
            r is Some <==> arena_in_order(self.nodes@) && arena_logs(self.nodes@) <= usize::MAX,
            r matches Some(n) ==> n == arena_logs(self.nodes@),
    {
        if self.nodes.is_empty() {
            return Some(0);
        }
        count_logs(&self.nodes, 0, self.nodes.len(), true)
    }
}

/// The traces and events of one transaction: the traces that took effect, those that did not,
/// the events that took effect, and those that did not.
pub type TraceEntry = (Vec<DebankTrace>, Vec<DebankTrace>, Vec<DebankEvent>, Vec<DebankEvent>);

/// The contents of the lists of a transaction.
pub open spec fn entry_model(entry: TraceEntry) -> Lists {
    list_models(entry.0@, entry.1@, entry.2@, entry.3@)
}

/// The contents of the lists of some transactions.
pub open spec fn entry_models(entries: Seq<TraceEntry>) -> Seq<Lists> {
    Seq::new(entries.len(), |k: int| entry_model(entries[k]))
}

/// The lists that hold exactly these records.
pub open spec fn sorted_out(records: Seq<Record>) -> Lists {
    (
        traces_of(records, true),
        traces_of(records, false),
        events_of(records, true),
        events_of(records, false),
    )
}

/// Whether all records in the lists of a transaction have identifiers in form.
pub open spec fn lists_formed(lists: Lists) -> bool {
    &&& forall|j: int| 0 <= j < lists.0.len() ==> is_id((#[trigger] lists.0[j]).id)
    &&& forall|j: int| 0 <= j < lists.1.len() ==> is_id((#[trigger] lists.1[j]).id)
    &&& forall|j: int| 0 <= j < lists.2.len() ==> is_id((#[trigger] lists.2[j]).id)
    &&& forall|j: int| 0 <= j < lists.3.len() ==> is_id((#[trigger] lists.3[j]).id)
}

/// Whether exactly one trace in the lists of a transaction carries no identifier of a trace above
/// it: the first one of the traces that took effect, if the outermost frame did, and of those
/// that did not otherwise.
pub open spec fn one_outermost(lists: Lists, success: bool) -> bool {
    if success {
        outermost_first(lists.0, lists.1)
    } else {
        outermost_first(lists.1, lists.0)
    }
}

/// Whether the first trace of one list carries no identifier of a trace above it, and all other
/// traces of that list and of another one carry one.
pub open spec fn outermost_first(own: Seq<TraceModel>, other: Seq<TraceModel>) -> bool {
    &&& own.len() > 0
    &&& own[0].parent_trace_id.len() == 0
    &&& forall|j: int| 0 < j < own.len() ==> is_id((#[trigger] own[j]).parent_trace_id)
    &&& forall|j: int| 0 <= j < other.len() ==> is_id((#[trigger] other[j]).parent_trace_id)
}

/// Builds the traces and events of a transaction. `log_index` is the number of effective logs
/// before the transaction, and after the call the number of those behind it.
pub fn build_debank_traces(tx_id: H256, traces: CallTraceArena, log_index: &mut usize) -> (r:
    TraceEntry)
    requires
        arena_in_order(traces.nodes@),
        *old(log_index) + arena_logs(traces.nodes@) <= usize::MAX,
    ensures
        entry_model(r) == sorted_out(
            transaction_records(tx_id@, traces.nodes@, *old(log_index) as nat),
        ),
        lists_formed(entry_model(r)),
        traces.nodes@.len() > 0 ==> one_outermost(
            entry_model(r),
            traces.nodes@[0].trace.success,
        ),
        *final(log_index) == *old(log_index) + arena_logs(traces.nodes@),
{
    let ghost records = transaction_records(tx_id@, traces.nodes@, *log_index as nat);
    let ghost root = root_place(tx_id@, *log_index as nat);
    let nodes = traces.nodes;
    let mut traces: Vec<DebankTrace> = Vec::new();
    let mut error_traces: Vec<DebankTrace> = Vec::new();
    let mut events: Vec<DebankEvent> = Vec::new();
    let mut error_events: Vec<DebankEvent> = Vec::new();
    let ghost l0 = list_models(traces@, error_traces@, events@, error_events@);
    if !nodes.is_empty() {
        let mut top = build_trace_node(
            &hash_text(&tx_id),
            String::new(),
            0,
            0,
            &nodes,
            true,
            Vec::new(),
            log_index,
            Ghost(nodes@.len()),
        );
        finish_build_traces(
            &mut top,
            &mut traces,
            &mut error_traces,
            &mut events,
            &mut error_events,
        );
    }
    proof {
        let l1 = list_models(traces@, error_traces@, events@, error_events@);
        assert(l1.0 =~= traces_of(records, true));
        assert(l1.1 =~= traces_of(records, false));
        assert(l1.2 =~= events_of(records, true));
        assert(l1.3 =~= events_of(records, false));
        if nodes@.len() > 0 {
            law_frame_records(nodes@, 0, nodes@.len(), root);
            assert(records[0] is Trace);
            lemma_one_outermost(records);
        }
    }
    (traces, error_traces, events, error_events)
}

/// The number of effective logs in the first `k` transactions of a block.
pub open spec fn logs_before(txs: Seq<(H256, CallTraceArena)>, k: int) -> nat
    decreases k,
{
    if k <= 0 {
        0
    } else {
        logs_before(txs, k - 1) + arena_logs(txs[k - 1].1.nodes@)
    }
}

/// The records of the transaction at position `k` of a block.
pub open spec fn block_transaction_records(txs: Seq<(H256, CallTraceArena)>, k: int) -> Seq<Record> {
    transaction_records(txs[k].0@, txs[k].1.nodes@, logs_before(txs, k))
}

/// The effective logs of more transactions are no fewer.
pub proof fn lemma_logs_before_grow(txs: Seq<(H256, CallTraceArena)>, j: int, k: int)
    requires
        j <= k,
    ensures
        logs_before(txs, j) <= logs_before(txs, k),
    decreases k - j,
{
    if j < k {
        lemma_logs_before_grow(txs, j, k - 1);
    }
}

/// The records of the transactions of a block, sorted out for each of them.
pub open spec fn block_lists(txs: Seq<(H256, CallTraceArena)>) -> Seq<Lists> {
    Seq::new(txs.len(), |k: int| sorted_out(block_transaction_records(txs, k)))
}

/// Builds the traces and events of all transactions of a block, in order. The effective logs
/// are counted through the whole block.
pub fn build_block_traces(txs: Vec<(H256, CallTraceArena)>) -> (r: Vec<TraceEntry>)
    requires
        forall|k: int| 0 <= k < txs@.len() ==> arena_in_order((#[trigger] txs@[k]).1.nodes@),
        logs_before(txs@, txs@.len() as int) <= usize::MAX,
    ensures
        entry_models(r@) == block_lists(txs@),
        forall|k: int|
            0 <= k < r@.len() ==> lists_formed(entry_model(#[trigger] r@[k])) && (
            txs@[k].1.nodes@.len() > 0 ==> one_outermost(
                entry_model(r@[k]),
                txs@[k].1.nodes@[0].trace.success,
            )),
{
    let ghost all = txs@;
    let mut entries: Vec<TraceEntry> = Vec::new();
    let mut log_index: usize = 0;
    for tx in it: txs
        invariant
            it.seq() == all,
            forall|k: int| 0 <= k < all.len() ==> arena_in_order((#[trigger] all[k]).1.nodes@),
            logs_before(all, all.len() as int) <= usize::MAX,
            log_index == logs_before(all, it.index() as int),
            entries@.len() == it.index(),
            forall|k: int|
                0 <= k < entries@.len() ==> entry_model(#[trigger] entries@[k]) == sorted_out(
                    block_transaction_records(all, k),
                ),
            forall|k: int|
                0 <= k < entries@.len() ==> lists_formed(entry_model(#[trigger] entries@[k])) && (
                all[k].1.nodes@.len() > 0 ==> one_outermost(
                    entry_model(entries@[k]),
                    all[k].1.nodes@[0].trace.success,
                )),
    {
        assert(all[it.index() as int] == tx);
        proof {
            lemma_logs_before_grow(all, it.index() as int + 1, all.len() as int);
        }
        let entry = build_debank_traces(tx.0, tx.1, &mut log_index);
        entries.push(entry);
    }
    assert(entry_models(entries@) =~= block_lists(all));
    entries
}

} // verus!
