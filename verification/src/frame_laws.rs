//! What the records of a transaction are: those of a walk through its frames.

use vstd::prelude::*;
use vstd::utf8::encode_utf8;

use crate::bindings::md5_digest;
use crate::call_trace::{
    destroys_itself, CallLog, CallTraceNode, InstructionResult, TraceMemberOrder,
};
use crate::lists::{law_picks, picks};
use crate::primitives::Address;
use crate::records::{trace_of_node, EventModel, TraceModel};
use crate::text::{decimal, hex_chars, prefixed_hex};
use crate::trace_laws::law_log_indices;
use crate::trace_tree::{
    arena_in_order, changes_storage, destruction_trace, events_of, frame_records, frame_success,
    frame_trace, frames_in_order, last_call, log_event, member_count, member_place,
    member_records, root_place, sorted_out, success_events, traces_of, transaction_records, Place,
    Record,
};

verus! {

// ---------------------------------------------------------------------------------------------
// What happened in a frame
// ---------------------------------------------------------------------------------------------

/// The frames and logs among the things that happened in a frame, in order.
pub open spec fn frames_and_logs(ordering: Seq<TraceMemberOrder>) -> Seq<TraceMemberOrder> {
    ordering.filter(|x: TraceMemberOrder| !(x is Step))
}

/// The frames among the things that happened in a frame, in order.
pub open spec fn entered_frames(ordering: Seq<TraceMemberOrder>) -> Seq<TraceMemberOrder> {
    ordering.filter(|x: TraceMemberOrder| x is Call)
}

/// Whether a frame ended with the destruction of its account, or left what the account held to
/// another one.
pub open spec fn destroyed(node: CallTraceNode) -> bool {
    node.trace.status == Some(InstructionResult::SelfDestruct)
        || node.trace.selfdestruct_refund_target is Some
}

/// The frame at the end of a way down from the frame at `at`, given by positions in the orderings
/// of the frames, on which every frame below `at` succeeded.
pub open spec fn succeeding_way(nodes: Seq<CallTraceNode>, at: int, way: Seq<int>) -> Option<int>
    decreases way.len(),
{
    if way.len() == 0 {
        Some(at)
    } else {
        let (ordering, k) = (nodes[at].ordering@, way[0]);
        if 0 <= k < ordering.len() && ordering[k] is Call {
            let child = nodes[at].children@[ordering[k]->Call_0 as int] as int;
            if nodes[child].trace.success {
                succeeding_way(nodes, child, way.drop_first())
            } else {
                None
            }
        } else {
            None
        }
    }
}

/// Whether a way leads down from the frame at `at`, through frames that succeeded, to a frame that
/// ran the opcode that writes storage.
pub open spec fn way_to_write(nodes: Seq<CallTraceNode>, at: int, way: Seq<int>) -> bool {
    succeeding_way(nodes, at, way) is Some
        && nodes[succeeding_way(nodes, at, way)->0].trace.steps@.contains(0x55u8)
}

/// The bytes of an address that may be missing, twenty zeroes in its place.
pub open spec fn bytes_or_zeroes(address: Option<Address>) -> Seq<u8> {
    match address {
        Some(a) => a.bytes@,
        None => Seq::new(20, |i: int| 0u8),
    }
}

// ---------------------------------------------------------------------------------------------
// What the records are
// ---------------------------------------------------------------------------------------------

/// Whether the identifier of a trace is the MD5 digest of its transaction, the trace above it and
/// its position.
pub open spec fn trace_identified(trace: TraceModel) -> bool {
    trace.id == hex_chars(
        md5_digest(
            encode_utf8(trace.tx_id + trace.parent_trace_id + decimal(trace.pos_in_parent_trace)),
        ),
    )
}

/// Whether a trace holds what the frame at `i` holds.
pub open spec fn is_frame_trace(trace: TraceModel, nodes: Seq<CallTraceNode>, i: int) -> bool {
    let frame = nodes[i].trace;
    &&& 0 <= i < nodes.len()
    &&& trace_identified(trace)
    &&& trace.from_addr == frame.caller.bytes@
    &&& trace.to_addr == frame.address.bytes@
    &&& trace.value == frame.value@
    &&& trace.input == frame.data@
    &&& trace.output == frame.output@
    &&& trace.gas_limit == frame.gas_limit
    &&& trace.gas_used == frame.gas_used
    &&& trace.call_create_type == trace_of_node(nodes[i]).call_create_type
    &&& trace.call_type == trace_of_node(nodes[i]).call_type
    &&& trace.error == trace_of_node(nodes[i]).error
    &&& trace.subtraces == nodes[i].children@.len() + if destroyed(nodes[i]) { 1int } else { 0 }
    &&& trace.self_storage_change == frame.steps@.contains(0x55u8)
    &&& trace.storage_change <==> exists|way: Seq<int>| way_to_write(nodes, i, way)
}

/// Whether an event holds what a log of a frame holds.
pub open spec fn is_log_event(event: EventModel, node: CallTraceNode, log: CallLog) -> bool {
    let kind = node.trace.kind;
    let n = log.topics@.len();
    &&& event.id == hex_chars(
        md5_digest(encode_utf8(event.parent_trace_id + decimal(event.pos_in_parent_trace))),
    )
    &&& event.contract_id == if kind is DelegateCall || kind is CallCode {
        node.trace.caller.bytes@
    } else {
        node.trace.address.bytes@
    }
    &&& event.data == log.data@
    &&& n == 0 ==> event.selector.len() == 0
    &&& n > 0 ==> event.selector == prefixed_hex(log.topics@[0].bytes@)
    &&& event.topics.len() == if n > 1 { n - 1 } else { 0 }
    &&& forall|t: int|
        0 <= t < event.topics.len() ==> (#[trigger] event.topics[t]) == prefixed_hex(
            log.topics@[t + 1].bytes@,
        )
}

/// Whether a trace stands for the destruction of the account of a frame, whose own trace stands at
/// `address`.
pub open spec fn is_destruction(
    trace: TraceModel,
    node: CallTraceNode,
    address: Seq<usize>,
) -> bool {
    let calls = entered_frames(node.ordering@);
    let value = node.trace.selfdestruct_transferred_value;
    &&& trace_identified(trace)
    &&& trace.call_create_type == "suicide"@
    &&& trace.from_addr == bytes_or_zeroes(node.trace.selfdestruct_address)
    &&& trace.to_addr == bytes_or_zeroes(node.trace.selfdestruct_refund_target)
    &&& value is Some ==> trace.value == (value->0)@
    &&& value is None ==> trace.value == 0
    &&& calls.len() == 0 ==> trace.trace_address.len() == 0
    &&& calls.len() > 0 ==> trace.trace_address == address.push(
        (calls.last()->Call_0 + 1) as usize,
    )
    &&& trace.input.len() == 0 && trace.output.len() == 0
    &&& trace.gas_limit == 0 && trace.gas_used == 0
    &&& trace.call_type.len() == 0 && trace.error.len() == 0
    &&& !trace.self_storage_change && !trace.storage_change
    &&& trace.subtraces == 0
}

/// Whether a record is that of the thing at position `pos` in the frame at `i`, whose own trace
/// is `above`: a frame, which is then named, a log, or behind these the destruction of the account.
#[verifier::opaque]
pub open spec fn happened(
    nodes: Seq<CallTraceNode>,
    i: int,
    above: TraceModel,
    effect: bool,
    record: Record,
    frame: Option<int>,
    pos: int,
) -> bool {
    let list = frames_and_logs(nodes[i].ordering@);
    &&& 0 <= pos <= list.len()
    &&& if pos < list.len() {
        match list[pos] {
            TraceMemberOrder::Call(c) => {
                let child = nodes[i].children@[c as int] as int;
                let trace = record->Trace_0;
                &&& c < nodes[i].children@.len()
                &&& frame == Some(child)
                &&& record is Trace
                &&& record->Trace_1 == (effect && nodes[child].trace.success)
                &&& is_frame_trace(trace, nodes, child)
                &&& trace.tx_id == above.tx_id
                &&& trace.parent_trace_id == above.id
                &&& trace.pos_in_parent_trace == pos
                &&& trace.trace_address == above.trace_address.push(c)
            },
            TraceMemberOrder::Log(l) => {
                &&& l < nodes[i].logs@.len()
                &&& frame is None
                &&& record is Event
                &&& record->Event_1 == effect
                &&& is_log_event(record->Event_0, nodes[i], nodes[i].logs@[l as int])
                &&& record->Event_0.parent_trace_id == above.id
                &&& record->Event_0.pos_in_parent_trace == pos
            },
            TraceMemberOrder::Step(_) => false,
        }
    } else {
        &&& destroyed(nodes[i])
        &&& frame is None
        &&& record is Trace
        &&& record->Trace_1 == effect
        &&& is_destruction(record->Trace_0, nodes[i], above.trace_address)
        &&& record->Trace_0.tx_id == above.tx_id
        &&& record->Trace_0.parent_trace_id == above.id
        &&& record->Trace_0.pos_in_parent_trace == pos
    }
}

// ---------------------------------------------------------------------------------------------
// The walk
// ---------------------------------------------------------------------------------------------

/// Where a record stands: the positions on the way down to it, and the frame of which it is the
/// trace, if it is.
pub struct Mark {
    pub key: Seq<int>,
    pub frame: Option<int>,
}

/// Whether two keys agree before position `p`, and the first one ends or is smaller there.
pub open spec fn parts_at(a: Seq<int>, b: Seq<int>, p: int) -> bool {
    &&& 0 <= p <= a.len()
    &&& p < b.len()
    &&& forall|q: int| 0 <= q < p ==> a[q] == b[q]
    &&& p < a.len() ==> a[p] < b[p]
}

/// Whether a key stands before another one, where a way down stands before the ways that go on
/// from it.
pub open spec fn key_before(a: Seq<int>, b: Seq<int>) -> bool {
    exists|p: int| parts_at(a, b, p)
}

/// Whether marks stand in the order of their keys, so that no key occurs twice.
pub open spec fn in_key_order(marks: Seq<Mark>) -> bool {
    forall|m: int, n: int|
        0 <= m < n < marks.len() ==> key_before(
            (#[trigger] marks[m]).key,
            (#[trigger] marks[n]).key,
        )
}

/// Whether a record is that of something that happened in the frame of which another record is the
/// trace, at the position with which its key goes on from that of the other.
pub open spec fn stands_in(
    nodes: Seq<CallTraceNode>,
    above: Record,
    above_mark: Mark,
    record: Record,
    mark: Mark,
) -> bool {
    &&& above is Trace
    &&& above_mark.frame is Some
    &&& mark.key.len() > 0
    &&& above_mark.key == mark.key.drop_last()
    &&& happened(
        nodes,
        above_mark.frame->0,
        above->Trace_0,
        above->Trace_1,
        record,
        mark.frame,
        mark.key.last(),
    )
}

/// Whether the record at `m` is that of something that happened in a frame whose trace stands
/// before it.
pub open spec fn stands_below(
    nodes: Seq<CallTraceNode>,
    records: Seq<Record>,
    marks: Seq<Mark>,
    m: int,
) -> bool {
    exists|n: int|
        0 <= n < m && stands_in(nodes, #[trigger] records[n], marks[n], records[m], marks[m])
}

/// Whether one of the marks has a key.
pub open spec fn has_key(marks: Seq<Mark>, key: Seq<int>) -> bool {
    exists|m: int| 0 <= m < marks.len() && (#[trigger] marks[m]).key == key
}

/// How many records a frame has behind its own trace, without those of the frames below it.
pub open spec fn member_total(node: CallTraceNode) -> int {
    frames_and_logs(node.ordering@).len() + if destroyed(node) { 1int } else { 0 }
}

/// Whether everything that happened in the frame of a mark has a mark as well.
pub open spec fn all_marked(nodes: Seq<CallTraceNode>, marks: Seq<Mark>, n: int) -> bool {
    marks[n].frame is Some ==> forall|j: int|
        0 <= j < member_total(nodes[marks[n].frame->0]) ==> has_key(
            marks,
            #[trigger] marks[n].key.push(j),
        )
}

/// Whether records are those of a walk through the frames of a transaction, with these marks: the
/// first one is the trace of the outermost frame, each other one is that of something that
/// happened in a frame whose trace stands before it, everything that happened in a frame has its
/// record, and the records stand in the order in which things happened, each frame with all that
/// happened in it before what came after it.
pub open spec fn is_walk(
    tx_id: Seq<u8>,
    nodes: Seq<CallTraceNode>,
    records: Seq<Record>,
    marks: Seq<Mark>,
) -> bool {
    &&& marks.len() == records.len() > 0
    &&& marks[0] == (Mark { key: Seq::empty(), frame: Some(0) })
    &&& records[0] is Trace
    &&& records[0]->Trace_1 == nodes[0].trace.success
    &&& is_frame_trace(records[0]->Trace_0, nodes, 0)
    &&& records[0]->Trace_0.tx_id == prefixed_hex(tx_id)
    &&& records[0]->Trace_0.parent_trace_id.len() == 0
    &&& records[0]->Trace_0.pos_in_parent_trace == 0
    &&& records[0]->Trace_0.trace_address.len() == 0
    &&& in_key_order(marks)
    &&& forall|m: int| 0 < m < records.len() ==> #[trigger] stands_below(nodes, records, marks, m)
    &&& forall|n: int| 0 <= n < marks.len() ==> #[trigger] all_marked(nodes, marks, n)
}

// ---------------------------------------------------------------------------------------------
// Counting
// ---------------------------------------------------------------------------------------------

proof fn lemma_listed_before(ordering: Seq<TraceMemberOrder>, k: int)
    requires
        0 <= k <= ordering.len(),
    ensures
        frames_and_logs(ordering.take(k)).len() == member_count(ordering, k),
        entered_frames(ordering.take(k)).len() == 0 <==> last_call(ordering, k) is None,
        last_call(ordering, k) is Some ==> entered_frames(ordering.take(k)).last()
            == TraceMemberOrder::Call(last_call(ordering, k)->0),
    decreases k,
{
    reveal(Seq::filter);
    if k > 0 {
        lemma_listed_before(ordering, k - 1);
        assert(ordering.take(k).drop_last() =~= ordering.take(k - 1));
        assert(ordering.take(k).last() == ordering[k - 1]);
    }
}

proof fn lemma_listed_kept(ordering: Seq<TraceMemberOrder>, k: int, n: int, j: int)
    requires
        0 <= k <= n <= ordering.len(),
        0 <= j < frames_and_logs(ordering.take(k)).len(),
    ensures
        j < frames_and_logs(ordering.take(n)).len(),
        frames_and_logs(ordering.take(n))[j] == frames_and_logs(ordering.take(k))[j],
    decreases n - k,
{
    reveal(Seq::filter);
    if k < n {
        lemma_listed_kept(ordering, k, n - 1, j);
        assert(ordering.take(n).drop_last() =~= ordering.take(n - 1));
    }
}

/// Each frame or log stands at its position among the frames and logs.
proof fn lemma_listed(ordering: Seq<TraceMemberOrder>, k: int)
    requires
        0 <= k < ordering.len(),
        !(ordering[k] is Step),
    ensures
        member_count(ordering, k) < frames_and_logs(ordering).len(),
        frames_and_logs(ordering)[member_count(ordering, k) as int] == ordering[k],
{
    reveal(Seq::filter);
    lemma_listed_before(ordering, k);
    let next = ordering.take(k + 1);
    assert(next.drop_last() =~= ordering.take(k));
    assert(next.last() == ordering[k]);
    let j = member_count(ordering, k) as int;
    assert(frames_and_logs(next)[j] == ordering[k]);
    lemma_listed_kept(ordering, k + 1, ordering.len() as int, j);
    assert(ordering.take(ordering.len() as int) =~= ordering);
}

/// All frames and logs, and the last frame.
proof fn lemma_listed_all(ordering: Seq<TraceMemberOrder>)
    ensures
        ({
            let k = ordering.len() as int;
            &&& frames_and_logs(ordering).len() == member_count(ordering, k)
            &&& entered_frames(ordering).len() == 0 <==> last_call(ordering, k) is None
            &&& last_call(ordering, k) is Some ==> entered_frames(ordering).last()
                == TraceMemberOrder::Call(last_call(ordering, k)->0)
        }),
{
    lemma_listed_before(ordering, ordering.len() as int);
    assert(ordering.take(ordering.len() as int) =~= ordering);
}

// ---------------------------------------------------------------------------------------------
// Storage
// ---------------------------------------------------------------------------------------------

/// A frame changes storage if and only if a way leads down from it, through frames that succeeded,
/// to a frame that ran the opcode that writes storage.
pub proof fn law_storage_change(nodes: Seq<CallTraceNode>, at: int, depth: nat)
    requires
        frames_in_order(nodes, at, depth),
    ensures
        changes_storage(nodes, at, depth) <==> exists|way: Seq<int>| way_to_write(nodes, at, way),
    decreases depth,
{
    let ordering = nodes[at].ordering@;
    let none = Seq::<int>::empty();
    if nodes[at].trace.steps@.contains(0x55u8) {
        assert(way_to_write(nodes, at, none));
    } else {
        if changes_storage(nodes, at, depth) {
            let k = choose|k: int|
                0 <= k < ordering.len() && match #[trigger] ordering[k] {
                    TraceMemberOrder::Call(c) => {
                        let child = nodes[at].children@[c as int] as int;
                        nodes[child].trace.success && changes_storage(
                            nodes,
                            child,
                            (depth - 1) as nat,
                        )
                    },
                    _ => false,
                };
            let child = nodes[at].children@[ordering[k]->Call_0 as int] as int;
            law_storage_change(nodes, child, (depth - 1) as nat);
            let below = choose|way: Seq<int>| way_to_write(nodes, child, way);
            let way = seq![k] + below;
            assert(way.drop_first() =~= below);
            assert(way_to_write(nodes, at, way));
        }
        if exists|way: Seq<int>| way_to_write(nodes, at, way) {
            let way = choose|way: Seq<int>| way_to_write(nodes, at, way);
            assert(way.len() > 0);
            let k = way[0];
            let member = ordering[k];
            let child = nodes[at].children@[member->Call_0 as int] as int;
            law_storage_change(nodes, child, (depth - 1) as nat);
            assert(way_to_write(nodes, child, way.drop_first()));
        }
    }
}

// ---------------------------------------------------------------------------------------------
// The marks of the records
// ---------------------------------------------------------------------------------------------

/// The marks of the records of a frame that stands at a key.
pub open spec fn frame_marks(
    nodes: Seq<CallTraceNode>,
    at: int,
    depth: nat,
    key: Seq<int>,
) -> Seq<Mark>
    decreases depth, 1int, 0int,
{
    if depth == 0 {
        Seq::empty()
    } else {
        let k = nodes[at].ordering@.len() as int;
        let last = if destroys_itself(nodes[at]) {
            seq![Mark { key: key.push(member_count(nodes[at].ordering@, k) as int), frame: None }]
        } else {
            Seq::empty()
        };
        seq![Mark { key, frame: Some(at) }] + member_marks(nodes, at, depth, key, k) + last
    }
}

/// The marks of the records of the first `k` things that happened in a frame.
pub open spec fn member_marks(
    nodes: Seq<CallTraceNode>,
    at: int,
    depth: nat,
    key: Seq<int>,
    k: int,
) -> Seq<Mark>
    decreases depth, 0int, k,
{
    if k <= 0 || depth == 0 {
        Seq::empty()
    } else {
        let before = member_marks(nodes, at, depth, key, k - 1);
        let next = key.push(member_count(nodes[at].ordering@, k - 1) as int);
        match nodes[at].ordering@[k - 1] {
            TraceMemberOrder::Call(c) => before + frame_marks(
                nodes,
                nodes[at].children@[c as int] as int,
                (depth - 1) as nat,
                next,
            ),
            TraceMemberOrder::Log(_) => before.push(Mark { key: next, frame: None }),
            TraceMemberOrder::Step(_) => before,
        }
    }
}

/// Whether a key goes on from another one, or is that one.
spec fn starts_with(key: Seq<int>, start: Seq<int>) -> bool {
    key.len() >= start.len() && forall|q: int| 0 <= q < start.len() ==> key[q] == start[q]
}

/// Whether all records of a list stand in their order, below each other or in the frame of the
/// given record, and nothing that happened in their frames is missing.
spec fn walked(
    nodes: Seq<CallTraceNode>,
    head: Record,
    head_mark: Mark,
    records: Seq<Record>,
    marks: Seq<Mark>,
) -> bool {
    &&& marks.len() == records.len()
    &&& in_key_order(marks)
    &&& forall|m: int|
        0 <= m < records.len() ==> {
            ||| stands_in(nodes, head, head_mark, #[trigger] records[m], marks[m])
            ||| stands_below(nodes, records, marks, m)
        }
    &&& forall|n: int| 0 <= n < marks.len() ==> #[trigger] all_marked(nodes, marks, n)
}

/// What stands below something in a list does so in a longer list.
proof fn lemma_below_shift(
    nodes: Seq<CallTraceNode>,
    records: Seq<Record>,
    marks: Seq<Mark>,
    all_records: Seq<Record>,
    all_marks: Seq<Mark>,
    shift: int,
    m: int,
)
    requires
        0 <= m < records.len(),
        records.len() == marks.len(),
        0 <= shift,
        stands_below(nodes, records, marks, m),
        forall|n: int| 0 <= n < records.len() ==> all_records[shift + n] == #[trigger] records[n],
        forall|n: int| 0 <= n < marks.len() ==> all_marks[shift + n] == #[trigger] marks[n],
    ensures
        stands_below(nodes, all_records, all_marks, shift + m),
{
    let n = choose|n: int|
        0 <= n < m && stands_in(nodes, #[trigger] records[n], marks[n], records[m], marks[m]);
    assert(all_records[shift + n] == records[n] && all_records[shift + m] == records[m]);
    assert(all_marks[shift + n] == marks[n] && all_marks[shift + m] == marks[m]);
    assert(stands_in(
        nodes,
        all_records[shift + n],
        all_marks[shift + n],
        all_records[shift + m],
        all_marks[shift + m],
    ));
}

/// What is marked in a list is marked in a longer list.
proof fn lemma_marked_shift(
    nodes: Seq<CallTraceNode>,
    marks: Seq<Mark>,
    all_marks: Seq<Mark>,
    shift: int,
    n: int,
)
    requires
        0 <= n < marks.len(),
        0 <= shift,
        shift + marks.len() <= all_marks.len(),
        all_marked(nodes, marks, n),
        forall|i: int| 0 <= i < marks.len() ==> all_marks[shift + i] == #[trigger] marks[i],
    ensures
        all_marked(nodes, all_marks, shift + n),
{
    assert(all_marks[shift + n] == marks[n]);
    if marks[n].frame is Some {
        assert forall|j: int|
            0 <= j < member_total(nodes[marks[n].frame->0]) implies has_key(
            all_marks,
            #[trigger] all_marks[shift + n].key.push(j),
        ) by {
            lemma_key_shift(marks, all_marks, shift, marks[n].key.push(j));
        }
    }
}

proof fn lemma_key_shift(marks: Seq<Mark>, all_marks: Seq<Mark>, shift: int, key: Seq<int>)
    requires
        0 <= shift,
        shift + marks.len() <= all_marks.len(),
        has_key(marks, key),
        forall|i: int| 0 <= i < marks.len() ==> all_marks[shift + i] == #[trigger] marks[i],
    ensures
        has_key(all_marks, key),
{
    let i = choose|i: int| 0 <= i < marks.len() && (#[trigger] marks[i]).key == key;
    assert(all_marks[shift + i] == marks[i]);
}

/// Whether the records of a frame stand in their order, each but the first below another one, and
/// nothing that happened in their frames is missing.
spec fn in_walk(nodes: Seq<CallTraceNode>, records: Seq<Record>, marks: Seq<Mark>) -> bool {
    &&& in_key_order(marks)
    &&& forall|m: int| 0 < m < records.len() ==> #[trigger] stands_below(nodes, records, marks, m)
    &&& forall|n: int| 0 <= n < marks.len() ==> #[trigger] all_marked(nodes, marks, n)
}

/// Two lists of records, one behind the other.
proof fn lemma_walked_add(
    nodes: Seq<CallTraceNode>,
    head: Record,
    head_mark: Mark,
    a: Seq<Record>,
    am: Seq<Mark>,
    b: Seq<Record>,
    bm: Seq<Mark>,
)
    requires
        walked(nodes, head, head_mark, a, am),
        walked(nodes, head, head_mark, b, bm),
        forall|m: int, n: int|
            0 <= m < am.len() && 0 <= n < bm.len() ==> key_before(
                (#[trigger] am[m]).key,
                (#[trigger] bm[n]).key,
            ),
    ensures
        walked(nodes, head, head_mark, a + b, am + bm),
{
    let (all, allm) = (a + b, am + bm);
    let s = a.len() as int;
    assert forall|n: int| 0 <= n < a.len() implies all[0 + n] == #[trigger] a[n] by {}
    assert forall|n: int| 0 <= n < am.len() implies allm[0 + n] == #[trigger] am[n] by {}
    assert forall|n: int| 0 <= n < b.len() implies all[s + n] == #[trigger] b[n] by {}
    assert forall|n: int| 0 <= n < bm.len() implies allm[s + n] == #[trigger] bm[n] by {}
    assert forall|m: int| 0 <= m < all.len() implies {
        ||| stands_in(nodes, head, head_mark, #[trigger] all[m], allm[m])
        ||| stands_below(nodes, all, allm, m)
    } by {
        if m < s {
            assert(a[m] == all[m] && am[m] == allm[m]);
            if !stands_in(nodes, head, head_mark, a[m], am[m]) {
                lemma_below_shift(nodes, a, am, all, allm, 0, m);
            }
        } else {
            assert(b[m - s] == all[m] && bm[m - s] == allm[m]);
            if !stands_in(nodes, head, head_mark, b[m - s], bm[m - s]) {
                lemma_below_shift(nodes, b, bm, all, allm, s, m - s);
            }
        }
    }
    assert forall|n: int| 0 <= n < allm.len() implies #[trigger] all_marked(nodes, allm, n) by {
        if n < s {
            assert(all_marked(nodes, am, n));
            lemma_marked_shift(nodes, am, allm, 0, n);
        } else {
            assert(all_marked(nodes, bm, n - s));
            lemma_marked_shift(nodes, bm, allm, s, n - s);
        }
    }
    assert forall|m: int, n: int| 0 <= m < n < allm.len() implies key_before(
        (#[trigger] allm[m]).key,
        (#[trigger] allm[n]).key,
    ) by {
        if n < s {
            assert(am[m] == allm[m] && am[n] == allm[n]);
        } else if m < s {
            assert(am[m] == allm[m] && bm[n - s] == allm[n]);
        } else {
            assert(bm[m - s] == allm[m] && bm[n - s] == allm[n]);
        }
    }
}

/// One record.
proof fn lemma_walked_one(
    nodes: Seq<CallTraceNode>,
    head: Record,
    head_mark: Mark,
    record: Record,
    mark: Mark,
)
    requires
        stands_in(nodes, head, head_mark, record, mark),
        mark.frame is None,
    ensures
        walked(nodes, head, head_mark, seq![record], seq![mark]),
{
}

/// A frame in front of what happened in it.
proof fn lemma_walked_head(
    nodes: Seq<CallTraceNode>,
    head: Record,
    head_mark: Mark,
    records: Seq<Record>,
    marks: Seq<Mark>,
)
    requires
        walked(nodes, head, head_mark, records, marks),
        head_mark.frame is Some,
        forall|m: int|
            0 <= m < marks.len() ==> starts_with((#[trigger] marks[m]).key, head_mark.key)
                && marks[m].key.len() > head_mark.key.len(),
        forall|j: int|
            0 <= j < member_total(nodes[head_mark.frame->0]) ==> has_key(
                marks,
                #[trigger] head_mark.key.push(j),
            ),
    ensures
        in_walk(nodes, seq![head] + records, seq![head_mark] + marks),
{
    let (all, allm) = (seq![head] + records, seq![head_mark] + marks);
    assert(all[0] == head && allm[0] == head_mark);
    assert forall|n: int| 0 <= n < records.len() implies all[1 + n] == #[trigger] records[n] by {}
    assert forall|n: int| 0 <= n < marks.len() implies allm[1 + n] == #[trigger] marks[n] by {}
    assert forall|m: int| 0 < m < all.len() implies #[trigger] stands_below(
        nodes,
        all,
        allm,
        m,
    ) by {
        assert(records[m - 1] == all[m] && marks[m - 1] == allm[m]);
        if stands_in(nodes, head, head_mark, records[m - 1], marks[m - 1]) {
            assert(stands_in(nodes, all[0], allm[0], all[m], allm[m]));
        } else {
            lemma_below_shift(nodes, records, marks, all, allm, 1, m - 1);
        }
    }
    assert forall|n: int| 0 <= n < allm.len() implies #[trigger] all_marked(nodes, allm, n) by {
        if n == 0 {
            assert forall|j: int|
                0 <= j < member_total(nodes[head_mark.frame->0]) implies has_key(
                allm,
                #[trigger] allm[0].key.push(j),
            ) by {
                lemma_key_shift(marks, allm, 1, head_mark.key.push(j));
            }
        } else {
            assert(all_marked(nodes, marks, n - 1));
            lemma_marked_shift(nodes, marks, allm, 1, n - 1);
        }
    }
    assert forall|m: int, n: int| 0 <= m < n < allm.len() implies key_before(
        (#[trigger] allm[m]).key,
        (#[trigger] allm[n]).key,
    ) by {
        assert(marks[n - 1] == allm[n]);
        if m == 0 {
            assert(parts_at(allm[m].key, allm[n].key, allm[m].key.len() as int));
        } else {
            assert(marks[m - 1] == allm[m]);
        }
    }
}

/// The trace of a frame at its place holds what the frame holds.
proof fn lemma_frame_trace(nodes: Seq<CallTraceNode>, at: int, depth: nat, place: Place)
    requires
        frames_in_order(nodes, at, depth),
    ensures
        is_frame_trace(frame_trace(nodes, at, depth, place), nodes, at),
{
    law_storage_change(nodes, at, depth);
}

/// What holds of the records of a frame with its marks.
spec fn frame_walked(
    nodes: Seq<CallTraceNode>,
    at: int,
    key: Seq<int>,
    head: Record,
    records: Seq<Record>,
    marks: Seq<Mark>,
) -> bool {
    &&& marks.len() == records.len() > 0
    &&& records[0] == head
    &&& marks[0] == (Mark { key, frame: Some(at) })
    &&& forall|m: int| 0 <= m < marks.len() ==> starts_with((#[trigger] marks[m]).key, key)
    &&& in_walk(nodes, records, marks)
}

proof fn lemma_frame_walked(
    nodes: Seq<CallTraceNode>,
    at: int,
    depth: nat,
    place: Place,
    key: Seq<int>,
)
    requires
        frames_in_order(nodes, at, depth),
    ensures
        frame_walked(
            nodes,
            at,
            key,
            Record::Trace(
                frame_trace(nodes, at, depth, place),
                frame_success(nodes, at, place),
            ),
            frame_records(nodes, at, depth, place),
            frame_marks(nodes, at, depth, key),
        ),
    decreases depth, 1int, 0int,
{
    let node = nodes[at];
    let trace = frame_trace(nodes, at, depth, place);
    let success = frame_success(nodes, at, place);
    let (head, head_mark) = (Record::Trace(trace, success), Mark { key, frame: Some(at) });
    let k = node.ordering@.len() as int;
    let members = member_records(nodes, at, depth, place, k);
    let memberm = member_marks(nodes, at, depth, key, k);
    let count = member_count(node.ordering@, k) as int;
    lemma_member_walked(nodes, at, depth, place, key, k);
    lemma_listed_all(node.ordering@);
    let (last, lastm) = if destroys_itself(node) {
        (
            seq![Record::Trace(destruction_trace(nodes, at, place, trace.id), success)],
            seq![Mark { key: key.push(count), frame: None }],
        )
    } else {
        (Seq::empty(), Seq::empty())
    };
    if destroys_itself(node) {
        let mark = lastm[0];
        assert(mark.key.drop_last() =~= key);
        assert(mark.key.last() == count);
        assert(stands_in(nodes, head, head_mark, last[0], mark)) by {
            reveal(happened);
        }
        lemma_walked_one(nodes, head, head_mark, last[0], mark);
        assert(last =~= seq![last[0]]);
        assert(lastm =~= seq![mark]);
    }
    assert(walked(nodes, head, head_mark, last, lastm));
    assert forall|m: int, n: int|
        0 <= m < memberm.len() && 0 <= n < lastm.len() implies key_before(
        (#[trigger] memberm[m]).key,
        (#[trigger] lastm[n]).key,
    ) by {
        assert(parts_at(memberm[m].key, lastm[n].key, key.len() as int));
    }
    lemma_walked_add(nodes, head, head_mark, members, memberm, last, lastm);
    let (rest, restm) = (members + last, memberm + lastm);
    assert forall|m: int| 0 <= m < restm.len() implies starts_with((#[trigger] restm[m]).key, key)
        && restm[m].key.len() > key.len() by {
        if m < memberm.len() {
            assert(restm[m] == memberm[m]);
        } else {
            assert(restm[m] == lastm[m - memberm.len()]);
        }
    }
    assert forall|j: int| 0 <= j < member_total(node) implies has_key(
        restm,
        #[trigger] key.push(j),
    ) by {
        if j < count {
            assert forall|i: int| 0 <= i < memberm.len() implies restm[0 + i]
                == #[trigger] memberm[i] by {}
            lemma_key_shift(memberm, restm, 0, key.push(j));
        } else {
            assert(restm[memberm.len() as int].key == key.push(j));
        }
    }
    lemma_walked_head(nodes, head, head_mark, rest, restm);
    assert(frame_records(nodes, at, depth, place) =~= seq![head] + rest);
    assert(frame_marks(nodes, at, depth, key) =~= seq![head_mark] + restm);
    let allm = seq![head_mark] + restm;
    assert forall|m: int| 0 <= m < allm.len() implies starts_with(
        (#[trigger] allm[m]).key,
        key,
    ) by {
        if m > 0 {
            assert(allm[m] == restm[m - 1]);
        } else {
            assert(allm[m] == head_mark);
        }
    }
    assert(frame_walked(nodes, at, key, head, seq![head] + rest, allm));
}

proof fn lemma_member_walked(
    nodes: Seq<CallTraceNode>,
    at: int,
    depth: nat,
    place: Place,
    key: Seq<int>,
    k: int,
)
    requires
        frames_in_order(nodes, at, depth),
        0 <= k <= nodes[at].ordering@.len(),
    ensures
        ({
            let head = Record::Trace(
                frame_trace(nodes, at, depth, place),
                frame_success(nodes, at, place),
            );
            let marks = member_marks(nodes, at, depth, key, k);
            &&& walked(
                nodes,
                head,
                Mark { key, frame: Some(at) },
                member_records(nodes, at, depth, place, k),
                marks,
            )
            &&& forall|m: int|
                0 <= m < marks.len() ==> starts_with((#[trigger] marks[m]).key, key)
                    && marks[m].key.len() > key.len() && marks[m].key[key.len() as int]
                    < member_count(nodes[at].ordering@, k)
            &&& forall|j: int|
                0 <= j < member_count(nodes[at].ordering@, k) ==> has_key(
                    marks,
                    #[trigger] key.push(j),
                )
        }),
    decreases depth, 0int, k,
{
    if k > 0 {
        let node = nodes[at];
        let ordering = node.ordering@;
        let trace = frame_trace(nodes, at, depth, place);
        let success = frame_success(nodes, at, place);
        let (head, head_mark) = (Record::Trace(trace, success), Mark { key, frame: Some(at) });
        lemma_member_walked(nodes, at, depth, place, key, k - 1);
        let before = member_records(nodes, at, depth, place, k - 1);
        let beforem = member_marks(nodes, at, depth, key, k - 1);
        let all = member_records(nodes, at, depth, place, k);
        let allm = member_marks(nodes, at, depth, key, k);
        let count = member_count(ordering, k - 1) as int;
        let next = key.push(count);
        let member = ordering[k - 1];
        assert(next.drop_last() =~= key);
        assert(next.last() == count);
        if !(member is Step) {
            lemma_listed(ordering, k - 1);
            let (more, morem) = match member {
                TraceMemberOrder::Call(c) => {
                    let child = node.children@[c as int] as int;
                    let below = member_place(nodes, at, depth, place, k, c, before);
                    (
                        frame_records(nodes, child, (depth - 1) as nat, below),
                        frame_marks(nodes, child, (depth - 1) as nat, next),
                    )
                },
                TraceMemberOrder::Log(l) => {
                    let event = log_event(
                        nodes,
                        at,
                        trace.id,
                        l as int,
                        k - 1,
                        place.log_index + success_events(before),
                    );
                    (seq![Record::Event(event, success)], seq![Mark { key: next, frame: None }])
                },
                TraceMemberOrder::Step(_) => (Seq::empty(), Seq::empty()),
            };
            assert(all =~= before + more);
            assert(allm =~= beforem + morem);
            match member {
                TraceMemberOrder::Call(c) => {
                    let child = node.children@[c as int] as int;
                    let below = member_place(nodes, at, depth, place, k, c, before);
                    lemma_frame_walked(nodes, child, (depth - 1) as nat, below, next);
                    assert(stands_in(nodes, head, head_mark, more[0], morem[0])) by {
                        lemma_frame_trace(nodes, child, (depth - 1) as nat, below);
                        reveal(happened);
                    }
                    assert forall|m: int| 0 <= m < more.len() implies {
                        ||| stands_in(nodes, head, head_mark, #[trigger] more[m], morem[m])
                        ||| stands_below(nodes, more, morem, m)
                    } by {
                        if m > 0 {
                            assert(stands_below(nodes, more, morem, m));
                        }
                    }
                },
                TraceMemberOrder::Log(l) => {
                    assert(stands_in(nodes, head, head_mark, more[0], morem[0])) by {
                        reveal(happened);
                    }
                    lemma_walked_one(nodes, head, head_mark, more[0], morem[0]);
                    assert(more =~= seq![more[0]]);
                    assert(morem =~= seq![morem[0]]);
                },
                TraceMemberOrder::Step(_) => {},
            }
            assert(walked(nodes, head, head_mark, more, morem));
            assert forall|m: int| 0 <= m < morem.len() implies starts_with(
                (#[trigger] morem[m]).key,
                next,
            ) by {}
            assert forall|m: int| 0 <= m < morem.len() implies starts_with(
                (#[trigger] morem[m]).key,
                key,
            ) && morem[m].key.len() > key.len() && morem[m].key[key.len() as int] == count by {
                let this = morem[m].key;
                assert(starts_with(this, next));
                assert(this[key.len() as int] == next[key.len() as int]);
                assert forall|q: int| 0 <= q < key.len() implies this[q] == key[q] by {
                    assert(next[q] == key[q]);
                }
            }
            assert forall|m: int, n: int|
                0 <= m < beforem.len() && 0 <= n < morem.len() implies key_before(
                (#[trigger] beforem[m]).key,
                (#[trigger] morem[n]).key,
            ) by {
                assert(parts_at(beforem[m].key, morem[n].key, key.len() as int));
            }
            lemma_walked_add(nodes, head, head_mark, before, beforem, more, morem);
            let s = beforem.len() as int;
            assert forall|m: int| 0 <= m < allm.len() implies starts_with(
                (#[trigger] allm[m]).key,
                key,
            ) && allm[m].key.len() > key.len() && allm[m].key[key.len() as int] < count + 1 by {
                if m < s {
                    assert(allm[m] == beforem[m]);
                } else {
                    assert(allm[m] == morem[m - s]);
                }
            }
            assert forall|j: int| 0 <= j < count + 1 implies has_key(
                allm,
                #[trigger] key.push(j),
            ) by {
                if j < count {
                    assert forall|i: int| 0 <= i < beforem.len() implies allm[0 + i]
                        == #[trigger] beforem[i] by {}
                    lemma_key_shift(beforem, allm, 0, key.push(j));
                } else {
                    assert(allm[s] == morem[0]);
                    assert(allm[s].key == key.push(j));
                }
            }
        }
    }
}

/// The records of a transaction are those of a walk through its frames, and without frames there
/// are none.
pub proof fn law_walk(tx_id: Seq<u8>, nodes: Seq<CallTraceNode>, log_index: nat)
    requires
        arena_in_order(nodes),
    ensures
        nodes.len() == 0 ==> transaction_records(tx_id, nodes, log_index).len() == 0,
        nodes.len() > 0 ==> exists|marks: Seq<Mark>|
            is_walk(tx_id, nodes, transaction_records(tx_id, nodes, log_index), marks),
{
    if nodes.len() > 0 {
        lemma_walk(tx_id, nodes, log_index);
    }
}

proof fn lemma_walk(tx_id: Seq<u8>, nodes: Seq<CallTraceNode>, log_index: nat)
    requires
        nodes.len() > 0,
        arena_in_order(nodes),
    ensures
        exists|marks: Seq<Mark>|
            is_walk(tx_id, nodes, transaction_records(tx_id, nodes, log_index), marks),
{
    let place = root_place(tx_id, log_index);
    let key = Seq::<int>::empty();
    let marks = frame_marks(nodes, 0, nodes.len(), key);
    lemma_frame_walked(nodes, 0, nodes.len(), place, key);
    lemma_frame_trace(nodes, 0, nodes.len(), place);
    assert(is_walk(tx_id, nodes, transaction_records(tx_id, nodes, log_index), marks));
}

// ---------------------------------------------------------------------------------------------
// Addresses
// ---------------------------------------------------------------------------------------------

/// The frame that is found by following positions among children, from the outermost frame down.
pub open spec fn frame_at(nodes: Seq<CallTraceNode>, address: Seq<usize>) -> Option<int>
    decreases address.len(),
{
    if address.len() == 0 {
        Some(0)
    } else {
        match frame_at(nodes, address.drop_last()) {
            Some(i) if 0 <= i < nodes.len() && address.last() < nodes[i].children@.len() => Some(
                nodes[i].children@[address.last() as int] as int,
            ),
            _ => None,
        }
    }
}

/// Whether the address of a trace leads to a frame, and the trace holds what that frame holds.
pub open spec fn leads_to(trace: TraceModel, nodes: Seq<CallTraceNode>, i: int) -> bool {
    frame_at(nodes, trace.trace_address) == Some(i) && is_frame_trace(trace, nodes, i)
}

/// Whether a trace is that of the frame that entered the frame of another one.
pub open spec fn is_trace_above(above: Record, trace: TraceModel) -> bool {
    &&& above is Trace
    &&& above->Trace_0.id == trace.parent_trace_id
    &&& above->Trace_0.trace_address == trace.trace_address.drop_last()
}

proof fn lemma_addresses(
    tx_id: Seq<u8>,
    nodes: Seq<CallTraceNode>,
    records: Seq<Record>,
    marks: Seq<Mark>,
    m: int,
)
    requires
        is_walk(tx_id, nodes, records, marks),
        0 <= m < records.len(),
    ensures
        records[m] is Trace ==> records[m]->Trace_0.tx_id == prefixed_hex(tx_id),
        marks[m].frame is None ==> records[m] is Event || records[m]->Trace_0.call_create_type
            == "suicide"@,
        marks[m].frame is Some ==> {
            let trace = records[m]->Trace_0;
            &&& records[m] is Trace
            &&& leads_to(trace, nodes, marks[m].frame->0)
            &&& trace.trace_address.len() == marks[m].key.len()
            &&& m == 0 ==> trace.trace_address.len() == 0
            &&& m > 0 ==> trace.trace_address.len() > 0 && exists|n: int|
                0 <= n < m && is_trace_above(#[trigger] records[n], trace)
        },
    decreases m,
{
    if m > 0 {
        assert(stands_below(nodes, records, marks, m));
        let n = choose|n: int|
            0 <= n < m && stands_in(nodes, #[trigger] records[n], marks[n], records[m], marks[m]);
        lemma_addresses(tx_id, nodes, records, marks, n);
        reveal(happened);
        if marks[m].frame is Some {
            let (above, trace) = (records[n]->Trace_0, records[m]->Trace_0);
            assert(trace.trace_address.drop_last() =~= above.trace_address);
            assert(is_trace_above(records[n], trace));
        }
    }
}

/// The address of the trace of a frame leads from the outermost frame through the children down
/// to that very frame, and is that of the trace above it, followed by the position among the
/// children there. The trace of the outermost frame has the empty address.
pub proof fn law_trace_addresses(
    tx_id: Seq<u8>,
    nodes: Seq<CallTraceNode>,
    log_index: nat,
    m: int,
)
    requires
        arena_in_order(nodes),
        0 <= m < transaction_records(tx_id, nodes, log_index).len(),
        transaction_records(tx_id, nodes, log_index)[m] is Trace,
        transaction_records(tx_id, nodes, log_index)[m]->Trace_0.call_create_type != "suicide"@,
    ensures
        ({
            let records = transaction_records(tx_id, nodes, log_index);
            let trace = records[m]->Trace_0;
            &&& trace.tx_id == prefixed_hex(tx_id)
            &&& exists|i: int| leads_to(trace, nodes, i)
            &&& m == 0 ==> trace.trace_address.len() == 0
            &&& m > 0 ==> trace.trace_address.len() > 0 && exists|n: int|
                0 <= n < m && is_trace_above(#[trigger] records[n], trace)
        }),
{
    law_walk(tx_id, nodes, log_index);
    let records = transaction_records(tx_id, nodes, log_index);
    let marks = choose|marks: Seq<Mark>| is_walk(tx_id, nodes, records, marks);
    lemma_addresses(tx_id, nodes, records, marks, m);
    assert(leads_to(records[m]->Trace_0, nodes, marks[m].frame->0));
}

// ---------------------------------------------------------------------------------------------
// The published lists
// ---------------------------------------------------------------------------------------------

/// The four lists of a transaction hold the traces and events that took effect and those that did
/// not, all of them and each list in the order of the records.
pub proof fn law_lists(records: Seq<Record>, success: bool)
    ensures
        ({
            let at = picks(records, |r: Record| r is Trace && r->Trace_1 == success);
            let list = if success { sorted_out(records).0 } else { sorted_out(records).1 };
            &&& list.len() == at.len()
            &&& forall|j: int|
                0 <= j < list.len() ==> (#[trigger] list[j]) == records[at[j]]->Trace_0
        }),
        ({
            let at = picks(records, |r: Record| r is Event && r->Event_1 == success);
            let list = if success { sorted_out(records).2 } else { sorted_out(records).3 };
            &&& list.len() == at.len()
            &&& forall|j: int|
                0 <= j < list.len() ==> (#[trigger] list[j]) == records[at[j]]->Event_0
        }),
{
    lemma_trace_list(records, |r: Record| r is Trace && r->Trace_1 == success, success);
    lemma_event_list(records, |r: Record| r is Event && r->Event_1 == success, success);
}

proof fn lemma_trace_list(records: Seq<Record>, p: spec_fn(Record) -> bool, success: bool)
    requires
        forall|r: Record| #[trigger] p(r) == (r is Trace && r->Trace_1 == success),
    ensures
        traces_of(records, success).len() == picks(records, p).len(),
        forall|j: int|
            0 <= j < picks(records, p).len() ==> (#[trigger] traces_of(records, success)[j])
                == records[picks(records, p)[j]]->Trace_0,
    decreases records.len(),
{
    if records.len() > 0 {
        let init = records.drop_last();
        let last = records[records.len() - 1];
        assert(p(last) == (last is Trace && last->Trace_1 == success));
        lemma_trace_list(init, p, success);
        law_picks(init, p);
        let (before, all) = (picks(init, p), picks(records, p));
        assert forall|j: int| 0 <= j < all.len() implies (#[trigger] traces_of(records, success)[j])
            == records[all[j]]->Trace_0 by {
            if j < before.len() {
                assert(traces_of(records, success)[j] == traces_of(init, success)[j]);
                assert(all[j] == before[j]);
                assert(init[before[j]] == records[before[j]]);
            }
        }
    }
}

proof fn lemma_event_list(records: Seq<Record>, p: spec_fn(Record) -> bool, success: bool)
    requires
        forall|r: Record| #[trigger] p(r) == (r is Event && r->Event_1 == success),
    ensures
        events_of(records, success).len() == picks(records, p).len(),
        forall|j: int|
            0 <= j < picks(records, p).len() ==> (#[trigger] events_of(records, success)[j])
                == records[picks(records, p)[j]]->Event_0,
    decreases records.len(),
{
    if records.len() > 0 {
        let init = records.drop_last();
        let last = records[records.len() - 1];
        assert(p(last) == (last is Event && last->Event_1 == success));
        lemma_event_list(init, p, success);
        law_picks(init, p);
        let (before, all) = (picks(init, p), picks(records, p));
        assert forall|j: int| 0 <= j < all.len() implies (#[trigger] events_of(records, success)[j])
            == records[all[j]]->Event_0 by {
            if j < before.len() {
                assert(events_of(records, success)[j] == events_of(init, success)[j]);
                assert(all[j] == before[j]);
                assert(init[before[j]] == records[before[j]]);
            }
        }
    }
}

/// Each published trace that is not the destruction of an account has an address that leads to a
/// frame, and holds what that frame holds.
pub proof fn law_published_addresses(
    tx_id: Seq<u8>,
    nodes: Seq<CallTraceNode>,
    log_index: nat,
    success: bool,
    j: int,
)
    requires
        arena_in_order(nodes),
        0 <= j < traces_of(transaction_records(tx_id, nodes, log_index), success).len(),
        traces_of(transaction_records(tx_id, nodes, log_index), success)[j].call_create_type
            != "suicide"@,
    ensures
        ({
            let trace = traces_of(transaction_records(tx_id, nodes, log_index), success)[j];
            &&& trace.tx_id == prefixed_hex(tx_id)
            &&& exists|i: int| leads_to(trace, nodes, i)
        }),
{
    let records = transaction_records(tx_id, nodes, log_index);
    let p = |r: Record| r is Trace && r->Trace_1 == success;
    lemma_trace_list(records, p, success);
    law_picks(records, p);
    let m = picks(records, p)[j];
    assert(traces_of(records, success)[j] == records[m]->Trace_0);
    law_trace_addresses(tx_id, nodes, log_index, m);
}

/// An event carries the number that its transaction starts with and the number of events that took
/// effect before it, whether it took effect itself or not.
pub proof fn law_event_index(tx_id: Seq<u8>, nodes: Seq<CallTraceNode>, log_index: nat, m: int)
    requires
        0 <= m < transaction_records(tx_id, nodes, log_index).len(),
        transaction_records(tx_id, nodes, log_index)[m] is Event,
    ensures
        ({
            let records = transaction_records(tx_id, nodes, log_index);
            records[m]->Event_0.idx == log_index + picks(
                records.take(m),
                |r: Record| r is Event && r->Event_1,
            ).len()
        }),
{
    let records = transaction_records(tx_id, nodes, log_index);
    law_log_indices(tx_id, nodes, log_index);
    lemma_effective(records.take(m));
}

proof fn lemma_effective(records: Seq<Record>)
    ensures
        success_events(records) == picks(records, |r: Record| r is Event && r->Event_1).len(),
    decreases records.len(),
{
    if records.len() > 0 {
        lemma_effective(records.drop_last());
    }
}

// ---------------------------------------------------------------------------------------------
// Which frames are in order
// ---------------------------------------------------------------------------------------------

/// Whether every index in a frame points at something, the frames that it entered are among those
/// that are reached and have a lower rank, and one more child can be counted where its account was
/// destroyed.
pub open spec fn frame_sound(
    nodes: Seq<CallTraceNode>,
    reached: Set<int>,
    ranks: Seq<nat>,
    i: int,
) -> bool {
    let node = nodes[i];
    &&& 0 <= i < nodes.len()
    &&& destroyed(node) ==> node.children@.len() < usize::MAX
    &&& forall|k: int|
        0 <= k < node.ordering@.len() ==> {
            &&& #[trigger] node.ordering@[k] is Call ==> {
                let c = node.ordering@[k]->Call_0 as int;
                &&& c < node.children@.len()
                &&& reached.contains(node.children@[c] as int)
                &&& ranks[node.children@[c] as int] < ranks[i]
            }
            &&& node.ordering@[k] is Log ==> node.ordering@[k]->Log_0 < node.logs@.len()
        }
}

proof fn lemma_sound(
    nodes: Seq<CallTraceNode>,
    reached: Set<int>,
    ranks: Seq<nat>,
    at: int,
    depth: nat,
)
    requires
        forall|i: int| #[trigger] reached.contains(i) ==> frame_sound(nodes, reached, ranks, i),
        reached.contains(at),
        depth > ranks[at],
    ensures
        frames_in_order(nodes, at, depth),
    decreases depth,
{
    assert(frame_sound(nodes, reached, ranks, at));
    let ordering = nodes[at].ordering@;
    assert forall|k: int| 0 <= k < ordering.len() implies match #[trigger] ordering[k] {
        TraceMemberOrder::Call(c) => c < nodes[at].children@.len() && frames_in_order(
            nodes,
            nodes[at].children@[c as int] as int,
            (depth - 1) as nat,
        ),
        TraceMemberOrder::Log(l) => l < nodes[at].logs@.len(),
        TraceMemberOrder::Step(_) => true,
    } by {
        if let TraceMemberOrder::Call(c) = ordering[k] {
            let child = nodes[at].children@[c as int] as int;
            lemma_sound(nodes, reached, ranks, child, (depth - 1) as nat);
        }
    }
}

/// Frames are in order if in those that are reached from the outermost one every index points at
/// something, and they can be ranked so that each frame is above those that it entered. As a tracer
/// records them, the later of two frames has the lower rank. What is not reached does not matter.
pub proof fn law_sound_frames(nodes: Seq<CallTraceNode>, reached: Set<int>, ranks: Seq<nat>)
    requires
        nodes.len() > 0 ==> reached.contains(0) && ranks[0] < nodes.len(),
        forall|i: int| #[trigger] reached.contains(i) ==> frame_sound(nodes, reached, ranks, i),
    ensures
        arena_in_order(nodes),
{
    if nodes.len() > 0 {
        lemma_sound(nodes, reached, ranks, 0, nodes.len());
    }
}

} // verus!
