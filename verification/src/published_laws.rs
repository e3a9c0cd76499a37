//! What holds of the published lists of every transaction.

use vstd::prelude::*;
use vstd::seq_lib::*;

use crate::call_trace::{destroys_itself, execution_account, CallTraceNode, TraceMemberOrder};
use crate::lists::{lemma_filter_map_add, lemma_filter_map_order};
use crate::records::{create_type, is_id, trace_of_node, TraceModel};
use crate::trace_laws::{has_parent, is_parent, law_frame_records, law_sorted_out, parent_of};
use crate::trace_tree::{
    arena_in_order, destruction_trace, events_of, frame_records, frame_success, frame_trace,
    frames_in_order, id_of, ids_formed, lemma_records_add, lists_formed, log_event, member_place,
    member_records, one_outermost, root_place, sorted_out, success_events, traces_of,
    transaction_records, Place, Record,
};

verus! {

// ---------------------------------------------------------------------------------------------
// Identifiers
// ---------------------------------------------------------------------------------------------

/// The lists of records whose identifiers are in form: one trace in them stands under no trace,
/// and it comes first in its list.
pub proof fn lemma_one_outermost(records: Seq<Record>)
    requires
        records.len() > 0,
        records[0] is Trace,
        parent_of(records[0]).len() == 0,
        ids_formed(records),
        forall|m: int| 0 < m < records.len() ==> #[trigger] has_parent(records, m),
    ensures
        lists_formed(sorted_out(records)),
        one_outermost(sorted_out(records), records[0]->Trace_1),
    decreases records.len(),
{
    let init = records.drop_last();
    let last = records[records.len() - 1];
    assert(is_id(id_of(last)));
    if records.len() > 1 {
        assert forall|m: int| 0 <= m < init.len() implies is_id(id_of(#[trigger] init[m])) by {
            assert(init[m] == records[m]);
        }
        assert forall|m: int| 0 < m < init.len() implies #[trigger] has_parent(init, m) by {
            assert(has_parent(records, m));
            let n = choose|n: int| 0 <= n < m && is_parent(#[trigger] records[n], records[m]);
            assert(init[n] == records[n] && init[m] == records[m]);
        }
        lemma_one_outermost(init);
        assert(has_parent(records, records.len() - 1));
        let n = choose|n: int|
            0 <= n < records.len() - 1 && is_parent(#[trigger] records[n], last);
        assert(is_id(id_of(records[n])));
        assert(is_id(parent_of(last)));
    } else {
        assert(traces_of(init, true).len() == 0 && traces_of(init, false).len() == 0);
        assert(events_of(init, true).len() == 0 && events_of(init, false).len() == 0);
    }
    lemma_lists_last(records, true);
    lemma_lists_last(records, false);
    lemma_listed_ids(records, true);
    lemma_listed_ids(records, false);
}

/// The identifiers in the lists are those of the records.
proof fn lemma_listed_ids(records: Seq<Record>, success: bool)
    requires
        ids_formed(records),
    ensures
        forall|j: int|
            0 <= j < traces_of(records, success).len() ==> is_id(
                (#[trigger] traces_of(records, success)[j]).id,
            ),
        forall|j: int|
            0 <= j < events_of(records, success).len() ==> is_id(
                (#[trigger] events_of(records, success)[j]).id,
            ),
    decreases records.len(),
{
    if records.len() > 0 {
        let init = records.drop_last();
        assert forall|m: int| 0 <= m < init.len() implies is_id(id_of(#[trigger] init[m])) by {
            assert(init[m] == records[m]);
        }
        assert(is_id(id_of(records[records.len() - 1])));
        lemma_listed_ids(init, success);
        lemma_lists_last(records, success);
    }
}

/// The lists of some records, with the last record told apart.
proof fn lemma_lists_last(records: Seq<Record>, success: bool)
    requires
        records.len() > 0,
    ensures
        traces_of(records, success) == match records[records.len() - 1] {
            Record::Trace(trace, s) if s == success => traces_of(
                records.drop_last(),
                success,
            ).push(trace),
            _ => traces_of(records.drop_last(), success),
        },
        events_of(records, success) == match records[records.len() - 1] {
            Record::Event(event, s) if s == success => events_of(
                records.drop_last(),
                success,
            ).push(event),
            _ => events_of(records.drop_last(), success),
        },
{
}

// ---------------------------------------------------------------------------------------------
// Parents
// ---------------------------------------------------------------------------------------------

/// Whether a list of traces has one with this identifier before position `j`.
pub open spec fn listed_before(traces: Seq<TraceModel>, id: Seq<char>, j: int) -> bool {
    exists|i: int| 0 <= i < j && (#[trigger] traces[i]).id == id
}

proof fn lemma_listed(records: Seq<Record>, success: bool, n: int)
    requires
        0 <= n < records.len(),
        records[n] is Trace,
        records[n]->Trace_1 == success,
    ensures
        listed_before(
            traces_of(records, success),
            records[n]->Trace_0.id,
            traces_of(records, success).len() as int,
        ),
{
    law_sorted_out(records);
    let list = traces_of(records, success);
    let trace = records[n]->Trace_0;
    assert(list.contains(trace));
    let i = choose|i: int| 0 <= i < list.len() && list[i] == trace;
    assert(list[i].id == trace.id);
}

proof fn lemma_parents(records: Seq<Record>)
    requires
        records.len() > 0,
        records[0] is Trace,
        forall|m: int| 0 < m < records.len() ==> #[trigger] has_parent(records, m),
    ensures
        forall|j: int|
            0 < j < traces_of(records, true).len() ==> #[trigger] listed_before(
                traces_of(records, true),
                traces_of(records, true)[j].parent_trace_id,
                j,
            ),
        traces_of(records, true).len() > 0 ==> traces_of(records, true)[0]
            == records[0]->Trace_0 && records[0]->Trace_1,
        forall|success: bool, j: int|
            0 <= j < (#[trigger] events_of(records, success)).len() ==> #[trigger] listed_before(
                traces_of(records, success),
                events_of(records, success)[j].parent_trace_id,
                traces_of(records, success).len() as int,
            ),
    decreases records.len(),
{
    let init = records.drop_last();
    let k = records.len() - 1;
    let last = records[k];
    let one = seq![last];
    assert(init + one =~= records);
    if k > 0 {
        assert forall|m: int| 0 < m < init.len() implies #[trigger] has_parent(init, m) by {
            assert(has_parent(records, m));
            let n = choose|n: int| 0 <= n < m && is_parent(#[trigger] records[n], records[m]);
            assert(init[n] == records[n] && init[m] == records[m]);
        }
        lemma_parents(init);
        assert(has_parent(records, k));
        let n = choose|n: int| 0 <= n < k && is_parent(#[trigger] records[n], last);
        assert(init[n] == records[n]);
        lemma_listed(init, records[n]->Trace_1, n);
    }
    let (old_list, list) = (traces_of(init, true), traces_of(records, true));
    assert forall|j: int| 0 < j < list.len() implies #[trigger] listed_before(
        list,
        list[j].parent_trace_id,
        j,
    ) by {
        if j < old_list.len() {
            assert(list[j] == old_list[j]);
            assert(listed_before(old_list, old_list[j].parent_trace_id, j));
            let i = choose|i: int|
                0 <= i < j && (#[trigger] old_list[i]).id == old_list[j].parent_trace_id;
            assert(list[i] == old_list[i]);
        } else {
            assert(k > 0);
            let i = choose|i: int|
                0 <= i < old_list.len() && (#[trigger] old_list[i]).id == parent_of(last);
            assert(list[i] == old_list[i]);
        }
    }
    if k == 0 {
        assert(old_list.len() == 0);
    } else if old_list.len() == 0 && list.len() > 0 {
        assert(listed_before(old_list, parent_of(last), 0));
    }
    assert forall|success: bool, j: int|
        0 <= j < (#[trigger] events_of(records, success)).len() implies #[trigger] listed_before(
        traces_of(records, success),
        events_of(records, success)[j].parent_trace_id,
        traces_of(records, success).len() as int,
    ) by {
        let (old_events, events) = (events_of(init, success), events_of(records, success));
        let (old_traces, traces) = (traces_of(init, success), traces_of(records, success));
        assert(j < old_events.len() ==> events[j] == old_events[j]);
        assert(listed_before(
            old_traces,
            events[j].parent_trace_id,
            old_traces.len() as int,
        )) by {
            if j < old_events.len() {
                assert(listed_before(
                    old_traces,
                    old_events[j].parent_trace_id,
                    old_traces.len() as int,
                ));
            } else {
                assert(k > 0);
            }
        }
        let i = choose|i: int|
            0 <= i < old_traces.len() && (#[trigger] old_traces[i]).id == events[j].parent_trace_id;
        assert(traces[i] == old_traces[i]);
    }
}

/// In the published lists of a transaction, each trace that took effect stands behind the trace
/// that it stands under, but for the first one. The trace of an event is listed with the traces
/// that took effect if the event is listed with the events that did, and with those that did not
/// if it is not.
pub proof fn law_published_parents(tx_id: Seq<u8>, nodes: Seq<CallTraceNode>, log_index: nat)
    ensures
        ({
            let (traces, error_traces, events, error_events) = sorted_out(
                transaction_records(tx_id, nodes, log_index),
            );
            &&& forall|j: int|
                0 < j < traces.len() ==> #[trigger] listed_before(
                    traces,
                    traces[j].parent_trace_id,
                    j,
                )
            &&& forall|j: int|
                0 <= j < events.len() ==> listed_before(
                    traces,
                    (#[trigger] events[j]).parent_trace_id,
                    traces.len() as int,
                )
            &&& forall|j: int|
                0 <= j < error_events.len() ==> listed_before(
                    error_traces,
                    (#[trigger] error_events[j]).parent_trace_id,
                    error_traces.len() as int,
                )
        }),
{
    let records = transaction_records(tx_id, nodes, log_index);
    if nodes.len() > 0 {
        law_frame_records(nodes, 0, nodes.len(), root_place(tx_id, log_index));
        assert(records[0] is Trace);
        lemma_parents(records);
        let (traces, error_traces, events, error_events) = sorted_out(records);
        assert forall|j: int| 0 <= j < events.len() implies listed_before(
            traces,
            (#[trigger] events[j]).parent_trace_id,
            traces.len() as int,
        ) by {
            assert(events_of(records, true) == events);
            assert(listed_before(
                traces_of(records, true),
                events_of(records, true)[j].parent_trace_id,
                traces_of(records, true).len() as int,
            ));
        }
        assert forall|j: int| 0 <= j < error_events.len() implies listed_before(
            error_traces,
            (#[trigger] error_events[j]).parent_trace_id,
            error_traces.len() as int,
        ) by {
            assert(listed_before(
                traces_of(records, false),
                events_of(records, false)[j].parent_trace_id,
                traces_of(records, false).len() as int,
            ));
        }
    }
}

// ---------------------------------------------------------------------------------------------
// Accounts of events
// ---------------------------------------------------------------------------------------------

/// Whether a trace is that of a frame.
pub open spec fn is_trace_of(trace: TraceModel, node: CallTraceNode) -> bool {
    &&& trace.from_addr == node.trace.caller@
    &&& trace.to_addr == node.trace.address@
    &&& trace.value == node.trace.value@
    &&& trace.input == node.trace.data@
    &&& trace.call_create_type == create_type(node.trace.kind)
    &&& trace.call_type == trace_of_node(node).call_type
}

/// Whether an event names the account in whose storage the frame at `i` ran, and that frame is
/// the one whose trace the event stands under.
pub open spec fn emitted_in(
    above: Record,
    record: Record,
    nodes: Seq<CallTraceNode>,
    i: int,
) -> bool {
    &&& 0 <= i < nodes.len()
    &&& above is Trace && record is Event
    &&& above->Trace_0.id == record->Event_0.parent_trace_id
    &&& is_trace_of(above->Trace_0, nodes[i])
    &&& record->Event_0.contract_id == execution_account(nodes[i])@
}

/// Whether the event at `m` stands under the trace of a frame before it, and names the account
/// in whose storage that frame ran.
pub open spec fn names_account(records: Seq<Record>, nodes: Seq<CallTraceNode>, m: int) -> bool {
    exists|n: int, i: int|
        0 <= n < m && #[trigger] emitted_in(records[n], records[m], nodes, i)
}

/// Each event of a list names the right account, or stands under the trace with the given
/// identifier and names the account of the frame at `at`.
spec fn accounts_named(
    records: Seq<Record>,
    nodes: Seq<CallTraceNode>,
    at: int,
    frame_id: Seq<char>,
) -> bool {
    forall|m: int|
        0 <= m < records.len() && #[trigger] records[m] is Event ==> {
            ||| records[m]->Event_0.parent_trace_id == frame_id && records[m]->Event_0.contract_id
                == execution_account(nodes[at])@
            ||| names_account(records, nodes, m)
        }
}

proof fn lemma_names_shift(
    records: Seq<Record>,
    all: Seq<Record>,
    nodes: Seq<CallTraceNode>,
    m: int,
    shift: int,
)
    requires
        0 <= m < records.len(),
        0 <= shift,
        shift + records.len() <= all.len(),
        forall|n: int| 0 <= n < records.len() ==> all[shift + n] == #[trigger] records[n],
        names_account(records, nodes, m),
    ensures
        names_account(all, nodes, shift + m),
{
    let (n, i) = choose|n: int, i: int|
        0 <= n < m && #[trigger] emitted_in(records[n], records[m], nodes, i);
    assert(all[shift + n] == records[n] && all[shift + m] == records[m]);
    assert(emitted_in(all[shift + n], all[shift + m], nodes, i));
}

/// Each event of a frame, at whatever place, and of the frames below it stands under the trace
/// of the frame that emitted it, and names the account in whose storage that frame ran.
pub proof fn law_frame_accounts(nodes: Seq<CallTraceNode>, at: int, depth: nat, place: Place)
    requires
        frames_in_order(nodes, at, depth),
    ensures
        forall|m: int|
            0 <= m < frame_records(nodes, at, depth, place).len() && #[trigger] frame_records(
                nodes,
                at,
                depth,
                place,
            )[m] is Event ==> names_account(frame_records(nodes, at, depth, place), nodes, m),
    decreases depth, 1int, 0int,
{
    let trace = frame_trace(nodes, at, depth, place);
    let k = nodes[at].ordering@.len() as int;
    let members = member_records(nodes, at, depth, place, k);
    lemma_member_accounts(nodes, at, depth, place, k);
    let all = frame_records(nodes, at, depth, place);
    let success = frame_success(nodes, at, place);
    let last = if destroys_itself(nodes[at]) {
        seq![Record::Trace(destruction_trace(nodes, at, place, trace.id), success)]
    } else {
        Seq::empty()
    };
    assert(all == seq![Record::Trace(trace, success)] + members + last);
    assert(all[0] == Record::Trace(trace, success));
    assert forall|n: int| 0 <= n < members.len() implies all[1 + n] == #[trigger] members[n] by {}
    assert forall|m: int| 0 <= m < all.len() && #[trigger] all[m] is Event implies names_account(
        all,
        nodes,
        m,
    ) by {
        if m - 1 < members.len() {
            let here = members[m - 1];
            assert(all[m] == here);
            if names_account(members, nodes, m - 1) {
                lemma_names_shift(members, all, nodes, m - 1, 1);
            } else {
                assert(emitted_in(all[0], all[m], nodes, at));
            }
        } else {
            assert(all[m] == last[m - 1 - members.len()]);
        }
    }
}

proof fn lemma_member_accounts(
    nodes: Seq<CallTraceNode>,
    at: int,
    depth: nat,
    place: Place,
    k: int,
)
    requires
        frames_in_order(nodes, at, depth),
        k <= nodes[at].ordering@.len(),
    ensures
        accounts_named(
            member_records(nodes, at, depth, place, k),
            nodes,
            at,
            frame_trace(nodes, at, depth, place).id,
        ),
    decreases depth, 0int, k,
{
    if k > 0 {
        lemma_member_accounts(nodes, at, depth, place, k - 1);
        let frame_id = frame_trace(nodes, at, depth, place).id;
        let before = member_records(nodes, at, depth, place, k - 1);
        let all = member_records(nodes, at, depth, place, k);
        let member = nodes[at].ordering@[k - 1];
        let more = match member {
            TraceMemberOrder::Call(c) => frame_records(
                nodes,
                nodes[at].children@[c as int] as int,
                (depth - 1) as nat,
                member_place(nodes, at, depth, place, k, c, before),
            ),
            TraceMemberOrder::Log(l) => seq![
                Record::Event(
                    log_event(
                        nodes,
                        at,
                        frame_id,
                        l as int,
                        k - 1,
                        place.log_index + success_events(before),
                    ),
                    frame_success(nodes, at, place),
                ),
            ],
            TraceMemberOrder::Step(_) => Seq::empty(),
        };
        assert(all =~= before + more);
        if let TraceMemberOrder::Call(c) = member {
            law_frame_accounts(
                nodes,
                nodes[at].children@[c as int] as int,
                (depth - 1) as nat,
                member_place(nodes, at, depth, place, k, c, before),
            );
        }
        assert forall|n: int| 0 <= n < before.len() implies all[0 + n] == #[trigger] before[n] by {}
        let shift = before.len() as int;
        assert forall|n: int| 0 <= n < more.len() implies all[shift + n] == #[trigger] more[n] by {}
        assert forall|m: int| 0 <= m < all.len() && #[trigger] all[m] is Event implies {
            ||| all[m]->Event_0.parent_trace_id == frame_id && all[m]->Event_0.contract_id
                == execution_account(nodes[at])@
            ||| names_account(all, nodes, m)
        } by {
            if m < shift {
                assert(all[m] == before[m]);
                if names_account(before, nodes, m) {
                    lemma_names_shift(before, all, nodes, m, 0);
                }
            } else {
                assert(all[m] == more[m - shift]);
                if member is Call {
                    lemma_names_shift(more, all, nodes, m - shift, shift);
                }
            }
        }
    }
}

/// Each event of a transaction stands under the trace of the frame that emitted it, and names
/// the account in whose storage that frame ran.
pub proof fn law_event_accounts(
    tx_id: Seq<u8>,
    nodes: Seq<CallTraceNode>,
    log_index: nat,
    m: int,
)
    requires
        arena_in_order(nodes),
        0 <= m < transaction_records(tx_id, nodes, log_index).len(),
        transaction_records(tx_id, nodes, log_index)[m] is Event,
    ensures
        names_account(transaction_records(tx_id, nodes, log_index), nodes, m),
{
    law_frame_accounts(nodes, 0, nodes.len(), root_place(tx_id, log_index));
}

// ---------------------------------------------------------------------------------------------
// Number of traces
// ---------------------------------------------------------------------------------------------

/// The frames that are reached from the frame at `at`, in the order in which they are reached.
pub open spec fn frames_reached(nodes: Seq<CallTraceNode>, at: int, depth: nat) -> Seq<int>
    decreases depth, 1int, 0int,
{
    if depth == 0 {
        Seq::empty()
    } else {
        seq![at] + members_reached(nodes, at, depth, nodes[at].ordering@.len() as int)
    }
}

/// The frames that are reached by the first `k` things that happened in a frame.
pub open spec fn members_reached(
    nodes: Seq<CallTraceNode>,
    at: int,
    depth: nat,
    k: int,
) -> Seq<int>
    decreases depth, 0int, k,
{
    if k <= 0 || depth == 0 {
        Seq::empty()
    } else {
        let before = members_reached(nodes, at, depth, k - 1);
        match nodes[at].ordering@[k - 1] {
            TraceMemberOrder::Call(c) => before + frames_reached(
                nodes,
                nodes[at].children@[c as int] as int,
                (depth - 1) as nat,
            ),
            _ => before,
        }
    }
}

/// The frames of a list of frames that destroyed their accounts.
pub open spec fn destroying(nodes: Seq<CallTraceNode>, frames: Seq<int>) -> Seq<int> {
    frames.filter_map(|i: int| if destroys_itself(nodes[i]) { Some(i) } else { None })
}

/// How many of some frames destroyed their accounts.
pub open spec fn destructions(nodes: Seq<CallTraceNode>) -> nat
    decreases nodes.len(),
{
    if nodes.len() == 0 {
        0
    } else {
        destructions(nodes.drop_last()) + if destroys_itself(nodes.last()) { 1nat } else { 0 }
    }
}

/// The number of traces in a list of records.
spec fn trace_total(records: Seq<Record>) -> nat {
    traces_of(records, true).len() + traces_of(records, false).len()
}

proof fn lemma_total_add(a: Seq<Record>, b: Seq<Record>)
    ensures
        trace_total(a + b) == trace_total(a) + trace_total(b),
{
    lemma_records_add(a, b, true);
    lemma_records_add(a, b, false);
}

proof fn lemma_total_one(record: Record)
    ensures
        trace_total(seq![record]) == if record is Trace { 1nat } else { 0 },
{
    let none = seq![record].drop_last();
    assert(traces_of(none, true).len() == 0 && traces_of(none, false).len() == 0);
    assert(seq![record].last() == record);
}

proof fn lemma_frame_total(nodes: Seq<CallTraceNode>, at: int, depth: nat, place: Place)
    ensures
        ({
            let reached = frames_reached(nodes, at, depth);
            trace_total(frame_records(nodes, at, depth, place)) == reached.len() + destroying(
                nodes,
                reached,
            ).len()
        }),
    decreases depth, 1int, 0int,
{
    if depth > 0 {
        let f = |i: int| if destroys_itself(nodes[i]) { Some(i) } else { None };
        let k = nodes[at].ordering@.len() as int;
        let trace = frame_trace(nodes, at, depth, place);
        let success = frame_success(nodes, at, place);
        let head = seq![Record::Trace(trace, success)];
        let members = member_records(nodes, at, depth, place, k);
        lemma_member_total(nodes, at, depth, place, k);
        let destruction = Record::Trace(destruction_trace(nodes, at, place, trace.id), success);
        lemma_total_one(Record::Trace(trace, success));
        lemma_total_one(destruction);
        lemma_total_add(head, members);
        lemma_total_add(head + members, seq![destruction]);
        assert(head + members + Seq::<Record>::empty() =~= head + members);
        let below = members_reached(nodes, at, depth, k);
        lemma_filter_map_add(seq![at], below, f);
        Seq::lemma_filter_map_singleton(at, f);
        assert(destroying(nodes, seq![at] + below) == (seq![at] + below).filter_map(f));
        assert(destroying(nodes, below) == below.filter_map(f));
    }
}

proof fn lemma_member_total(
    nodes: Seq<CallTraceNode>,
    at: int,
    depth: nat,
    place: Place,
    k: int,
)
    ensures
        ({
            let reached = members_reached(nodes, at, depth, k);
            trace_total(member_records(nodes, at, depth, place, k)) == reached.len() + destroying(
                nodes,
                reached,
            ).len()
        }),
    decreases depth, 0int, k,
{
    let f = |i: int| if destroys_itself(nodes[i]) { Some(i) } else { None };
    if k > 0 && depth > 0 {
        lemma_member_total(nodes, at, depth, place, k - 1);
        let before = member_records(nodes, at, depth, place, k - 1);
        let reached = members_reached(nodes, at, depth, k - 1);
        match nodes[at].ordering@[k - 1] {
            TraceMemberOrder::Call(c) => {
                let child = nodes[at].children@[c as int] as int;
                let below = member_place(nodes, at, depth, place, k, c, before);
                lemma_frame_total(nodes, child, (depth - 1) as nat, below);
                lemma_total_add(before, frame_records(nodes, child, (depth - 1) as nat, below));
                let more = frames_reached(nodes, child, (depth - 1) as nat);
                lemma_filter_map_add(reached, more, f);
                assert(destroying(nodes, reached + more) == (reached + more).filter_map(f));
                assert(destroying(nodes, reached) == reached.filter_map(f));
                assert(destroying(nodes, more) == more.filter_map(f));
            },
            TraceMemberOrder::Log(l) => {
                let event = Record::Event(
                    log_event(
                        nodes,
                        at,
                        frame_trace(nodes, at, depth, place).id,
                        l as int,
                        k - 1,
                        place.log_index + success_events(before),
                    ),
                    frame_success(nodes, at, place),
                );
                lemma_total_one(event);
                lemma_total_add(before, seq![event]);
                assert(before.push(event) =~= before + seq![event]);
            },
            TraceMemberOrder::Step(_) => {},
        }
    } else {
        assert(members_reached(nodes, at, depth, k) =~= Seq::<int>::empty());
    }
}

proof fn lemma_destructions(nodes: Seq<CallTraceNode>, k: int)
    requires
        0 <= k <= nodes.len(),
    ensures
        destroying(nodes, Seq::new(k as nat, |i: int| i)).len() == destructions(nodes.take(k)),
    decreases k,
{
    let all = Seq::new(k as nat, |i: int| i);
    if k > 0 {
        lemma_destructions(nodes, k - 1);
        assert(all.drop_last() =~= Seq::new((k - 1) as nat, |i: int| i));
        assert(all.last() == k - 1);
        assert(nodes.take(k).drop_last() =~= nodes.take(k - 1));
        assert(nodes.take(k).last() == nodes[k - 1]);
    } else {
        assert(all =~= Seq::<int>::empty());
    }
}

/// A transaction all of whose frames are reached once from the outermost one has as many traces
/// as frames, and one more for each frame that destroyed its account.
pub proof fn law_trace_count(tx_id: Seq<u8>, nodes: Seq<CallTraceNode>, log_index: nat)
    requires
        nodes.len() > 0,
        frames_reached(nodes, 0, nodes.len()).to_multiset() == Seq::new(
            nodes.len(),
            |i: int| i,
        ).to_multiset(),
    ensures
        ({
            let (traces, error_traces, _, _) = sorted_out(
                transaction_records(tx_id, nodes, log_index),
            );
            traces.len() + error_traces.len() == nodes.len() + destructions(nodes)
        }),
{
    broadcast use group_to_multiset_ensures;

    let f = |i: int| if destroys_itself(nodes[i]) { Some(i) } else { None };
    let reached = frames_reached(nodes, 0, nodes.len());
    let all = Seq::new(nodes.len(), |i: int| i);
    lemma_frame_total(nodes, 0, nodes.len(), root_place(tx_id, log_index));
    lemma_filter_map_order(reached, all, f);
    assert(reached.len() == reached.to_multiset().len());
    assert(all.len() == all.to_multiset().len());
    assert(destroying(nodes, reached) == reached.filter_map(f));
    assert(destroying(nodes, all) == all.filter_map(f));
    assert(reached.filter_map(f).len() == reached.filter_map(f).to_multiset().len());
    assert(all.filter_map(f).len() == all.filter_map(f).to_multiset().len());
    lemma_destructions(nodes, nodes.len() as int);
    assert(nodes.take(nodes.len() as int) =~= nodes);
}

} // verus!
