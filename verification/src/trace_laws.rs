//! What holds of the records of every transaction.

use vstd::prelude::*;

use crate::call_trace::{destroys_itself, CallTraceArena, CallTraceNode, TraceMemberOrder};
use crate::primitives::H256;
use crate::records::{event_source, record_id, trace_source, EventModel, TraceModel};
use crate::text::{decimal, lemma_decimal};
use crate::trace_tree::{
    arena_logs, block_transaction_records, destruction_trace, events_of, frame_records,
    frame_success, frame_trace, lemma_records_add, lemma_success_events_add,
    lemma_success_events_push, lemma_transaction_events, log_event, logs_before, member_count,
    member_place,
    member_records, root_place, success_events, traces_of, transaction_records, Place, Record,
};

verus! {

// ---------------------------------------------------------------------------------------------
// Indices of logs
// ---------------------------------------------------------------------------------------------

/// Every event in a list of records carries `start` and the number of effective events before
/// it.
pub open spec fn events_indexed(records: Seq<Record>, start: nat) -> bool {
    forall|m: int|
        0 <= m < records.len() ==> match #[trigger] records[m] {
            Record::Event(event, _) => event.idx == start + success_events(records.take(m)),
            Record::Trace(_, _) => true,
        }
}

proof fn lemma_indexed_add(a: Seq<Record>, b: Seq<Record>, start: nat)
    requires
        events_indexed(a, start),
        events_indexed(b, start + success_events(a)),
    ensures
        events_indexed(a + b, start),
{
    assert forall|m: int| 0 <= m < (a + b).len() implies match #[trigger] (a + b)[m] {
        Record::Event(event, _) => event.idx == start + success_events((a + b).take(m)),
        Record::Trace(_, _) => true,
    } by {
        if m < a.len() {
            assert((a + b).take(m) =~= a.take(m));
            assert(a[m] == (a + b)[m]);
        } else {
            assert((a + b).take(m) =~= a + b.take(m - a.len()));
            assert(b[m - a.len()] == (a + b)[m]);
            lemma_success_events_add(a, b.take(m - a.len()));
        }
    }
}

proof fn lemma_frame_indexed(nodes: Seq<CallTraceNode>, at: int, depth: nat, place: Place)
    ensures
        events_indexed(frame_records(nodes, at, depth, place), place.log_index),
    decreases depth, 1int, 0int,
{
    if depth > 0 {
        let success = frame_success(nodes, at, place);
        let trace = frame_trace(nodes, at, depth, place);
        let k = nodes[at].ordering@.len() as int;
        let members = member_records(nodes, at, depth, place, k);
        lemma_member_indexed(nodes, at, depth, place, k);
        let head = seq![Record::Trace(trace, success)];
        assert(head =~= Seq::<Record>::empty().push(Record::Trace(trace, success)));
        lemma_success_events_push(Seq::empty(), Record::Trace(trace, success));
        assert(events_indexed(head, place.log_index));
        lemma_indexed_add(head, members, place.log_index);
        let last = if destroys_itself(nodes[at]) {
            seq![Record::Trace(destruction_trace(nodes, at, place, trace.id), success)]
        } else {
            Seq::empty()
        };
        lemma_indexed_add(head + members, last, place.log_index);
    }
}

proof fn lemma_member_indexed(nodes: Seq<CallTraceNode>, at: int, depth: nat, place: Place, k: int)
    ensures
        events_indexed(member_records(nodes, at, depth, place, k), place.log_index),
    decreases depth, 0int, k,
{
    if k > 0 && depth > 0 {
        lemma_member_indexed(nodes, at, depth, place, k - 1);
        let before = member_records(nodes, at, depth, place, k - 1);
        match nodes[at].ordering@[k - 1] {
            TraceMemberOrder::Call(c) => {
                let child = nodes[at].children@[c as int] as int;
                let below = member_place(nodes, at, depth, place, k, c, before);
                lemma_frame_indexed(nodes, child, (depth - 1) as nat, below);
                lemma_indexed_add(
                    before,
                    frame_records(nodes, child, (depth - 1) as nat, below),
                    place.log_index,
                );
            },
            TraceMemberOrder::Log(l) => {
                let event = Record::Event(
                    log_event(
                        nodes,
                        at,
                        frame_trace(nodes, at, depth, place).id,
                        l as int,
                        k - 1,
                        place.log_index + success_events(before),
                    ),
                    frame_success(nodes, at, place),
                );
                let one = seq![event];
                assert(one.take(0) =~= Seq::<Record>::empty());
                assert(events_indexed(one, place.log_index + success_events(before)));
                lemma_indexed_add(before, one, place.log_index);
                assert(before.push(event) =~= before + one);
            },
            TraceMemberOrder::Step(_) => {},
        }
    }
}

/// The effective events of a list that is indexed from `start` carry consecutive indices.
proof fn lemma_consecutive(records: Seq<Record>, start: nat)
    requires
        events_indexed(records, start),
    ensures
        events_of(records, true).len() == success_events(records),
        forall|j: int|
            0 <= j < events_of(records, true).len() ==> (#[trigger] events_of(records, true)[j]).idx
                == start + j,
    decreases records.len(),
{
    if records.len() > 0 {
        let init = records.drop_last();
        assert forall|m: int| 0 <= m < init.len() implies match #[trigger] init[m] {
            Record::Event(event, _) => event.idx == start + success_events(init.take(m)),
            Record::Trace(_, _) => true,
        } by {
            assert(init.take(m) =~= records.take(m));
            assert(init[m] == records[m]);
        }
        lemma_consecutive(init, start);
        assert(records.take(records.len() - 1) =~= init);
        assert(records[records.len() - 1] == records.last());
    }
}

/// The event records of a transaction carry the number of effective logs before them, also those
/// of frames that failed, which are not counted themselves. So the effective events of a
/// transaction are numbered without a gap from the number that it starts with.
pub proof fn law_log_indices(tx_id: Seq<u8>, nodes: Seq<CallTraceNode>, log_index: nat)
    ensures
        events_indexed(transaction_records(tx_id, nodes, log_index), log_index),
        events_of(transaction_records(tx_id, nodes, log_index), true).len() == arena_logs(nodes),
        forall|j: int|
            0 <= j < arena_logs(nodes) ==> (#[trigger] events_of(
                transaction_records(tx_id, nodes, log_index),
                true,
            )[j]).idx == log_index + j,
{
    let records = transaction_records(tx_id, nodes, log_index);
    if nodes.len() > 0 {
        lemma_frame_indexed(nodes, 0, nodes.len(), root_place(tx_id, log_index));
    }
    lemma_consecutive(records, log_index);
    lemma_transaction_events(tx_id, nodes, log_index);
}

/// The effective events of the first `k` transactions of a block.
pub open spec fn block_events(txs: Seq<(H256, CallTraceArena)>, k: int) -> Seq<EventModel>
    decreases k,
{
    if k <= 0 {
        Seq::empty()
    } else {
        block_events(txs, k - 1) + events_of(block_transaction_records(txs, k - 1), true)
    }
}

/// The effective events of a block are numbered by their position in the block.
pub proof fn law_block_log_indices(txs: Seq<(H256, CallTraceArena)>, k: int)
    requires
        0 <= k <= txs.len(),
    ensures
        block_events(txs, k).len() == logs_before(txs, k),
        forall|j: int|
            0 <= j < block_events(txs, k).len() ==> (#[trigger] block_events(txs, k)[j]).idx == j,
    decreases k,
{
    if k > 0 {
        law_block_log_indices(txs, k - 1);
        let start = logs_before(txs, k - 1);
        law_log_indices(txs[k - 1].0@, txs[k - 1].1.nodes@, start);
        let before = block_events(txs, k - 1);
        let last = events_of(block_transaction_records(txs, k - 1), true);
        assert forall|j: int| 0 <= j < block_events(txs, k).len() implies (#[trigger] block_events(
            txs,
            k,
        )[j]).idx == j by {
            if j < before.len() {
                assert(block_events(txs, k)[j] == before[j]);
            } else {
                assert(block_events(txs, k)[j] == last[j - before.len()]);
            }
        }
    }
}

// ---------------------------------------------------------------------------------------------
// Identifiers and nesting
// ---------------------------------------------------------------------------------------------

/// Every record of a list carries the identifier that follows from where it stands, and every
/// trace carries the transaction.
pub open spec fn identified(records: Seq<Record>, tx_id: Seq<char>) -> bool {
    forall|m: int|
        0 <= m < records.len() ==> match #[trigger] records[m] {
            Record::Trace(trace, _) => trace.tx_id == tx_id && trace.id == record_id(
                trace_source(trace),
            ),
            Record::Event(event, _) => event.id == record_id(event_source(event)),
        }
}

/// The identifier of the trace that a record stands under.
pub open spec fn parent_of(record: Record) -> Seq<char> {
    match record {
        Record::Trace(trace, _) => trace.parent_trace_id,
        Record::Event(event, _) => event.parent_trace_id,
    }
}

/// Whether a record took effect.
pub open spec fn took_effect(record: Record) -> bool {
    match record {
        Record::Trace(_, success) => success,
        Record::Event(_, success) => success,
    }
}

/// Whether a record may stand under a trace that took effect or not: an event shares the fate of
/// its frame, and a frame takes effect only in one that did.
pub open spec fn effect_fits(record: Record, effect: bool) -> bool {
    &&& took_effect(record) ==> effect
    &&& record is Event ==> took_effect(record) == effect
}

/// Whether a record is the trace that another one stands under, with an effect that fits.
pub open spec fn is_parent(above: Record, record: Record) -> bool {
    &&& above is Trace
    &&& above->Trace_0.id == parent_of(record)
    &&& effect_fits(record, took_effect(above))
}

/// Whether the record at `m` stands under a trace before it in a list, with an effect that fits.
pub open spec fn has_parent(records: Seq<Record>, m: int) -> bool {
    exists|n: int| 0 <= n < m && is_parent(#[trigger] records[n], records[m])
}

/// Every record of a list stands under a trace before it in the list, or under the trace with
/// the given identifier, with an effect that fits.
pub open spec fn nested(records: Seq<Record>, frame_id: Seq<char>, frame_effect: bool) -> bool {
    forall|m: int|
        0 <= m < records.len() ==> {
            ||| parent_of(#[trigger] records[m]) == frame_id && effect_fits(
                records[m],
                frame_effect,
            )
            ||| exists|n: int| 0 <= n < m && is_parent(#[trigger] records[n], records[m])
        }
}

proof fn lemma_nested_add(a: Seq<Record>, b: Seq<Record>, frame_id: Seq<char>, frame_effect: bool)
    requires
        nested(a, frame_id, frame_effect),
        nested(b, frame_id, frame_effect),
    ensures
        nested(a + b, frame_id, frame_effect),
{
    let all = a + b;
    assert forall|m: int| 0 <= m < all.len() implies {
        ||| parent_of(#[trigger] all[m]) == frame_id && effect_fits(all[m], frame_effect)
        ||| exists|n: int| 0 <= n < m && is_parent(#[trigger] all[n], all[m])
    } by {
        let (part, shift) = if m < a.len() { (a, 0) } else { (b, a.len() as int) };
        let here = part[m - shift];
        assert(all[m] == here);
        if !(parent_of(here) == frame_id && effect_fits(here, frame_effect)) {
            let n = choose|n: int| 0 <= n < m - shift && is_parent(#[trigger] part[n], here);
            assert(all[n + shift] == part[n]);
        }
    }
}

/// A trace in front of what stands under it.
proof fn lemma_nested_head(
    head: Record,
    rest: Seq<Record>,
    frame_id: Seq<char>,
    frame_effect: bool,
)
    requires
        head is Trace,
        parent_of(head) == frame_id,
        took_effect(head) ==> frame_effect,
        nested(rest, head->Trace_0.id, took_effect(head)),
    ensures
        nested(seq![head] + rest, frame_id, frame_effect),
        forall|m: int|
            0 < m < (seq![head] + rest).len() ==> #[trigger] has_parent(seq![head] + rest, m),
{
    let all = seq![head] + rest;
    assert(all[0] == head);
    assert forall|m: int| 0 < m < all.len() implies #[trigger] has_parent(all, m) by {
        let here = rest[m - 1];
        assert(all[m] == here);
        if parent_of(here) == head->Trace_0.id && effect_fits(here, took_effect(head)) {
            assert(is_parent(all[0], all[m]));
        } else {
            let n = choose|n: int| 0 <= n < m - 1 && is_parent(#[trigger] rest[n], here);
            assert(all[n + 1] == rest[n]);
        }
    }
    assert forall|m: int| 0 <= m < all.len() implies {
        ||| parent_of(#[trigger] all[m]) == frame_id && effect_fits(all[m], frame_effect)
        ||| exists|n: int| 0 <= n < m && is_parent(#[trigger] all[n], all[m])
    } by {
        if m > 0 {
            assert(has_parent(all, m));
        }
    }
}

/// What holds of the records of a frame at its place.
pub open spec fn records_in_order(records: Seq<Record>, place: Place, effect: bool) -> bool {
    &&& identified(records, place.tx_id)
    &&& nested(records, place.parent_trace_id, place.parent_success)
    &&& forall|m: int| 0 <= m < records.len() ==> (took_effect(#[trigger] records[m]) ==> effect)
    &&& records.len() > 0 ==> parent_of(records[0]) == place.parent_trace_id
    &&& forall|m: int| 0 < m < records.len() ==> #[trigger] has_parent(records, m)
}

/// The records of a frame, at whatever place, carry the identifiers that follow from where they
/// stand and the transaction of the place. The first one stands where the place says, and each
/// one behind it under a trace before it. Nothing takes effect that stands under something that
/// did not, and nothing at all if the frame did not.
pub proof fn law_frame_records(nodes: Seq<CallTraceNode>, at: int, depth: nat, place: Place)
    ensures
        records_in_order(
            frame_records(nodes, at, depth, place),
            place,
            frame_success(nodes, at, place),
        ),
    decreases depth, 1int, 0int,
{
    if depth > 0 {
        let success = frame_success(nodes, at, place);
        let trace = frame_trace(nodes, at, depth, place);
        let k = nodes[at].ordering@.len() as int;
        let members = member_records(nodes, at, depth, place, k);
        lemma_member_in_order(nodes, at, depth, place, k);
        let last = if destroys_itself(nodes[at]) {
            seq![Record::Trace(destruction_trace(nodes, at, place, trace.id), success)]
        } else {
            Seq::empty()
        };
        let rest = members + last;
        assert(nested(last, trace.id, success));
        lemma_nested_add(members, last, trace.id, success);
        lemma_nested_head(
            Record::Trace(trace, success),
            rest,
            place.parent_trace_id,
            place.parent_success,
        );
        let records = frame_records(nodes, at, depth, place);
        assert(records =~= seq![Record::Trace(trace, success)] + rest);
        assert forall|m: int| 0 <= m < records.len() implies match #[trigger] records[m] {
            Record::Trace(t, _) => t.tx_id == place.tx_id && t.id == record_id(trace_source(t)),
            Record::Event(event, _) => event.id == record_id(event_source(event)),
        } && (took_effect(records[m]) ==> success) by {
            if m == 0 {
                assert(records[m] == Record::Trace(trace, success));
            } else if m - 1 < members.len() {
                assert(records[m] == members[m - 1]);
            } else {
                assert(records[m] == last[m - 1 - members.len()]);
            }
        }
    }
}

proof fn lemma_member_in_order(nodes: Seq<CallTraceNode>, at: int, depth: nat, place: Place, k: int)
    ensures
        ({
            let records = member_records(nodes, at, depth, place, k);
            let success = frame_success(nodes, at, place);
            &&& identified(records, place.tx_id)
            &&& nested(records, frame_trace(nodes, at, depth, place).id, success)
            &&& forall|m: int|
                0 <= m < records.len() ==> (took_effect(#[trigger] records[m]) ==> success)
        }),
    decreases depth, 0int, k,
{
    if k > 0 && depth > 0 {
        lemma_member_in_order(nodes, at, depth, place, k - 1);
        let before = member_records(nodes, at, depth, place, k - 1);
        let success = frame_success(nodes, at, place);
        let frame_id = frame_trace(nodes, at, depth, place).id;
        let records = member_records(nodes, at, depth, place, k);
        match nodes[at].ordering@[k - 1] {
            TraceMemberOrder::Call(c) => {
                let child = nodes[at].children@[c as int] as int;
                let below = member_place(nodes, at, depth, place, k, c, before);
                let more = frame_records(nodes, child, (depth - 1) as nat, below);
                law_frame_records(nodes, child, (depth - 1) as nat, below);
                lemma_nested_add(before, more, frame_id, success);
                assert forall|m: int| 0 <= m < records.len() implies match #[trigger] records[m] {
                    Record::Trace(t, _) => t.tx_id == place.tx_id && t.id == record_id(
                        trace_source(t),
                    ),
                    Record::Event(event, _) => event.id == record_id(event_source(event)),
                } && (took_effect(records[m]) ==> success) by {
                    if m < before.len() {
                        assert(records[m] == before[m]);
                    } else {
                        assert(records[m] == more[m - before.len()]);
                    }
                }
            },
            TraceMemberOrder::Log(l) => {
                let event = Record::Event(
                    log_event(
                        nodes,
                        at,
                        frame_id,
                        l as int,
                        k - 1,
                        place.log_index + success_events(before),
                    ),
                    success,
                );
                let one = seq![event];
                assert(nested(one, frame_id, success));
                lemma_nested_add(before, one, frame_id, success);
                assert(before.push(event) =~= before + one);
            },
            TraceMemberOrder::Step(_) => {},
        }
    }
}

/// Every record of a transaction carries the identifier that follows from where it stands, and
/// every trace carries the transaction.
pub proof fn law_identifiers(tx_id: Seq<u8>, nodes: Seq<CallTraceNode>, log_index: nat)
    ensures
        identified(
            transaction_records(tx_id, nodes, log_index),
            root_place(tx_id, log_index).tx_id,
        ),
{
    if nodes.len() > 0 {
        law_frame_records(nodes, 0, nodes.len(), root_place(tx_id, log_index));
    }
}

/// The records of a transaction are nested: the first one stands under no trace, each one behind
/// it stands under a trace before it, an event takes effect if and only if that trace did, and a
/// trace takes effect only if that trace did.
pub proof fn law_nesting(tx_id: Seq<u8>, nodes: Seq<CallTraceNode>, log_index: nat)
    ensures
        nodes.len() > 0 ==> parent_of(transaction_records(tx_id, nodes, log_index)[0])
            == Seq::<char>::empty(),
        forall|m: int|
            0 < m < transaction_records(tx_id, nodes, log_index).len() ==> #[trigger] has_parent(
                transaction_records(tx_id, nodes, log_index),
                m,
            ),
{
    if nodes.len() > 0 {
        law_frame_records(nodes, 0, nodes.len(), root_place(tx_id, log_index));
    }
}

/// Nothing in a transaction takes effect if its outermost frame failed.
pub proof fn law_failed_transaction(tx_id: Seq<u8>, nodes: Seq<CallTraceNode>, log_index: nat)
    requires
        nodes.len() > 0,
        !nodes[0].trace.success,
    ensures
        traces_of(transaction_records(tx_id, nodes, log_index), true).len() == 0,
        events_of(transaction_records(tx_id, nodes, log_index), true).len() == 0,
{
    law_frame_records(nodes, 0, nodes.len(), root_place(tx_id, log_index));
    lemma_none_took_effect(transaction_records(tx_id, nodes, log_index));
}

proof fn lemma_none_took_effect(records: Seq<Record>)
    requires
        forall|m: int| 0 <= m < records.len() ==> !took_effect(#[trigger] records[m]),
    ensures
        traces_of(records, true).len() == 0,
        events_of(records, true).len() == 0,
    decreases records.len(),
{
    if records.len() > 0 {
        let init = records.drop_last();
        assert forall|m: int| 0 <= m < init.len() implies !took_effect(#[trigger] init[m]) by {
            assert(init[m] == records[m]);
        }
        lemma_none_took_effect(init);
        assert(!took_effect(records[records.len() - 1]));
    }
}

// ---------------------------------------------------------------------------------------------
// Positions
// ---------------------------------------------------------------------------------------------

/// The frames and logs of a frame are numbered in order and without a gap: the first one has
/// position zero, and from one to the next the position grows by one.
pub proof fn law_positions(ordering: Seq<TraceMemberOrder>, j: int, k: int)
    requires
        0 <= j < k <= ordering.len(),
        !(ordering[j] is Step),
        forall|m: int| j < m < k ==> #[trigger] ordering[m] is Step,
    ensures
        member_count(ordering, k) == member_count(ordering, j) + 1,
        (forall|m: int| 0 <= m < j ==> #[trigger] ordering[m] is Step) ==> member_count(ordering, j)
            == 0,
{
    lemma_only_steps(ordering, j + 1, k);
    if forall|m: int| 0 <= m < j ==> #[trigger] ordering[m] is Step {
        lemma_only_steps(ordering, 0, j);
    }
}

proof fn lemma_only_steps(ordering: Seq<TraceMemberOrder>, j: int, k: int)
    requires
        0 <= j <= k <= ordering.len(),
        forall|m: int| j <= m < k ==> #[trigger] ordering[m] is Step,
    ensures
        member_count(ordering, k) == member_count(ordering, j),
    decreases k - j,
{
    if j < k {
        lemma_only_steps(ordering, j, k - 1);
        assert(ordering[k - 1] is Step);
    }
}

/// Two numbers with the same decimal text are the same.
proof fn lemma_decimal_unique(a: nat, b: nat)
    requires
        decimal(a) == decimal(b),
    ensures
        a == b,
{
    lemma_decimal(a);
    lemma_decimal(b);
}

/// Under one trace, the position of an event tells it from the others: the texts that their
/// identifiers are made of are different.
pub proof fn law_event_positions(a: EventModel, b: EventModel)
    requires
        a.parent_trace_id == b.parent_trace_id,
        a.pos_in_parent_trace != b.pos_in_parent_trace,
    ensures
        event_source(a) != event_source(b),
{
    let n = a.parent_trace_id.len() as int;
    assert(event_source(a).skip(n) =~= decimal(a.pos_in_parent_trace));
    assert(event_source(b).skip(n) =~= decimal(b.pos_in_parent_trace));
    if event_source(a) == event_source(b) {
        lemma_decimal_unique(a.pos_in_parent_trace, b.pos_in_parent_trace);
    }
}

/// Under one trace, the position of a trace tells it from the others: the texts that their
/// identifiers are made of are different.
pub proof fn law_trace_positions(a: TraceModel, b: TraceModel)
    requires
        a.tx_id == b.tx_id,
        a.parent_trace_id == b.parent_trace_id,
        a.pos_in_parent_trace != b.pos_in_parent_trace,
    ensures
        trace_source(a) != trace_source(b),
{
    let n = (a.tx_id + a.parent_trace_id).len() as int;
    assert(trace_source(a).skip(n) =~= decimal(a.pos_in_parent_trace));
    assert(trace_source(b).skip(n) =~= decimal(b.pos_in_parent_trace));
    if trace_source(a) == trace_source(b) {
        lemma_decimal_unique(a.pos_in_parent_trace, b.pos_in_parent_trace);
    }
}

// ---------------------------------------------------------------------------------------------
// Nothing is lost
// ---------------------------------------------------------------------------------------------

/// Every record of a list is in one of the four lists that it is sorted out into.
pub proof fn law_sorted_out(records: Seq<Record>)
    ensures
        traces_of(records, true).len() + traces_of(records, false).len() + events_of(
            records,
            true,
        ).len() + events_of(records, false).len() == records.len(),
        forall|m: int|
            0 <= m < records.len() ==> match #[trigger] records[m] {
                Record::Trace(trace, success) => traces_of(records, success).contains(trace),
                Record::Event(event, success) => events_of(records, success).contains(event),
            },
    decreases records.len(),
{
    if records.len() > 0 {
        let init = records.drop_last();
        law_sorted_out(init);
        assert forall|m: int| 0 <= m < records.len() implies match #[trigger] records[m] {
            Record::Trace(trace, success) => traces_of(records, success).contains(trace),
            Record::Event(event, success) => events_of(records, success).contains(event),
        } by {
            let one = seq![records.last()];
            assert(init + one =~= records);
            lemma_records_add(init, one, took_effect(records[m]));
            if m < init.len() {
                assert(init[m] == records[m]);
                match records[m] {
                    Record::Trace(trace, success) => {
                        let j = choose|j: int|
                            0 <= j < traces_of(init, success).len() && traces_of(init, success)[j]
                                == trace;
                        assert(traces_of(records, success)[j] == trace);
                    },
                    Record::Event(event, success) => {
                        let j = choose|j: int|
                            0 <= j < events_of(init, success).len() && events_of(init, success)[j]
                                == event;
                        assert(events_of(records, success)[j] == event);
                    },
                }
            } else {
                match records[m] {
                    Record::Trace(trace, success) => {
                        assert(traces_of(records, success).last() == trace);
                    },
                    Record::Event(event, success) => {
                        assert(events_of(records, success).last() == event);
                    },
                }
            }
        }
    }
}

} // verus!
