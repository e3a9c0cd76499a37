//! What holds of the tree of a transaction and of its records.

use vstd::prelude::*;

use crate::records::TraceModel;
use crate::trace_tree::{
    item_records, items_settled, tree_records, tree_settled, DebankTraceNode, DebankTraceOrLog,
    Record,
};

verus! {

/// Whether the members of two trees hold the same.
pub open spec fn same_items(a: Seq<DebankTraceOrLog>, b: Seq<DebankTraceOrLog>) -> bool
    decreases a,
{
    &&& a.len() == b.len()
    &&& forall|i: int|
        0 <= i < a.len() ==> match #[trigger] a[i] {
            DebankTraceOrLog::Trace(x) => {
                &&& b[i] is Trace
                &&& b[i]->Trace_0.trace@ == x.trace@
                &&& b[i]->Trace_0.success == x.success
                &&& same_items(x.children@, b[i]->Trace_0.children@)
            },
            DebankTraceOrLog::Log(x) => b[i] is Log && b[i]->Log_0@ == x@,
        }
}

/// Whether two trees hold the same.
pub open spec fn same_tree(a: DebankTraceNode, b: DebankTraceNode) -> bool {
    &&& a.trace@ == b.trace@
    &&& a.success == b.success
    &&& same_items(a.children@, b.children@)
}

/// The records of members do not change when the members are given the right identifiers.
proof fn lemma_settled_records(
    before: Seq<DebankTraceOrLog>,
    after: Seq<DebankTraceOrLog>,
    frame_id: Seq<char>,
    success: bool,
)
    requires
        items_settled(before, after, frame_id),
    ensures
        item_records(after, frame_id, success) == item_records(before, frame_id, success),
    decreases before,
{
    if before.len() > 0 {
        let (b, a) = (before.drop_last(), after.drop_last());
        assert forall|i: int| 0 <= i < b.len() implies b[i] == #[trigger] before[i] && a[i]
            == after[i] by {}
        assert(items_settled(b, a, frame_id));
        lemma_settled_records(b, a, frame_id, success);
        let (x, y) = (before[before.len() - 1], after[after.len() - 1]);
        match x {
            DebankTraceOrLog::Trace(x) => {
                let y = y->Trace_0;
                lemma_settled_records(x.children@, y.children@, x.trace@.id, x.success);
                let trace = TraceModel { parent_trace_id: frame_id, ..x.trace@ };
                assert((TraceModel { parent_trace_id: frame_id, ..y.trace@ }) == trace);
                assert(tree_records(trace, y.children@, y.success) == tree_records(
                    trace,
                    x.children@,
                    x.success,
                ));
            },
            DebankTraceOrLog::Log(_) => {},
        }
    }
}

/// Members that were given the right identifiers twice are those that were given them once.
proof fn lemma_settled_twice(
    first: Seq<DebankTraceOrLog>,
    second: Seq<DebankTraceOrLog>,
    third: Seq<DebankTraceOrLog>,
    frame_id: Seq<char>,
)
    requires
        items_settled(first, second, frame_id),
        items_settled(second, third, frame_id),
    ensures
        same_items(second, third),
    decreases first,
{
    assert forall|i: int| 0 <= i < second.len() implies match #[trigger] second[i] {
        DebankTraceOrLog::Trace(x) => {
            &&& third[i] is Trace
            &&& third[i]->Trace_0.trace@ == x.trace@
            &&& third[i]->Trace_0.success == x.success
            &&& same_items(x.children@, third[i]->Trace_0.children@)
        },
        DebankTraceOrLog::Log(x) => third[i] is Log && third[i]->Log_0@ == x@,
    } by {
        match first[i] {
            DebankTraceOrLog::Trace(x) => {
                let (y, z) = (second[i]->Trace_0, third[i]->Trace_0);
                assert(y.trace@.id == x.trace@.id);
                lemma_settled_twice(x.children@, y.children@, z.children@, x.trace@.id);
                assert((TraceModel { parent_trace_id: frame_id, ..y.trace@ }) == y.trace@);
            },
            DebankTraceOrLog::Log(_) => {},
        }
    }
}

/// Sorting out a tree a second time gives the same records as the first time, and changes
/// nothing in the tree any more.
pub proof fn law_sorted_again(
    first: DebankTraceNode,
    second: DebankTraceNode,
    third: DebankTraceNode,
)
    requires
        tree_settled(first, second),
        tree_settled(second, third),
    ensures
        tree_records(second.trace@, second.children@, second.success) == tree_records(
            first.trace@,
            first.children@,
            first.success,
        ),
        same_tree(second, third),
{
    lemma_settled_records(first.children@, second.children@, first.trace@.id, first.success);
    lemma_settled_twice(first.children@, second.children@, third.children@, first.trace@.id);
}

/// Whether a record is a trace that stands under another record.
pub open spec fn stands_under(above: Record, record: Record) -> bool {
    above is Trace && record is Trace && record->Trace_0.parent_trace_id == above->Trace_0.id
}

/// Whether each trace in a list of records stands under a trace before it, or under the trace
/// with the given identifier.
spec fn all_under(records: Seq<Record>, frame_id: Seq<char>) -> bool {
    forall|m: int|
        0 <= m < records.len() && #[trigger] records[m] is Trace ==> {
            ||| records[m]->Trace_0.parent_trace_id == frame_id
            ||| exists|n: int| 0 <= n < m && stands_under(#[trigger] records[n], records[m])
        }
}

proof fn lemma_items_under(items: Seq<DebankTraceOrLog>, frame_id: Seq<char>, success: bool)
    ensures
        all_under(item_records(items, frame_id, success), frame_id),
    decreases items,
{
    if items.len() > 0 {
        lemma_items_under(items.drop_last(), frame_id, success);
        let before = item_records(items.drop_last(), frame_id, success);
        let all = item_records(items, frame_id, success);
        match items[items.len() - 1] {
            DebankTraceOrLog::Trace(node) => {
                let trace = TraceModel { parent_trace_id: frame_id, ..node.trace@ };
                let below = item_records(node.children@, trace.id, node.success);
                lemma_items_under(node.children@, trace.id, node.success);
                let k = before.len() as int;
                assert(all == before + tree_records(trace, node.children@, node.success));
                assert(all =~= before + (seq![Record::Trace(trace, node.success)] + below));
                assert(all[k] == Record::Trace(trace, node.success));
                assert forall|m: int| 0 <= m < all.len() && #[trigger] all[m] is Trace implies {
                    ||| all[m]->Trace_0.parent_trace_id == frame_id
                    ||| exists|n: int| 0 <= n < m && stands_under(#[trigger] all[n], all[m])
                } by {
                    if m < k {
                        assert(all[m] == before[m]);
                        if before[m]->Trace_0.parent_trace_id != frame_id {
                            let n = choose|n: int|
                                0 <= n < m && stands_under(#[trigger] before[n], before[m]);
                            assert(all[n] == before[n]);
                        }
                    } else if m > k {
                        let here = below[m - k - 1];
                        assert(all[m] == here);
                        if here->Trace_0.parent_trace_id == trace.id {
                            assert(stands_under(all[k], all[m]));
                        } else {
                            let n = choose|n: int|
                                0 <= n < m - k - 1 && stands_under(#[trigger] below[n], here);
                            assert(all[k + 1 + n] == below[n]);
                        }
                    }
                }
            },
            DebankTraceOrLog::Log(event) => {
                assert forall|m: int| 0 <= m < all.len() && #[trigger] all[m] is Trace implies {
                    ||| all[m]->Trace_0.parent_trace_id == frame_id
                    ||| exists|n: int| 0 <= n < m && stands_under(#[trigger] all[n], all[m])
                } by {
                    assert(all[m] == before[m]);
                    if before[m]->Trace_0.parent_trace_id != frame_id {
                        let n = choose|n: int|
                            0 <= n < m && stands_under(#[trigger] before[n], before[m]);
                        assert(all[n] == before[n]);
                    }
                }
            },
        }
    }
}

/// Whatever identifiers the traces of a tree carried, in its records each trace behind the first
/// stands under a trace before it.
pub proof fn law_sorted_parents(node: DebankTraceNode, m: int)
    requires
        0 < m < tree_records(node.trace@, node.children@, node.success).len(),
        tree_records(node.trace@, node.children@, node.success)[m] is Trace,
    ensures
        exists|n: int|
            0 <= n < m && stands_under(
                #[trigger] tree_records(node.trace@, node.children@, node.success)[n],
                tree_records(node.trace@, node.children@, node.success)[m],
            ),
{
    let id = node.trace@.id;
    let below = item_records(node.children@, id, node.success);
    let all = tree_records(node.trace@, node.children@, node.success);
    lemma_items_under(node.children@, id, node.success);
    let here = below[m - 1];
    assert(all[m] == here);
    assert(all[0] == Record::Trace(node.trace@, node.success));
    if here->Trace_0.parent_trace_id == id {
        assert(stands_under(all[0], all[m]));
    } else {
        let n = choose|n: int| 0 <= n < m - 1 && stands_under(#[trigger] below[n], here);
        assert(all[1 + n] == below[n]);
    }
}

} // verus!
