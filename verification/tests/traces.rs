use debank_trace::call_trace::{
    CallKind, CallLog, CallTrace, CallTraceArena, CallTraceNode, TraceMemberOrder, SSTORE,
};
use debank_trace::primitives::{Address, H256, U256};
use debank_trace::trace_tree::{build_block_traces, build_debank_traces};

const ROOT: &str = "7af0b4dab570a8f9147dac2da287366d";
const CHILD: &str = "5e9786872acc10d8681a5830c12af5a0";

fn address(b: u8) -> Address {
    Address { bytes: [b; 20] }
}

fn tx() -> H256 {
    H256 { bytes: [0x11; 32] }
}

fn tx_text() -> String {
    format!("0x{}", "11".repeat(32))
}

fn log(b: u8) -> CallLog {
    CallLog { topics: vec![H256 { bytes: [b; 32] }], data: vec![b] }
}

fn frame(success: bool, children: Vec<usize>, logs: u8, ordering: Vec<TraceMemberOrder>) -> CallTraceNode {
    CallTraceNode {
        children,
        trace: CallTrace {
            success,
            caller: address(1),
            address: address(2),
            selfdestruct_address: None,
            selfdestruct_refund_target: None,
            selfdestruct_transferred_value: None,
            kind: CallKind::Call,
            value: U256 { limbs: [0; 4] },
            data: vec![],
            output: vec![],
            gas_used: 0,
            gas_limit: 0,
            status: None,
            steps: vec![],
        },
        logs: (0..logs).map(log).collect(),
        ordering,
    }
}

/// A frame with a log, a child with one log of its own, and another log.
fn nested(child_success: bool) -> CallTraceArena {
    let root = frame(
        true,
        vec![1],
        2,
        vec![
            TraceMemberOrder::Log(0),
            TraceMemberOrder::Step(0),
            TraceMemberOrder::Call(0),
            TraceMemberOrder::Log(1),
        ],
    );
    let child = frame(child_success, vec![], 1, vec![TraceMemberOrder::Log(0)]);
    CallTraceArena { nodes: vec![root, child] }
}

#[test]
fn no_frames_no_records() {
    let mut log_index = 5;
    let entry = build_debank_traces(tx(), CallTraceArena { nodes: vec![] }, &mut log_index);
    assert!(entry.0.is_empty() && entry.1.is_empty() && entry.2.is_empty() && entry.3.is_empty());
    assert_eq!(log_index, 5);
}

#[test]
fn records_of_nested_frames() {
    let mut log_index = 10;
    let (traces, error_traces, events, error_events) =
        build_debank_traces(tx(), nested(true), &mut log_index);
    assert_eq!(log_index, 13);
    assert!(error_traces.is_empty() && error_events.is_empty());
    assert_eq!(traces.len(), 2);
    assert_eq!(traces[0].id, ROOT);
    assert_eq!(traces[0].tx_id, tx_text());
    assert_eq!(traces[0].parent_trace_id, "");
    assert_eq!(traces[0].subtraces, 1);
    assert!(traces[0].trace_address.is_empty());
    assert_eq!(traces[1].id, CHILD);
    assert_eq!(traces[1].tx_id, tx_text());
    assert_eq!(traces[1].parent_trace_id, ROOT);
    assert_eq!(traces[1].pos_in_parent_trace, 1);
    assert_eq!(traces[1].trace_address, vec![0]);
    let ids: Vec<&str> = events.iter().map(|e| e.id.as_str()).collect();
    assert_eq!(
        ids,
        vec![
            "4788a25788d54ba0b32e94f8a40ced15",
            "a9c3d4e98cf118a27f2b02476b53200c",
            "bb1befbe7913c6293f9b4cca05ddded2",
        ]
    );
    let places: Vec<(usize, usize, &str)> = events
        .iter()
        .map(|e| (e.idx, e.pos_in_parent_trace, e.parent_trace_id.as_str()))
        .collect();
    assert_eq!(places, vec![(10, 0, ROOT), (11, 0, CHILD), (12, 2, ROOT)]);
    assert!(events.iter().all(|e| e.contract_id == address(2)));
    assert_eq!(events[2].data, vec![1]);
}

#[test]
fn a_failed_frame_takes_no_effect() {
    let mut log_index = 0;
    let (traces, error_traces, events, error_events) =
        build_debank_traces(tx(), nested(false), &mut log_index);
    assert_eq!(log_index, 2);
    assert_eq!(traces.len(), 1);
    assert_eq!(error_traces.len(), 1);
    assert_eq!(error_traces[0].id, CHILD);
    assert_eq!(events.iter().map(|e| e.idx).collect::<Vec<_>>(), vec![0, 1]);
    assert_eq!(error_events.len(), 1);
    assert_eq!(error_events[0].idx, 1);
    assert_eq!(error_events[0].parent_trace_id, CHILD);
}

#[test]
fn members_of_a_frame_keep_their_order() {
    let mut log_index = 5;
    let (traces, error_traces, events, error_events) =
        build_debank_traces(tx(), nested(false), &mut log_index);
    assert_eq!(log_index, 7);
    assert_eq!((events[0].idx, events[0].pos_in_parent_trace), (5, 0));
    assert_eq!(error_traces[0].pos_in_parent_trace, 1);
    assert_eq!(error_traces[0].trace_address, vec![0]);
    assert_eq!((error_events[0].idx, error_events[0].pos_in_parent_trace), (6, 0));
    assert_eq!((events[1].idx, events[1].pos_in_parent_trace), (6, 2));
    assert!(events.iter().all(|e| e.parent_trace_id == traces[0].id));
}

#[test]
fn one_trace_stands_under_no_trace() {
    for success in [true, false] {
        let mut arena = nested(true);
        arena.nodes[0].trace.success = success;
        arena.nodes[1].trace.selfdestruct_refund_target = Some(address(8));
        let (traces, error_traces, ..) = build_debank_traces(tx(), arena, &mut 0);
        let list = if success { &traces } else { &error_traces };
        assert_eq!(list[0].parent_trace_id, "");
        assert_eq!(traces.len() + error_traces.len(), 3);
        assert!(list[1..].iter().all(|t| t.parent_trace_id.len() == 32));
        for j in 1..list.len() {
            assert!(list[..j].iter().any(|t| t.id == list[j].parent_trace_id));
        }
    }
}

#[test]
fn events_name_the_account_of_their_frame() {
    let mut arena = nested(true);
    arena.nodes[0].trace.address = address(0x20);
    arena.nodes[1].trace.kind = CallKind::CallCode;
    arena.nodes[1].trace.caller = address(0x30);
    let (_, _, events, _) = build_debank_traces(tx(), arena, &mut 0);
    let accounts: Vec<Address> = events.iter().map(|e| e.contract_id).collect();
    assert_eq!(accounts, vec![address(0x20), address(0x30), address(0x20)]);
}

#[test]
fn nothing_takes_effect_below_a_failed_frame() {
    let mut arena = nested(true);
    arena.nodes[0].trace.success = false;
    let mut log_index = 3;
    let (traces, error_traces, events, error_events) =
        build_debank_traces(tx(), arena, &mut log_index);
    assert!(traces.is_empty() && events.is_empty());
    assert_eq!(error_traces.len(), 2);
    assert_eq!(error_events.len(), 3);
    assert!(error_events.iter().all(|e| e.idx == 3));
    assert_eq!(log_index, 3);
}

#[test]
fn storage_changes_are_seen_above() {
    let mut arena = nested(true);
    arena.nodes[1].trace.steps = vec![SSTORE];
    let (traces, ..) = build_debank_traces(tx(), arena, &mut 0);
    assert!(traces[0].storage_change && !traces[0].self_storage_change);
    assert!(traces[1].storage_change && traces[1].self_storage_change);
}

#[test]
fn storage_changes_of_a_failed_frame_are_not_seen_above() {
    let mut arena = nested(false);
    arena.nodes[1].trace.steps = vec![SSTORE];
    let (traces, error_traces, ..) = build_debank_traces(tx(), arena, &mut 0);
    assert!(!traces[0].storage_change);
    assert!(error_traces[0].storage_change);
}

#[test]
fn a_destroyed_account_has_a_trace_of_its_own() {
    let mut arena = nested(true);
    arena.nodes[0].trace.selfdestruct_address = Some(address(7));
    arena.nodes[0].trace.selfdestruct_refund_target = Some(address(8));
    arena.nodes[0].trace.selfdestruct_transferred_value = Some(U256 { limbs: [6, 0, 0, 0] });
    let (traces, ..) = build_debank_traces(tx(), arena, &mut 0);
    assert_eq!(traces.len(), 3);
    assert_eq!(traces[0].subtraces, 2);
    let last = &traces[2];
    assert_eq!(last.id, "7d9f3be0e3e649784b40b9c4bf8513d3");
    assert_eq!(last.call_create_type, "suicide");
    assert_eq!(last.call_type, "");
    assert_eq!(last.from_addr, address(7));
    assert_eq!(last.to_addr, address(8));
    assert_eq!(last.value, U256 { limbs: [6, 0, 0, 0] });
    assert_eq!(last.parent_trace_id, ROOT);
    assert_eq!(last.pos_in_parent_trace, 3);
    assert_eq!(last.trace_address, vec![1]);
    assert_eq!(last.tx_id, tx_text());
}

#[test]
fn a_destroyed_account_without_calls() {
    let mut node = frame(false, vec![], 0, vec![]);
    node.trace.selfdestruct_refund_target = Some(address(8));
    let arena = CallTraceArena { nodes: vec![node] };
    let (traces, error_traces, ..) = build_debank_traces(tx(), arena, &mut 0);
    assert!(traces.is_empty());
    assert_eq!(error_traces.len(), 2);
    assert!(error_traces[1].trace_address.is_empty());
    assert_eq!(error_traces[1].from_addr, address(0));
    assert_eq!(error_traces[1].pos_in_parent_trace, 0);
}

#[test]
fn a_delegate_call_logs_for_its_caller() {
    let mut arena = nested(true);
    arena.nodes[1].trace.kind = CallKind::DelegateCall;
    arena.nodes[1].trace.caller = address(9);
    let (_, _, events, _) = build_debank_traces(tx(), arena, &mut 0);
    assert_eq!(events[1].contract_id, address(9));
}

#[test]
fn logs_are_counted_through_a_block() {
    let txs = vec![
        (tx(), nested(true)),
        (H256 { bytes: [0x22; 32] }, nested(false)),
        (H256 { bytes: [0x33; 32] }, nested(true)),
    ];
    let entries = build_block_traces(txs);
    assert_eq!(entries.len(), 3);
    let indices: Vec<usize> = entries.iter().flat_map(|e| e.2.iter().map(|e| e.idx)).collect();
    assert_eq!(indices, vec![0, 1, 2, 3, 4, 5, 6, 7]);
    assert_eq!(entries[1].0[0].tx_id, format!("0x{}", "22".repeat(32)));
    let all: usize = entries.iter().map(|e| e.0.len() + e.1.len() + e.2.len() + e.3.len()).sum();
    assert_eq!(all, 15);
}

#[test]
fn effective_logs_are_counted() {
    assert_eq!(CallTraceArena { nodes: vec![] }.effective_log_count(), Some(0));
    assert_eq!(nested(true).effective_log_count(), Some(3));
    assert_eq!(nested(false).effective_log_count(), Some(2));
}

#[test]
fn indices_that_point_at_nothing_are_found() {
    let mut arena = nested(true);
    arena.nodes[0].children[0] = 9;
    assert_eq!(arena.effective_log_count(), None);
    let mut arena = nested(true);
    arena.nodes[0].ordering[0] = TraceMemberOrder::Log(2);
    assert_eq!(arena.effective_log_count(), None);
    let mut arena = nested(true);
    arena.nodes[0].ordering[0] = TraceMemberOrder::Call(1);
    assert_eq!(arena.effective_log_count(), None);
}

#[test]
fn frames_that_go_round_are_found() {
    let mut arena = nested(true);
    arena.nodes[0].children[0] = 0;
    assert_eq!(arena.effective_log_count(), None);
}
