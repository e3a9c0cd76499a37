use debank_trace::call_trace::{
    fmt_error_msg, CallKind, CallLog, CallTrace, CallTraceNode, InstructionResult, SSTORE,
};
use debank_trace::primitives::{Address, H256, U256};
use debank_trace::records::{DebankEvent, DebankID, DebankTrace};
use revm::interpreter::InstructionResult as Outside;

fn address(b: u8) -> Address {
    Address { bytes: [b; 20] }
}

fn hash(b: u8) -> H256 {
    H256 { bytes: [b; 32] }
}

fn word(n: u64) -> U256 {
    U256 { limbs: [n, 0, 0, 0] }
}

fn frame(kind: CallKind) -> CallTraceNode {
    CallTraceNode {
        children: vec![4, 5],
        trace: CallTrace {
            success: true,
            caller: address(1),
            address: address(2),
            selfdestruct_address: None,
            selfdestruct_refund_target: None,
            selfdestruct_transferred_value: None,
            kind,
            value: word(7),
            data: vec![1, 2, 3],
            output: vec![9],
            gas_used: 21,
            gas_limit: 100,
            status: None,
            steps: vec![],
        },
        logs: vec![],
        ordering: vec![],
    }
}

fn results() -> Vec<(InstructionResult, Outside)> {
    vec![
        (InstructionResult::Stop, Outside::Stop),
        (InstructionResult::Return, Outside::Return),
        (InstructionResult::SelfDestruct, Outside::SelfDestruct),
        (InstructionResult::Suspend, Outside::Suspend),
        (InstructionResult::Revert, Outside::Revert),
        (InstructionResult::CallTooDeep, Outside::CallTooDeep),
        (InstructionResult::OutOfFunds, Outside::OutOfFunds),
        (InstructionResult::CreateInitCodeStartingEF00, Outside::CreateInitCodeStartingEF00),
        (InstructionResult::InvalidEOFInitCode, Outside::InvalidEOFInitCode),
        (InstructionResult::InvalidExtDelegateCallTarget, Outside::InvalidExtDelegateCallTarget),
        (InstructionResult::OutOfGas, Outside::OutOfGas),
        (InstructionResult::MemoryOOG, Outside::MemoryOOG),
        (InstructionResult::MemoryLimitOOG, Outside::MemoryLimitOOG),
        (InstructionResult::PrecompileOOG, Outside::PrecompileOOG),
        (InstructionResult::InvalidOperandOOG, Outside::InvalidOperandOOG),
        (InstructionResult::ReentrancySentryOOG, Outside::ReentrancySentryOOG),
        (InstructionResult::OpcodeNotFound, Outside::OpcodeNotFound),
        (InstructionResult::CallNotAllowedInsideStatic, Outside::CallNotAllowedInsideStatic),
        (InstructionResult::StateChangeDuringStaticCall, Outside::StateChangeDuringStaticCall),
        (InstructionResult::InvalidFEOpcode, Outside::InvalidFEOpcode),
        (InstructionResult::InvalidJump, Outside::InvalidJump),
        (InstructionResult::NotActivated, Outside::NotActivated),
        (InstructionResult::StackUnderflow, Outside::StackUnderflow),
        (InstructionResult::StackOverflow, Outside::StackOverflow),
        (InstructionResult::OutOfOffset, Outside::OutOfOffset),
        (InstructionResult::CreateCollision, Outside::CreateCollision),
        (InstructionResult::OverflowPayment, Outside::OverflowPayment),
        (InstructionResult::PrecompileError, Outside::PrecompileError),
        (InstructionResult::NonceOverflow, Outside::NonceOverflow),
        (InstructionResult::CreateContractSizeLimit, Outside::CreateContractSizeLimit),
        (InstructionResult::CreateContractStartingWithEF, Outside::CreateContractStartingWithEF),
        (InstructionResult::CreateInitCodeSizeLimit, Outside::CreateInitCodeSizeLimit),
        (InstructionResult::FatalExternalError, Outside::FatalExternalError),
        (InstructionResult::InvalidImmediateEncoding, Outside::InvalidImmediateEncoding),
    ]
}

#[test]
fn results_agree_with_the_interpreter() {
    let mut named = 0;
    for (own, outside) in results() {
        assert_eq!(own.is_ok(), outside.is_ok());
        match fmt_error_msg(own) {
            None => assert!(outside.is_ok()),
            Some(msg) if msg == format!("{outside:?}") => named += 1,
            Some(msg) => assert!(msg.contains(' ') || msg == "Reverted"),
        }
    }
    assert_eq!(named, 17);
}

#[test]
fn error_messages() {
    let msg = |res: InstructionResult| fmt_error_msg(res).unwrap();
    assert_eq!(msg(InstructionResult::Revert), "Reverted");
    assert_eq!(msg(InstructionResult::OutOfGas), "Out of gas");
    assert_eq!(msg(InstructionResult::PrecompileOOG), "Out of gas");
    assert_eq!(msg(InstructionResult::MemoryOOG), "Out of gas");
    assert_eq!(msg(InstructionResult::MemoryLimitOOG), "Out of gas");
    assert_eq!(msg(InstructionResult::InvalidOperandOOG), "Out of gas");
    assert_eq!(msg(InstructionResult::ReentrancySentryOOG), "Out of gas");
    assert_eq!(msg(InstructionResult::OutOfFunds), "Insufficient balance for transfer");
    assert_eq!(msg(InstructionResult::OpcodeNotFound), "Bad instruction");
    assert_eq!(msg(InstructionResult::InvalidFEOpcode), "Bad instruction");
    assert_eq!(msg(InstructionResult::StackOverflow), "Out of stack");
    assert_eq!(msg(InstructionResult::InvalidJump), "Bad jump destination");
    assert_eq!(msg(InstructionResult::PrecompileError), "Built-in failed");
    assert_eq!(msg(InstructionResult::CallTooDeep), "CallTooDeep");
    assert_eq!(msg(InstructionResult::StackUnderflow), "StackUnderflow");
    assert_eq!(msg(InstructionResult::CreateCollision), "CreateCollision");
}

#[test]
fn frames_that_ended_well_have_no_message() {
    assert_eq!(fmt_error_msg(InstructionResult::Stop), None);
    assert_eq!(fmt_error_msg(InstructionResult::Return), None);
    assert_eq!(fmt_error_msg(InstructionResult::SelfDestruct), None);
    assert_eq!(fmt_error_msg(InstructionResult::Suspend), None);
}

#[test]
fn storage_opcode_agrees_with_the_interpreter() {
    assert_eq!(SSTORE, revm_bytecode::opcode::OpCode::SSTORE.get());
}

#[test]
fn trace_of_a_call() {
    let trace = DebankTrace::from(&frame(CallKind::Call));
    assert_eq!(trace.id, "");
    assert_eq!(trace.from_addr, address(1));
    assert_eq!(trace.to_addr, address(2));
    assert_eq!(trace.gas_limit, 100);
    assert_eq!(trace.gas_used, 21);
    assert_eq!(trace.input, vec![1, 2, 3]);
    assert_eq!(trace.output, vec![9]);
    assert_eq!(trace.value, word(7));
    assert_eq!(trace.call_create_type, "call");
    assert_eq!(trace.call_type, "call");
    assert_eq!(trace.subtraces, 2);
    assert_eq!(trace.error, "");
    assert_eq!(trace.tx_id, "");
    assert_eq!(trace.parent_trace_id, "");
    assert_eq!(trace.pos_in_parent_trace, 0);
    assert!(trace.trace_address.is_empty());
    assert!(!trace.self_storage_change);
    assert!(!trace.storage_change);
}

#[test]
fn types_of_frames() {
    let types = |kind: CallKind| {
        let trace = DebankTrace::from(&frame(kind));
        (trace.call_create_type, trace.call_type)
    };
    let pair = |a: &str, b: &str| (a.to_string(), b.to_string());
    assert_eq!(types(CallKind::Call), pair("call", "call"));
    assert_eq!(types(CallKind::StaticCall), pair("call", "staticcall"));
    assert_eq!(types(CallKind::CallCode), pair("call", "callcode"));
    assert_eq!(types(CallKind::DelegateCall), pair("call", "delegatecall"));
    assert_eq!(types(CallKind::AuthCall), pair("call", "authcall"));
    assert_eq!(types(CallKind::Create), pair("create", ""));
    assert_eq!(types(CallKind::Create2), pair("create2", ""));
}

#[test]
fn trace_carries_the_error() {
    let mut node = frame(CallKind::Call);
    node.trace.status = Some(InstructionResult::Revert);
    assert_eq!(DebankTrace::from(&node).error, "Reverted");
    node.trace.status = Some(InstructionResult::Stop);
    assert_eq!(DebankTrace::from(&node).error, "");
}

#[test]
fn trace_tells_whether_storage_was_written() {
    let mut node = frame(CallKind::Call);
    node.trace.steps = vec![0x54, 0x01];
    assert!(!DebankTrace::from(&node).self_storage_change);
    node.trace.steps = vec![0x54, SSTORE, 0x01];
    let trace = DebankTrace::from(&node);
    assert!(trace.self_storage_change);
    assert!(trace.storage_change);
}

#[test]
fn event_without_topics() {
    let event = DebankEvent::from(&CallLog { topics: vec![], data: vec![5] });
    assert_eq!(event.selector, "");
    assert!(event.topics.is_empty());
    assert_eq!(event.data, vec![5]);
    assert_eq!(event.id, "");
    assert_eq!(event.contract_id, address(0));
}

#[test]
fn event_with_one_topic() {
    let event = DebankEvent::from(&CallLog { topics: vec![hash(0xab)], data: vec![] });
    assert_eq!(event.selector, format!("0x{}", "ab".repeat(32)));
    assert!(event.topics.is_empty());
}

#[test]
fn event_with_more_topics() {
    let log = CallLog { topics: vec![hash(1), hash(2), hash(0xff)], data: vec![] };
    let event = DebankEvent::from(&log);
    assert_eq!(event.selector, format!("0x{}", "01".repeat(32)));
    assert_eq!(
        event.topics,
        vec![format!("0x{}", "02".repeat(32)), format!("0x{}", "ff".repeat(32))]
    );
}

#[test]
fn identifiers_are_md5_digests() {
    assert_eq!(DebankTrace::calculate_id(vec![]), "d41d8cd98f00b204e9800998ecf8427e");
    assert_eq!(DebankTrace::calculate_id(vec!["a", "", "bc"]), "900150983cd24fb0d6963f7d28e17f72");
    assert_eq!(DebankEvent::calculate_id(vec!["abc"]), "900150983cd24fb0d6963f7d28e17f72");
}

#[test]
fn identifiers_have_thirty_two_digits() {
    for parts in [vec![], vec!["", ""], vec!["x"], vec!["a long text", " in parts"]] {
        let id = DebankEvent::calculate_id(parts);
        assert_eq!(id.len(), 32);
        assert!(id.chars().all(|c| c.is_ascii_digit() || ('a'..='f').contains(&c)));
    }
    // The digest of this text begins with a zero.
    assert_eq!(DebankTrace::calculate_id(vec!["27"]), "02e74f10e0327ad868d138f2b4fdd6f0");
}

#[test]
fn parts_do_not_matter_for_an_identifier() {
    let id = DebankTrace::calculate_id(vec!["ab", "c"]);
    assert_eq!(id, DebankTrace::calculate_id(vec!["a", "bc"]));
    assert_eq!(id, DebankTrace::calculate_id(vec!["", "abc", ""]));
}

#[test]
fn identifier_of_a_trace() {
    let mut trace = DebankTrace::default();
    trace.tx_id = format!("0x{}", "11".repeat(32));
    assert_eq!(trace.debank_id(), "7af0b4dab570a8f9147dac2da287366d");
    trace.parent_trace_id = "7af0b4dab570a8f9147dac2da287366d".to_string();
    assert_eq!(trace.debank_id(), "25cb99fc11c4a1d4ffd8d71118e80ca3");
}

#[test]
fn identifier_of_an_event() {
    let mut event = DebankEvent::default();
    event.parent_trace_id = "7af0b4dab570a8f9147dac2da287366d".to_string();
    event.pos_in_parent_trace = 2;
    assert_eq!(event.debank_id(), "bb1befbe7913c6293f9b4cca05ddded2");
}

#[test]
fn identifier_uses_all_digits_of_a_position() {
    let mut event = DebankEvent::default();
    event.pos_in_parent_trace = 1203;
    assert_eq!(event.debank_id(), DebankEvent::calculate_id(vec!["1203"]));
}

#[test]
fn account_in_whose_storage_a_frame_ran() {
    assert_eq!(frame(CallKind::Call).execution_address(), address(2));
    assert_eq!(frame(CallKind::Create2).execution_address(), address(2));
    assert_eq!(frame(CallKind::DelegateCall).execution_address(), address(1));
    assert_eq!(frame(CallKind::CallCode).execution_address(), address(1));
    assert_eq!(frame(CallKind::StaticCall).execution_address(), address(2));
}

#[test]
fn frames_that_destroy_their_account() {
    let mut node = frame(CallKind::Call);
    assert!(!node.is_selfdestruct());
    node.trace.selfdestruct_refund_target = Some(address(3));
    assert!(node.is_selfdestruct());
    node.trace.selfdestruct_refund_target = None;
    node.trace.status = Some(InstructionResult::SelfDestruct);
    assert!(node.is_selfdestruct());
}
