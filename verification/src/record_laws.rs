//! What traces and events take from frames and logs, and what identifies them.

use vstd::prelude::*;
use vstd::utf8::encode_utf8;

use crate::bindings::md5_digest;
use crate::call_trace::{result_name, CallKind, CallLog, CallTraceNode, InstructionResult};
use crate::primitives::be_value;
use crate::records::{
    empty_event, empty_trace, event_of_log, event_source, joined, record_id, trace_of_node,
    trace_source, DebankEvent, DebankID, DebankTrace, EventModel, TraceModel,
};
use crate::text::{
    decimal, decimal_value, hex_chars, hex_value, is_hex_text, lemma_decimal, lemma_hex_value,
    lower_char, lower_text, prefixed_hex,
};

verus! {

/// The content of a trace is what stands in its fields.
pub proof fn law_trace_content(trace: DebankTrace)
    ensures
        trace@.id == trace.id@,
        trace@.from_addr == trace.from_addr.bytes@,
        trace@.gas_limit == trace.gas_limit,
        trace@.input == trace.input@,
        trace@.to_addr == trace.to_addr.bytes@,
        trace@.value == trace.value@,
        trace@.gas_used == trace.gas_used,
        trace@.output == trace.output@,
        trace@.call_create_type == trace.call_create_type@,
        trace@.call_type == trace.call_type@,
        trace@.tx_id == trace.tx_id@,
        trace@.parent_trace_id == trace.parent_trace_id@,
        trace@.pos_in_parent_trace == trace.pos_in_parent_trace,
        trace@.self_storage_change == trace.self_storage_change,
        trace@.storage_change == trace.storage_change,
        trace@.subtraces == trace.subtraces,
        trace@.trace_address == trace.trace_address@,
        trace@.error == trace.error@,
{
}

/// The content of an event is what stands in its fields.
pub proof fn law_event_content(event: DebankEvent)
    ensures
        event@.id == event.id@,
        event@.contract_id == event.contract_id.bytes@,
        event@.selector == event.selector@,
        event@.topics.len() == event.topics@.len(),
        forall|i: int|
            0 <= i < event.topics@.len() ==> (#[trigger] event@.topics[i]) == event.topics@[i]@,
        event@.data == event.data@,
        event@.parent_trace_id == event.parent_trace_id@,
        event@.pos_in_parent_trace == event.pos_in_parent_trace,
        event@.idx == event.idx,
{
}

/// An event takes the data of its log. The first topic is its selector, and the others are its
/// topics, each as hexadecimal text. Where it stands is left open.
pub proof fn law_event_of_log(log: CallLog)
    ensures
        ({
            let event = event_of_log(log);
            let n = log.topics@.len();
            &&& event.data == log.data@
            &&& n == 0 ==> event.selector.len() == 0
            &&& n > 0 ==> event.selector == prefixed_hex(log.topics@[0].bytes@)
            &&& event.topics.len() == if n > 1 { n - 1 } else { 0 }
            &&& forall|i: int|
                0 <= i < event.topics.len() ==> (#[trigger] event.topics[i]) == prefixed_hex(
                    log.topics@[i + 1].bytes@,
                )
            &&& event.id.len() == 0 && event.parent_trace_id.len() == 0
            &&& event.contract_id == Seq::new(20, |i: int| 0u8)
            &&& event.pos_in_parent_trace == 0 && event.idx == 0
        }),
{
}

/// A trace takes from its frame who called whom with what, the gas, the output and the number of
/// children, and whether the frame ran the opcode that writes storage. Where it stands is left
/// open.
pub proof fn law_trace_of_frame(node: CallTraceNode)
    ensures
        ({
            let trace = trace_of_node(node);
            &&& trace.from_addr == node.trace.caller.bytes@
            &&& trace.to_addr == node.trace.address.bytes@
            &&& trace.value == node.trace.value@
            &&& trace.input == node.trace.data@
            &&& trace.output == node.trace.output@
            &&& trace.gas_limit == node.trace.gas_limit
            &&& trace.gas_used == node.trace.gas_used
            &&& trace.subtraces == node.children@.len()
            &&& trace.self_storage_change == node.trace.steps@.contains(0x55u8)
            &&& trace.storage_change == node.trace.steps@.contains(0x55u8)
            &&& trace.id.len() == 0 && trace.tx_id.len() == 0
            &&& trace.parent_trace_id.len() == 0 && trace.pos_in_parent_trace == 0
            &&& trace.trace_address.len() == 0
        }),
{
}

/// The types of a frame follow from how it was entered, whatever else it holds.
pub proof fn law_trace_types(node: CallTraceNode)
    ensures
        ({
            let trace = trace_of_node(node);
            let types = (trace.call_create_type, trace.call_type);
            match node.trace.kind {
                CallKind::Call => types == ("call"@, "call"@),
                CallKind::StaticCall => types == ("call"@, "staticcall"@),
                CallKind::CallCode => types == ("call"@, "callcode"@),
                CallKind::DelegateCall => types == ("call"@, "delegatecall"@),
                CallKind::AuthCall => types == ("call"@, "authcall"@),
                CallKind::Create => types == ("create"@, Seq::<char>::empty()),
                CallKind::Create2 => types == ("create2"@, Seq::<char>::empty()),
            }
        }),
{
    reveal_strlit("CALL");
    reveal_strlit("STATICCALL");
    reveal_strlit("CALLCODE");
    reveal_strlit("DELEGATECALL");
    reveal_strlit("AUTHCALL");
    reveal_strlit("call");
    reveal_strlit("staticcall");
    reveal_strlit("callcode");
    reveal_strlit("delegatecall");
    reveal_strlit("authcall");
    assert(lower_text("CALL"@) =~= "call"@);
    assert(lower_text("STATICCALL"@) =~= "staticcall"@);
    assert(lower_text("CALLCODE"@) =~= "callcode"@);
    assert(lower_text("DELEGATECALL"@) =~= "delegatecall"@);
    assert(lower_text("AUTHCALL"@) =~= "authcall"@);
}

/// A trace has the message of the error that ended its frame, whatever else the frame holds, and
/// no message if the frame ended well or its end is not known.
pub proof fn law_trace_error(node: CallTraceNode)
    ensures
        ({
            let error = trace_of_node(node).error;
            match node.trace.status {
                None => error.len() == 0,
                Some(InstructionResult::Stop) => error.len() == 0,
                Some(InstructionResult::Return) => error.len() == 0,
                Some(InstructionResult::SelfDestruct) => error.len() == 0,
                Some(InstructionResult::Suspend) => error.len() == 0,
                Some(InstructionResult::Revert) => error == "Reverted"@,
                Some(InstructionResult::OutOfGas) => error == "Out of gas"@,
                Some(InstructionResult::PrecompileOOG) => error == "Out of gas"@,
                Some(InstructionResult::MemoryOOG) => error == "Out of gas"@,
                Some(InstructionResult::MemoryLimitOOG) => error == "Out of gas"@,
                Some(InstructionResult::InvalidOperandOOG) => error == "Out of gas"@,
                Some(InstructionResult::ReentrancySentryOOG) => error == "Out of gas"@,
                Some(InstructionResult::OutOfFunds) => error
                    == "Insufficient balance for transfer"@,
                Some(InstructionResult::OpcodeNotFound) => error == "Bad instruction"@,
                Some(InstructionResult::InvalidFEOpcode) => error == "Bad instruction"@,
                Some(InstructionResult::StackOverflow) => error == "Out of stack"@,
                Some(InstructionResult::InvalidJump) => error == "Bad jump destination"@,
                Some(InstructionResult::PrecompileError) => error == "Built-in failed"@,
                Some(res) => error == result_name(res),
            }
        }),
{
}

/// The identifier of a trace is the MD5 digest of its transaction, the trace above it and its
/// position, one behind the other; that of an event of the trace above it and its position.
pub proof fn law_id_texts(trace: TraceModel, event: EventModel)
    ensures
        record_id(trace_source(trace)) == hex_chars(
            md5_digest(
                encode_utf8(
                    trace.tx_id + trace.parent_trace_id + decimal(trace.pos_in_parent_trace),
                ),
            ),
        ),
        record_id(event_source(event)) == hex_chars(
            md5_digest(encode_utf8(event.parent_trace_id + decimal(event.pos_in_parent_trace))),
        ),
{
}

/// Texts are joined with nothing between them: one text stays as it is, none gives the empty
/// text, and the texts of two lists stand one behind the other. The identifier is the MD5 digest
/// of all of it.
pub proof fn law_joined(a: Seq<&str>, b: Seq<&str>, text: &str)
    ensures
        joined(Seq::<&str>::empty()).len() == 0,
        joined(seq![text]) == text@,
        joined(a + b) == joined(a) + joined(b),
        record_id(joined(a)) == hex_chars(md5_digest(encode_utf8(joined(a)))),
    decreases b.len(),
{
    assert(joined(seq![text].drop_last()) =~= Seq::empty());
    assert(seq![text].last() == text);
    assert(joined(seq![text]) =~= text@);
    if b.len() == 0 {
        assert(a + b =~= a);
    } else {
        law_joined(a, b.drop_last(), text);
        assert((a + b).drop_last() =~= a + b.drop_last());
    }
    assert(joined(a + b) =~= joined(a) + joined(b));
}

/// Hexadecimal text has two digits for each byte and stands for the number of the bytes, and
/// decimal text has at least one digit and stands for its number.
pub proof fn law_texts(bytes: Seq<u8>, n: nat)
    ensures
        hex_chars(bytes).len() == 2 * bytes.len(),
        is_hex_text(hex_chars(bytes)),
        hex_value(hex_chars(bytes)) == be_value(bytes),
        prefixed_hex(bytes) == seq!['0', 'x'] + hex_chars(bytes),
        decimal(n).len() > 0,
        decimal_value(decimal(n)) == n,
        n >= 10 ==> decimal(n)[0] != '0',
{
    lemma_hex_value(bytes);
    lemma_decimal(n);
    if n >= 10 {
        lemma_no_leading_zero(n);
    }
}

proof fn lemma_no_leading_zero(n: nat)
    requires
        n > 0,
    ensures
        decimal(n).len() > 0,
        decimal(n)[0] != '0',
    decreases n,
{
    if n >= 10 {
        lemma_no_leading_zero(n / 10);
    }
}

/// Lower case changes the letters `A` to `Z` only, each to its small letter.
pub proof fn law_lower_text(text: Seq<char>, i: int)
    requires
        0 <= i < text.len(),
    ensures
        lower_text(text).len() == text.len(),
        'A' <= text[i] && text[i] <= 'Z' ==> lower_text(text)[i] as int == text[i] as int + 32,
        !('A' <= text[i] && text[i] <= 'Z') ==> lower_text(text)[i] == text[i],
        lower_char(text[i]) == lower_text(text)[i],
{
}

/// The text that identifies a trace is its transaction, the trace above it and its position, and
/// that of an event the trace above it and its position.
pub proof fn law_id_sources(trace: DebankTrace, event: DebankEvent)
    ensures
        trace.id_source() == trace.tx_id@ + trace.parent_trace_id@ + decimal(
            trace.pos_in_parent_trace as nat,
        ),
        event.id_source() == event.parent_trace_id@ + decimal(event.pos_in_parent_trace as nat),
{
}

/// The trace and the event that hold nothing: no text, no bytes, no number above zero, and
/// addresses of zeroes.
pub proof fn law_empty_records()
    ensures
        ({
            let trace = empty_trace();
            &&& trace.id.len() == 0 && trace.tx_id.len() == 0 && trace.parent_trace_id.len() == 0
            &&& trace.from_addr == Seq::new(20, |i: int| 0u8)
            &&& trace.to_addr == Seq::new(20, |i: int| 0u8)
            &&& trace.input.len() == 0 && trace.output.len() == 0
            &&& trace.gas_limit == 0 && trace.gas_used == 0 && trace.value == 0
            &&& trace.call_create_type.len() == 0 && trace.call_type.len() == 0
            &&& trace.pos_in_parent_trace == 0 && trace.subtraces == 0
            &&& !trace.self_storage_change && !trace.storage_change
            &&& trace.trace_address.len() == 0 && trace.error.len() == 0
        }),
        ({
            let event = empty_event();
            &&& event.id.len() == 0 && event.parent_trace_id.len() == 0
            &&& event.contract_id == Seq::new(20, |i: int| 0u8)
            &&& event.selector.len() == 0 && event.topics.len() == 0 && event.data.len() == 0
            &&& event.pos_in_parent_trace == 0 && event.idx == 0
        }),
{
}

} // verus!
