//! The call frames that a tracer records of one transaction.

use vstd::prelude::*;

use crate::bindings::result_display;
use crate::primitives::{Address, H256, U256};

verus! {

/// The opcode that writes a storage slot.
pub const SSTORE: u8 = 0x55;

/// How a frame was entered.
#[derive(Clone, Copy, Debug, PartialEq, Eq, Structural)]
pub enum CallKind {
    Call,
    StaticCall,
    CallCode,
    DelegateCall,
    AuthCall,
    Create,
    Create2,
}

/// The name of a way to enter a frame, as its opcode is spelled.
pub open spec fn call_kind_name(kind: CallKind) -> Seq<char> {
    match kind {
        CallKind::Call => "CALL"@,
        CallKind::StaticCall => "STATICCALL"@,
        CallKind::CallCode => "CALLCODE"@,
        CallKind::DelegateCall => "DELEGATECALL"@,
        CallKind::AuthCall => "AUTHCALL"@,
        CallKind::Create => "CREATE"@,
        CallKind::Create2 => "CREATE2"@,
    }
}

/// How a frame ended.
#[derive(Clone, Copy, Debug, PartialEq, Eq, Structural)]
pub enum InstructionResult {
    Stop,
    Return,
    SelfDestruct,
    Suspend,
    Revert,
    CallTooDeep,
    OutOfFunds,
    CreateInitCodeStartingEF00,
    InvalidEOFInitCode,
    InvalidExtDelegateCallTarget,
    OutOfGas,
    MemoryOOG,
    MemoryLimitOOG,
    PrecompileOOG,
    InvalidOperandOOG,
    ReentrancySentryOOG,
    OpcodeNotFound,
    CallNotAllowedInsideStatic,
    StateChangeDuringStaticCall,
    InvalidFEOpcode,
    InvalidJump,
    NotActivated,
    StackUnderflow,
    StackOverflow,
    OutOfOffset,
    CreateCollision,
    OverflowPayment,
    PrecompileError,
    NonceOverflow,
    CreateContractSizeLimit,
    CreateContractStartingWithEF,
    CreateInitCodeSizeLimit,
    FatalExternalError,
    InvalidImmediateEncoding,
}

/// Whether a frame that ended this way ended well.
pub open spec fn ended_well(res: InstructionResult) -> bool {
    res is Stop || res is Return || res is SelfDestruct || res is Suspend
}

/// The message for a frame that ended with an error: the common errors have words of their
/// own, the others go by their name.
pub open spec fn error_message(res: InstructionResult) -> Seq<char>
    recommends
        !ended_well(res),
{
    match res {
        InstructionResult::Revert => "Reverted"@,
        InstructionResult::OutOfGas => "Out of gas"@,
        InstructionResult::PrecompileOOG => "Out of gas"@,
        InstructionResult::MemoryOOG => "Out of gas"@,
        InstructionResult::MemoryLimitOOG => "Out of gas"@,
        InstructionResult::InvalidOperandOOG => "Out of gas"@,
        InstructionResult::ReentrancySentryOOG => "Out of gas"@,
        InstructionResult::OutOfFunds => "Insufficient balance for transfer"@,
        InstructionResult::OpcodeNotFound => "Bad instruction"@,
        InstructionResult::InvalidFEOpcode => "Bad instruction"@,
        InstructionResult::StackOverflow => "Out of stack"@,
        InstructionResult::InvalidJump => "Bad jump destination"@,
        InstructionResult::PrecompileError => "Built-in failed"@,
        _ => result_name(res),
    }
}

/// The name of a way to end that goes by its name.
pub open spec fn result_name(res: InstructionResult) -> Seq<char>
    recommends
        goes_by_name(res),
{
    match res {
        InstructionResult::CallTooDeep => "CallTooDeep"@,
        InstructionResult::CreateInitCodeStartingEF00 => "CreateInitCodeStartingEF00"@,
        InstructionResult::InvalidEOFInitCode => "InvalidEOFInitCode"@,
        InstructionResult::InvalidExtDelegateCallTarget => "InvalidExtDelegateCallTarget"@,
        InstructionResult::CallNotAllowedInsideStatic => "CallNotAllowedInsideStatic"@,
        InstructionResult::StateChangeDuringStaticCall => "StateChangeDuringStaticCall"@,
        InstructionResult::NotActivated => "NotActivated"@,
        InstructionResult::StackUnderflow => "StackUnderflow"@,
        InstructionResult::OutOfOffset => "OutOfOffset"@,
        InstructionResult::CreateCollision => "CreateCollision"@,
        InstructionResult::OverflowPayment => "OverflowPayment"@,
        InstructionResult::NonceOverflow => "NonceOverflow"@,
        InstructionResult::CreateContractSizeLimit => "CreateContractSizeLimit"@,
        InstructionResult::CreateContractStartingWithEF => "CreateContractStartingWithEF"@,
        InstructionResult::CreateInitCodeSizeLimit => "CreateInitCodeSizeLimit"@,
        InstructionResult::FatalExternalError => "FatalExternalError"@,
        InstructionResult::InvalidImmediateEncoding => "InvalidImmediateEncoding"@,
        _ => Seq::empty(),
    }
}

/// Whether the message for a way to end is its name.
pub open spec fn goes_by_name(res: InstructionResult) -> bool {
    match res {
        InstructionResult::CallTooDeep => true,
        InstructionResult::CreateInitCodeStartingEF00 => true,
        InstructionResult::InvalidEOFInitCode => true,
        InstructionResult::InvalidExtDelegateCallTarget => true,
        InstructionResult::CallNotAllowedInsideStatic => true,
        InstructionResult::StateChangeDuringStaticCall => true,
        InstructionResult::NotActivated => true,
        InstructionResult::StackUnderflow => true,
        InstructionResult::OutOfOffset => true,
        InstructionResult::CreateCollision => true,
        InstructionResult::OverflowPayment => true,
        InstructionResult::NonceOverflow => true,
        InstructionResult::CreateContractSizeLimit => true,
        InstructionResult::CreateContractStartingWithEF => true,
        InstructionResult::CreateInitCodeSizeLimit => true,
        InstructionResult::FatalExternalError => true,
        InstructionResult::InvalidImmediateEncoding => true,
        _ => false,
    }
}

impl InstructionResult {
    /// Whether a frame that ended this way ended well.
    pub fn is_ok(self) -> (r: bool)
        ensures
            r == ended_well(self),
    {
        matches!(
            self,
            InstructionResult::Stop
            | InstructionResult::Return
            | InstructionResult::SelfDestruct
            | InstructionResult::Suspend
        )
    }
}

/// The message for a frame that ended with an error, if it did.
pub fn fmt_error_msg(res: InstructionResult) -> (r: Option<String>)
    ensures
        r is None <==> ended_well(res),
        r matches Some(msg) ==> msg@ == error_message(res),
{
    if res.is_ok() {
        return None;
    }
    let msg = match res {
        InstructionResult::Revert => "Reverted",
        InstructionResult::OutOfGas
        | InstructionResult::PrecompileOOG
        | InstructionResult::MemoryOOG
        | InstructionResult::MemoryLimitOOG
        | InstructionResult::InvalidOperandOOG
        | InstructionResult::ReentrancySentryOOG => "Out of gas",
        InstructionResult::OutOfFunds => "Insufficient balance for transfer",
        InstructionResult::OpcodeNotFound | InstructionResult::InvalidFEOpcode => "Bad instruction",
        InstructionResult::StackOverflow => "Out of stack",
        InstructionResult::InvalidJump => "Bad jump destination",
        InstructionResult::PrecompileError => "Built-in failed",
        status => return Some(result_display(status)),
    };
    Some(msg.to_owned())
}

/// What was recorded of one frame.
#[derive(Clone, Debug)]
pub struct CallTrace {
    /// Whether the frame succeeded.
    pub success: bool,
    pub caller: Address,
    /// The account that was called or created.
    pub address: Address,
    pub selfdestruct_address: Option<Address>,
    pub selfdestruct_refund_target: Option<Address>,
    pub selfdestruct_transferred_value: Option<U256>,
    pub kind: CallKind,
    pub value: U256,
    /// The input of a call, or the code that creates a contract.
    pub data: Vec<u8>,
    pub output: Vec<u8>,
    pub gas_used: u64,
    pub gas_limit: u64,
    pub status: Option<InstructionResult>,
    /// The opcodes that were recorded, in the order in which they ran.
    pub steps: Vec<u8>,
}

/// A log that a frame emitted.
#[derive(Clone, Debug)]
pub struct CallLog {
    pub topics: Vec<H256>,
    pub data: Vec<u8>,
}

/// One thing that happened in a frame: the log, the child frame or the step at an index.
#[derive(Clone, Copy, Debug, PartialEq, Eq, Structural)]
pub enum TraceMemberOrder {
    /// An index into the logs of the frame.
    Log(usize),
    /// An index into the children of the frame.
    Call(usize),
    /// An index into the steps of the frame.
    Step(usize),
}

/// A frame in its arena.
#[derive(Clone, Debug)]
pub struct CallTraceNode {
    /// The indices in the arena of the frames that this frame entered.
    pub children: Vec<usize>,
    pub trace: CallTrace,
    pub logs: Vec<CallLog>,
    /// What happened in this frame, in order.
    pub ordering: Vec<TraceMemberOrder>,
}

/// The frames of one transaction. The first one is the outermost.
#[derive(Clone, Debug)]
pub struct CallTraceArena {
    pub nodes: Vec<CallTraceNode>,
}

/// Whether a frame ran in the storage of its caller.
pub open spec fn is_delegate(kind: CallKind) -> bool {
    kind is DelegateCall || kind is CallCode
}

/// The account in whose storage a frame ran.
pub open spec fn execution_account(node: CallTraceNode) -> Address {
    if is_delegate(node.trace.kind) {
        node.trace.caller
    } else {
        node.trace.address
    }
}

/// Whether a frame destroyed its account.
pub open spec fn destroys_itself(node: CallTraceNode) -> bool {
    node.trace.status == Some(InstructionResult::SelfDestruct)
        || node.trace.selfdestruct_refund_target is Some
}

impl CallTraceNode {
    /// The account in whose storage this frame ran.
    pub fn execution_address(&self) -> (r: Address)
        ensures
            r == execution_account(*self),
    {
        match self.trace.kind {
            CallKind::DelegateCall | CallKind::CallCode => self.trace.caller,
            _ => self.trace.address,
        }
    }

    /// Whether this frame destroyed its account.
    pub fn is_selfdestruct(&self) -> (r: bool)
        ensures
            r == destroys_itself(*self),
    {
        let by_status = match self.trace.status {
            Some(InstructionResult::SelfDestruct) => true,
            _ => false,
        };
        by_status || self.trace.selfdestruct_refund_target.is_some()
    }
}

} // verus!
