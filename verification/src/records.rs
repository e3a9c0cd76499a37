//! The trace and event records of a transaction, and their identifiers.

use vstd::prelude::*;
use vstd::string::*;
use vstd::utf8::*;

use crate::bindings::{
    call_kind_display, hash_text, md5, md5_digest, md5_text, to_lowercase, usize_text,
};
use crate::call_trace::{
    call_kind_name, ended_well, error_message, fmt_error_msg, CallKind, CallLog, CallTraceNode,
    SSTORE,
};
use crate::primitives::{zero_bytes, Address, U256};
use crate::text::{decimal, hex_chars, is_hex_text, lemma_hex_value, lower_text, prefixed_hex};

verus! {

// ---------------------------------------------------------------------------------------------
// Events
// ---------------------------------------------------------------------------------------------

/// A log, as it is published.
#[derive(Clone, Debug)]
pub struct DebankEvent {
    pub id: String,
    pub contract_id: Address,
    /// The first topic, or nothing.
    pub selector: String,
    /// The topics behind the first one.
    pub topics: Vec<String>,
    pub data: Vec<u8>,
    pub parent_trace_id: String,
    /// The position among the frames and logs of the frame that emitted this log.
    pub pos_in_parent_trace: usize,
    /// The position among the logs of the block.
    pub idx: usize,
}

/// The content of a [`DebankEvent`].
pub struct EventModel {
    pub id: Seq<char>,
    pub contract_id: Seq<u8>,
    pub selector: Seq<char>,
    pub topics: Seq<Seq<char>>,
    pub data: Seq<u8>,
    pub parent_trace_id: Seq<char>,
    pub pos_in_parent_trace: nat,
    pub idx: nat,
}

/// The texts in a list of strings.
pub open spec fn texts(strings: Seq<String>) -> Seq<Seq<char>> {
    Seq::new(strings.len(), |i: int| strings[i]@)
}

impl View for DebankEvent {
    type V = EventModel;

    open spec fn view(&self) -> EventModel {
        EventModel {
            id: self.id@,
            contract_id: self.contract_id@,
            selector: self.selector@,
            topics: texts(self.topics@),
            data: self.data@,
            parent_trace_id: self.parent_trace_id@,
            pos_in_parent_trace: self.pos_in_parent_trace as nat,
            idx: self.idx as nat,
        }
    }
}

/// The event that holds nothing.
pub open spec fn empty_event() -> EventModel {
    EventModel {
        id: Seq::empty(),
        contract_id: zero_bytes(20),
        selector: Seq::empty(),
        topics: Seq::empty(),
        data: Seq::empty(),
        parent_trace_id: Seq::empty(),
        pos_in_parent_trace: 0,
        idx: 0,
    }
}

/// What the event of a log takes from the log itself: the selector is the text of the first
/// topic, the topics are the texts of the others.
pub open spec fn event_of_log(log: CallLog) -> EventModel {
    EventModel {
        selector: if log.topics@.len() > 0 { prefixed_hex(log.topics@[0]@) } else { Seq::empty() },
        topics: if log.topics@.len() > 1 {
            Seq::new((log.topics@.len() - 1) as nat, |i: int| prefixed_hex(log.topics@[i + 1]@))
        } else {
            Seq::empty()
        },
        data: log.data@,
        ..empty_event()
    }
}

impl Default for DebankEvent {
    fn default() -> (r: DebankEvent)
        ensures
            r@ == empty_event(),
    {
        let r = DebankEvent {
            id: String::new(),
            contract_id: Address::zero(),
            selector: String::new(),
            topics: Vec::new(),
            data: Vec::new(),
            parent_trace_id: String::new(),
            pos_in_parent_trace: 0,
            idx: 0,
        };
        assert(r@.topics =~= Seq::empty());
        r
    }
}

/// A copy of a byte string.
pub(crate) fn copy_bytes(bytes: &Vec<u8>) -> (r: Vec<u8>)
    ensures
        r@ == bytes@,
{
    let r = bytes.clone();
    assert(r@ =~= bytes@);
    r
}

/// A copy of an event.
pub(crate) fn copy_event(event: &DebankEvent) -> (r: DebankEvent)
    ensures
        r@ == event@,
{
    let topics = event.topics.clone();
    assert(texts(topics@) =~= texts(event.topics@));
    DebankEvent {
        id: event.id.clone(),
        contract_id: event.contract_id,
        selector: event.selector.clone(),
        topics,
        data: copy_bytes(&event.data),
        parent_trace_id: event.parent_trace_id.clone(),
        pos_in_parent_trace: event.pos_in_parent_trace,
        idx: event.idx,
    }
}

impl DebankEvent {
    /// Takes over what a log holds. The other fields are left empty.
    pub fn from(log: &CallLog) -> (r: DebankEvent)
        ensures
            r@ == event_of_log(*log),
            r.data@ == log.data@,
            log.topics@.len() > 0 ==> r.selector@ == prefixed_hex(log.topics@[0].bytes@),
            log.topics@.len() == 0 ==> r.selector@.len() == 0,
            r.topics@.len() == if log.topics@.len() > 1 { log.topics@.len() - 1 } else { 0 },
            forall|i: int|
                0 <= i < r.topics@.len() ==> (#[trigger] r.topics@[i])@ == prefixed_hex(
                    log.topics@[i + 1].bytes@,
                ),
    {
        let mut event = DebankEvent::default();
        assert(texts(event.topics@).len() == 0);
        if log.topics.len() > 0 {
            event.selector = hash_text(&log.topics[0]);
        }
        let mut i: usize = 1;
        while i < log.topics.len()
            invariant
                1 <= i,
                log.topics@.len() > 0 ==> i <= log.topics@.len(),
                log.topics@.len() == 0 ==> i == 1,
                event.topics@.len() == i - 1,
                forall|j: int|
                    0 <= j < i - 1 ==> (#[trigger] event.topics@[j])@ == prefixed_hex(
                        log.topics@[j + 1]@,
                    ),
                event@ == (EventModel {
                    selector: if log.topics@.len() > 0 {
                        prefixed_hex(log.topics@[0]@)
                    } else {
                        Seq::empty()
                    },
                    topics: texts(event.topics@),
                    ..empty_event()
                }),
            decreases log.topics.len() - i,
        {
            let text = hash_text(&log.topics[i]);
            event.topics.push(text);
            i += 1;
        }
        event.data = copy_bytes(&log.data);
        assert(texts(event.topics@) =~= event_of_log(*log).topics);
        event
    }
}

// ---------------------------------------------------------------------------------------------
// Traces
// ---------------------------------------------------------------------------------------------

/// A frame, as it is published.
#[derive(Clone, Debug)]
pub struct DebankTrace {
    pub id: String,
    pub from_addr: Address,
    pub gas_limit: u64,
    pub input: Vec<u8>,
    pub to_addr: Address,
    pub value: U256,
    pub gas_used: u64,
    pub output: Vec<u8>,
    /// `call`, `create`, `create2` or `suicide`.
    pub call_create_type: String,
    /// For a call, the kind of call in lower case.
    pub call_type: String,
    pub tx_id: String,
    pub parent_trace_id: String,
    /// The position among the frames and logs of the frame that entered this one.
    pub pos_in_parent_trace: usize,
    /// Whether this frame itself wrote storage.
    pub self_storage_change: bool,
    /// Whether this frame or a frame below it wrote storage.
    pub storage_change: bool,
    pub subtraces: usize,
    /// The way to this frame from the outermost one, as positions among children.
    pub trace_address: Vec<usize>,
    /// The message of the error that ended the frame, or nothing.
    pub error: String,
}

/// The content of a [`DebankTrace`].
pub struct TraceModel {
    pub id: Seq<char>,
    pub from_addr: Seq<u8>,
    pub gas_limit: u64,
    pub input: Seq<u8>,
    pub to_addr: Seq<u8>,
    pub value: nat,
    pub gas_used: u64,
    pub output: Seq<u8>,
    pub call_create_type: Seq<char>,
    pub call_type: Seq<char>,
    pub tx_id: Seq<char>,
    pub parent_trace_id: Seq<char>,
    pub pos_in_parent_trace: nat,
    pub self_storage_change: bool,
    pub storage_change: bool,
    pub subtraces: nat,
    pub trace_address: Seq<usize>,
    pub error: Seq<char>,
}

impl View for DebankTrace {
    type V = TraceModel;

    open spec fn view(&self) -> TraceModel {
        TraceModel {
            id: self.id@,
            from_addr: self.from_addr@,
            gas_limit: self.gas_limit,
            input: self.input@,
            to_addr: self.to_addr@,
            value: self.value@,
            gas_used: self.gas_used,
            output: self.output@,
            call_create_type: self.call_create_type@,
            call_type: self.call_type@,
            tx_id: self.tx_id@,
            parent_trace_id: self.parent_trace_id@,
            pos_in_parent_trace: self.pos_in_parent_trace as nat,
            self_storage_change: self.self_storage_change,
            storage_change: self.storage_change,
            subtraces: self.subtraces as nat,
            trace_address: self.trace_address@,
            error: self.error@,
        }
    }
}

/// The trace that holds nothing.
pub open spec fn empty_trace() -> TraceModel {
    TraceModel {
        id: Seq::empty(),
        from_addr: zero_bytes(20),
        gas_limit: 0,
        input: Seq::empty(),
        to_addr: zero_bytes(20),
        value: 0,
        gas_used: 0,
        output: Seq::empty(),
        call_create_type: Seq::empty(),
        call_type: Seq::empty(),
        tx_id: Seq::empty(),
        parent_trace_id: Seq::empty(),
        pos_in_parent_trace: 0,
        self_storage_change: false,
        storage_change: false,
        subtraces: 0,
        trace_address: Seq::empty(),
        error: Seq::empty(),
    }
}

/// Whether a frame of this kind creates a contract.
pub open spec fn creates(kind: CallKind) -> bool {
    kind is Create || kind is Create2
}

/// The type of a frame of this kind.
pub open spec fn create_type(kind: CallKind) -> Seq<char> {
    match kind {
        CallKind::Create => "create"@,
        CallKind::Create2 => "create2"@,
        _ => "call"@,
    }
}

/// Whether a frame itself ran an opcode that writes storage.
pub open spec fn writes_storage(node: CallTraceNode) -> bool {
    node.trace.steps@.contains(SSTORE)
}

/// What the trace of a frame takes from the frame itself.
pub open spec fn trace_of_node(node: CallTraceNode) -> TraceModel {
    TraceModel {
        from_addr: node.trace.caller@,
        gas_limit: node.trace.gas_limit,
        input: node.trace.data@,
        to_addr: node.trace.address@,
        value: node.trace.value@,
        gas_used: node.trace.gas_used,
        output: node.trace.output@,
        call_create_type: create_type(node.trace.kind),
        call_type: if creates(node.trace.kind) {
            Seq::empty()
        } else {
            lower_text(call_kind_name(node.trace.kind))
        },
        self_storage_change: writes_storage(node),
        storage_change: writes_storage(node),
        subtraces: node.children@.len(),
        error: match node.trace.status {
            Some(res) if !ended_well(res) => error_message(res),
            _ => Seq::empty(),
        },
        ..empty_trace()
    }
}

impl Default for DebankTrace {
    fn default() -> (r: DebankTrace)
        ensures
            r@ == empty_trace(),
    {
        DebankTrace {
            id: String::new(),
            from_addr: Address::zero(),
            gas_limit: 0,
            input: Vec::new(),
            to_addr: Address::zero(),
            value: U256::zero(),
            gas_used: 0,
            output: Vec::new(),
            call_create_type: String::new(),
            call_type: String::new(),
            tx_id: String::new(),
            parent_trace_id: String::new(),
            pos_in_parent_trace: 0,
            self_storage_change: false,
            storage_change: false,
            subtraces: 0,
            trace_address: Vec::new(),
            error: String::new(),
        }
    }
}

/// A copy of a trace.
pub(crate) fn copy_trace(trace: &DebankTrace) -> (r: DebankTrace)
    ensures
        r@ == trace@,
{
    let trace_address = trace.trace_address.clone();
    assert(trace_address@ =~= trace.trace_address@);
    DebankTrace {
        id: trace.id.clone(),
        from_addr: trace.from_addr,
        gas_limit: trace.gas_limit,
        input: copy_bytes(&trace.input),
        to_addr: trace.to_addr,
        value: trace.value,
        gas_used: trace.gas_used,
        output: copy_bytes(&trace.output),
        call_create_type: trace.call_create_type.clone(),
        call_type: trace.call_type.clone(),
        tx_id: trace.tx_id.clone(),
        parent_trace_id: trace.parent_trace_id.clone(),
        pos_in_parent_trace: trace.pos_in_parent_trace,
        self_storage_change: trace.self_storage_change,
        storage_change: trace.storage_change,
        subtraces: trace.subtraces,
        trace_address,
        error: trace.error.clone(),
    }
}

/// The kind of a call in lower case.
fn call_type_text(kind: CallKind) -> (r: String)
    ensures
        r@ == lower_text(call_kind_name(kind)),
{
    let name = call_kind_display(kind);
    proof {
        reveal_strlit("CALL");
        reveal_strlit("STATICCALL");
        reveal_strlit("CALLCODE");
        reveal_strlit("DELEGATECALL");
        reveal_strlit("AUTHCALL");
        reveal_strlit("CREATE");
        reveal_strlit("CREATE2");
        assert(is_ascii_chars(name@));
    }
    to_lowercase(name.as_str())
}

impl DebankTrace {
    /// Takes over what a frame holds. The identifiers and the place among the other frames are
    /// left empty.
    pub fn from(call_trace: &CallTraceNode) -> (r: DebankTrace)
        ensures
            r@ == trace_of_node(*call_trace),
            r.from_addr == call_trace.trace.caller,
            r.to_addr == call_trace.trace.address,
            r.gas_limit == call_trace.trace.gas_limit,
            r.gas_used == call_trace.trace.gas_used,
            r.input@ == call_trace.trace.data@,
            r.output@ == call_trace.trace.output@,
            r.value == call_trace.trace.value,
            r.subtraces == call_trace.children@.len(),
            r.self_storage_change == call_trace.trace.steps@.contains(0x55u8),
            r.storage_change == call_trace.trace.steps@.contains(0x55u8),
    {
        let trace = &call_trace.trace;
        let (call_create_type, is_call) = match trace.kind {
            CallKind::Call
            | CallKind::StaticCall
            | CallKind::CallCode
            | CallKind::DelegateCall
            | CallKind::AuthCall => ("call", true),
            CallKind::Create => ("create", false),
            CallKind::Create2 => ("create2", false),
        };
        let call_type = if is_call {
            call_type_text(trace.kind)
        } else {
            String::new()
        };
        let error = match trace.status {
            Some(res) => match fmt_error_msg(res) {
                Some(msg) => msg,
                None => String::new(),
            },
            None => String::new(),
        };
        let mut debank_trace = DebankTrace {
            from_addr: trace.caller,
            gas_limit: trace.gas_limit,
            input: copy_bytes(&trace.data),
            to_addr: trace.address,
            value: trace.value,
            gas_used: trace.gas_used,
            output: copy_bytes(&trace.output),
            call_create_type: call_create_type.to_owned(),
            call_type,
            subtraces: call_trace.children.len(),
            error,
            id: String::new(),
            tx_id: String::new(),
            parent_trace_id: String::new(),
            pos_in_parent_trace: 0,
            self_storage_change: false,
            storage_change: false,
            trace_address: Vec::new(),
        };
        let mut found = false;
        let mut i: usize = 0;
        while i < trace.steps.len() && !found
            invariant
                i <= trace.steps@.len(),
                found ==> trace.steps@.contains(SSTORE),
                !found ==> forall|j: int| 0 <= j < i ==> trace.steps@[j] != SSTORE,
            decreases trace.steps.len() - i,
        {
            if trace.steps[i] == SSTORE {
                assert(trace.steps@[i as int] == SSTORE);
                found = true;
            }
            i += 1;
        }
        debank_trace.self_storage_change = found;
        debank_trace.storage_change = found;
        debank_trace
    }
}

// ---------------------------------------------------------------------------------------------
// Identifiers
// ---------------------------------------------------------------------------------------------

/// The identifier of a record: the MD5 digest of the text that identifies it, in hexadecimal
/// digits.
pub open spec fn record_id(text: Seq<char>) -> Seq<char> {
    hex_chars(md5_digest(encode_utf8(text)))
}

/// Whether a text has the form of an identifier: 32 hexadecimal digits in lower case.
pub open spec fn is_id(text: Seq<char>) -> bool {
    text.len() == 32 && is_hex_text(text)
}

/// The texts of a list, one behind the other.
pub open spec fn joined(args: Seq<&str>) -> Seq<char>
    decreases args.len(),
{
    if args.len() == 0 {
        Seq::empty()
    } else {
        joined(args.drop_last()) + args.last()@
    }
}

/// The text that identifies an event.
pub open spec fn event_source(event: EventModel) -> Seq<char> {
    event.parent_trace_id + decimal(event.pos_in_parent_trace)
}

/// The text that identifies a trace.
pub open spec fn trace_source(trace: TraceModel) -> Seq<char> {
    trace.tx_id + trace.parent_trace_id + decimal(trace.pos_in_parent_trace)
}

/// Records with an identifier that follows from where they stand.
pub trait DebankID {
    /// The text that identifies this record.
    spec fn id_source(&self) -> Seq<char>;

    /// The identifier of this record.
    fn debank_id(&self) -> (r: String)
        ensures
            r@ == record_id(self.id_source()),
            is_id(r@),
    ;

    /// The identifier that follows from a list of texts.
    fn calculate_id(args: Vec<&str>) -> (r: String)
        ensures
            r@ == record_id(joined(args@)),
            is_id(r@),
    {
        let mut input = String::new();
        let mut i: usize = 0;
        assert(args@.take(0) =~= Seq::<&str>::empty());
        while i < args.len()
            invariant
                i <= args@.len(),
                input@ == joined(args@.take(i as int)),
            decreases args.len() - i,
        {
            input.append(args[i]);
            assert(args@.take(i + 1).drop_last() =~= args@.take(i as int));
            i += 1;
        }
        assert(args@.take(i as int) =~= args@);
        let digest = md5(input.as_str().as_bytes());
        proof {
            lemma_hex_value(digest@);
        }
        md5_text(digest)
    }
}

impl DebankID for DebankEvent {
    open spec fn id_source(&self) -> Seq<char> {
        event_source(self@)
    }

    fn debank_id(&self) -> (r: String) {
        let pos = usize_text(self.pos_in_parent_trace);
        let args: Vec<&str> = vec![self.parent_trace_id.as_str(), pos.as_str()];
        proof {
            lemma_joined_two(args@);
        }
        Self::calculate_id(args)
    }
}

impl DebankID for DebankTrace {
    open spec fn id_source(&self) -> Seq<char> {
        trace_source(self@)
    }

    fn debank_id(&self) -> (r: String) {
        let pos = usize_text(self.pos_in_parent_trace);
        let args: Vec<&str> = vec![
            self.tx_id.as_str(),
            self.parent_trace_id.as_str(),
            pos.as_str(),
        ];
        proof {
            lemma_joined_three(args@);
        }
        Self::calculate_id(args)
    }
}

proof fn lemma_joined_two(args: Seq<&str>)
    requires
        args.len() == 2,
    ensures
        joined(args) == args[0]@ + args[1]@,
{
    let one = args.drop_last();
    assert(joined(one.drop_last()) =~= Seq::empty());
    assert(joined(one) =~= args[0]@);
}

/// The texts of two lists, one behind the other.
proof fn lemma_joined_add(a: Seq<&str>, b: Seq<&str>)
    ensures
        joined(a + b) == joined(a) + joined(b),
    decreases b.len(),
{
    if b.len() == 0 {
        assert(a + b =~= a);
        assert(joined(a) + joined(b) =~= joined(a));
    } else {
        lemma_joined_add(a, b.drop_last());
        assert((a + b).drop_last() =~= a + b.drop_last());
        assert(joined(a + b) =~= joined(a) + joined(b));
    }
}

/// How a text is cut into parts does not matter for its identifier: nothing stands between the
/// parts.
pub proof fn law_parts(a: Seq<&str>, b: Seq<&str>)
    requires
        joined(a) == joined(b),
    ensures
        record_id(joined(a)) == record_id(joined(b)),
{
}

/// Empty parts do not matter for an identifier.
pub proof fn law_empty_part(a: Seq<&str>, empty: &str, b: Seq<&str>)
    requires
        empty@.len() == 0,
    ensures
        record_id(joined(a + seq![empty] + b)) == record_id(joined(a + b)),
{
    lemma_joined_add(a + seq![empty], b);
    lemma_joined_add(a, seq![empty]);
    lemma_joined_add(a, b);
    assert(seq![empty].drop_last() =~= Seq::<&str>::empty());
    assert(joined(seq![empty].drop_last()) =~= Seq::empty());
    assert(seq![empty].last()@ =~= Seq::<char>::empty());
    assert(joined(seq![empty]) =~= Seq::empty());
    assert(joined(a + seq![empty]) =~= joined(a));
}

/// Three texts, one behind the other.
pub proof fn lemma_joined_three(args: Seq<&str>)
    requires
        args.len() == 3,
    ensures
        joined(args) == args[0]@ + args[1]@ + args[2]@,
{
    lemma_joined_two(args.drop_last());
}

} // verus!
