//! What is published of a block, and the number that validates it.

use vstd::prelude::*;
use vstd::string::*;
use vstd::utf8::*;

use crate::bindings::{
    encode_hex, hash_text, sha1, sha1_digest, word_add, word_from_hex, word_text,
};
use crate::block::{
    is_empty_block, is_empty_header, DebankBlock, DebankTransaction, Header, HeaderModel,
    TransactionModel,
};
use crate::lists::views;
use crate::primitives::{be_value, lemma_be_bound, Address, U256};
use crate::records::{texts, DebankEvent, DebankTrace, EventModel, TraceModel};
use crate::rlp::RlpEncode;
use crate::state_diff::{BlockStorageDiff, DiffModel};
use crate::text::{
    decimal_value, is_decimal_text, lemma_decimal, lemma_decimal_bound, lemma_hex_value,
    lemma_last_digits, parse_decimal, pow10, prefixed_hex,
};
use crate::trace_tree::{
    entry_model, entry_models, Lists, TraceEntry,
};

verus! {

// ---------------------------------------------------------------------------------------------
// Validation
// ---------------------------------------------------------------------------------------------

/// The number that the SHA-1 digest of an identifier stands for big-endian.
pub open spec fn id_digest(id: Seq<char>) -> nat {
    be_value(sha1_digest(encode_utf8(id)))
}

/// The sum of the numbers of some identifiers.
pub open spec fn digest_sum(ids: Seq<Seq<char>>) -> nat
    decreases ids.len(),
{
    if ids.len() == 0 {
        0
    } else {
        digest_sum(ids.drop_last()) + id_digest(ids.last())
    }
}

/// The number that validates a list of identifiers: the last six decimal digits of their sum.
pub open spec fn validation_number(ids: Seq<Seq<char>>) -> nat {
    digest_sum(ids) % 1_000_000
}

/// Reads the last six digits of a decimal text, or all if there are fewer.
fn last_six_digits(text: &str) -> (r: i64)
    requires
        is_decimal_text(text@),
    ensures
        r == decimal_value(text@) % 1_000_000,
{
    broadcast use is_ascii_spec_bytes;

    assert(is_ascii(text));
    assert(pow10(6) == 1_000_000) by {
        reveal_with_fuel(pow10, 7);
    }
    let len = text.as_bytes().len();
    if len >= 6 {
        let tail = text.substring_ascii(len - 6, len);
        proof {
            assert(tail@ =~= text@.skip(len - 6));
            lemma_last_digits(text@, 6);
        }
        parse_decimal(tail)
    } else {
        proof {
            lemma_decimal_bound(text@);
            reveal_with_fuel(pow10, 7);
        }
        parse_decimal(text)
    }
}

/// The number that validates a list of identifiers. It does not depend on their order.
pub fn calc_validation_hash(ids: &[String]) -> (r: i64)
    ensures
        r == validation_number(texts(ids@)),
        0 <= r < 1_000_000,
{
    let mut sum = U256::zero();
    let mut i: usize = 0;
    assert(texts(ids@.take(0)) =~= Seq::empty());
    while i < ids.len()
        invariant
            i <= ids@.len(),
            sum@ == digest_sum(texts(ids@.take(i as int))),
            sum@ <= i * 0x1_0000_0000_0000_0000_0000_0000_0000_0000_0000_0000nat,
        decreases ids.len() - i,
    {
        let digest = sha1(ids[i].as_str().as_bytes());
        let hex = encode_hex(digest.as_slice());
        proof {
            lemma_hex_value(digest@);
            lemma_be_bound(digest@);
            let head = texts(ids@.take(i + 1));
            assert(head.drop_last() =~= texts(ids@.take(i as int)));
            assert(head.last() == ids@[i as int]@);
        }
        sum = word_add(sum, word_from_hex(hex.as_str()));
        i += 1;
    }
    assert(ids@.take(i as int) =~= ids@);
    let text = word_text(sum);
    proof {
        lemma_decimal(sum@);
    }
    last_six_digits(text.as_str())
}

/// Whether a block is valid.
#[derive(Clone, Copy, Debug)]
pub struct BlockValidation {
    pub validation_hash: i64,
    pub is_fork: bool,
}

impl Default for BlockValidation {
    fn default() -> (r: BlockValidation)
        ensures
            r.validation_hash == 0,
            !r.is_fork,
    {
        BlockValidation { validation_hash: 0, is_fork: false }
    }
}

// ---------------------------------------------------------------------------------------------
// Files
// ---------------------------------------------------------------------------------------------

/// The records of a block.
#[derive(Clone, Debug)]
pub struct BlockFile {
    pub block: DebankBlock,
    pub transactions: Vec<DebankTransaction>,
    pub events: Vec<DebankEvent>,
    pub traces: Vec<DebankTrace>,
    /// The events that did not take effect.
    pub error_events: Vec<DebankEvent>,
    /// The traces that did not take effect.
    pub error_traces: Vec<DebankTrace>,
    /// The accounts whose storage the block touched.
    pub storage_contracts: Vec<Address>,
}

/// The content of a [`BlockFile`].
pub struct FileModel {
    pub block: DebankBlock,
    pub transactions: Seq<TransactionModel>,
    pub events: Seq<EventModel>,
    pub traces: Seq<TraceModel>,
    pub error_events: Seq<EventModel>,
    pub error_traces: Seq<TraceModel>,
    pub storage_contracts: Seq<Address>,
}

impl View for BlockFile {
    type V = FileModel;

    open spec fn view(&self) -> FileModel {
        FileModel {
            block: self.block,
            transactions: views(self.transactions@),
            events: views(self.events@),
            traces: views(self.traces@),
            error_events: views(self.error_events@),
            error_traces: views(self.error_traces@),
            storage_contracts: self.storage_contracts@,
        }
    }
}

/// The records of a block with these transactions, and nothing else.
pub open spec fn plain_file(block: DebankBlock, transactions: Seq<TransactionModel>) -> FileModel {
    FileModel {
        block,
        transactions,
        events: Seq::empty(),
        traces: Seq::empty(),
        error_events: Seq::empty(),
        error_traces: Seq::empty(),
        storage_contracts: Seq::empty(),
    }
}

impl Default for BlockFile {
    fn default() -> (r: BlockFile)
        ensures
            is_empty_block(r@.block),
            r@ == plain_file(r@.block, Seq::empty()),
    {
        let transactions: Vec<DebankTransaction> = Vec::new();
        assert(views(transactions@) =~= Seq::empty());
        BlockFile::new(DebankBlock::default(), transactions)
    }
}

/// The identifiers of the transactions, the events and the traces of a block.
pub open spec fn record_ids(file: FileModel) -> Seq<Seq<char>> {
    Seq::new(file.transactions.len(), |i: int| file.transactions[i].id)
        + Seq::new(file.events.len(), |i: int| file.events[i].id)
        + Seq::new(file.traces.len(), |i: int| file.traces[i].id)
}

/// The identifiers that validate a block: those of the block itself, its transactions, its
/// events and its traces, where only what took effect counts.
pub open spec fn file_ids(file: FileModel) -> Seq<Seq<char>> {
    seq![prefixed_hex(file.block.id@)] + record_ids(file)
}

impl BlockFile {
    /// The records of a block with these transactions, and nothing else.
    pub(crate) fn new(block: DebankBlock, transactions: Vec<DebankTransaction>) -> (r: BlockFile)
        ensures
            r@ == plain_file(block, views(transactions@)),
    {
        let r = BlockFile {
            block,
            transactions,
            events: Vec::new(),
            traces: Vec::new(),
            error_events: Vec::new(),
            error_traces: Vec::new(),
            storage_contracts: Vec::new(),
        };
        proof {
            assert(r@.events =~= Seq::empty());
            assert(r@.traces =~= Seq::empty());
            assert(r@.error_events =~= Seq::empty());
            assert(r@.error_traces =~= Seq::empty());
        }
        r
    }

    /// The validation of a block: the number that its identifiers give. A block is never taken
    /// for a fork.
    pub fn validation(&self) -> (r: BlockValidation)
        ensures
            r.validation_hash == validation_number(file_ids(self@)),
            !r.is_fork,
    {
        let mut ids: Vec<String> = Vec::new();
        ids.push(hash_text(&self.block.id));
        let ghost head = seq![prefixed_hex(self.block.id@)];
        assert(texts(ids@) =~= head);
        let mut i: usize = 0;
        while i < self.transactions.len()
            invariant
                i <= self.transactions@.len(),
                texts(ids@) =~= head + Seq::new(i as nat, |k: int| self@.transactions[k].id),
            decreases self.transactions.len() - i,
        {
            let ghost before = ids@;
            ids.push(self.transactions[i].id.clone());
            assert(texts(ids@) =~= texts(before).push(self@.transactions[i as int].id));
            i += 1;
        }
        let ghost head = head + Seq::new(self@.transactions.len(), |k: int| self@.transactions[k].id);
        let mut i: usize = 0;
        while i < self.events.len()
            invariant
                i <= self.events@.len(),
                texts(ids@) =~= head + Seq::new(i as nat, |k: int| self@.events[k].id),
            decreases self.events.len() - i,
        {
            let ghost before = ids@;
            ids.push(self.events[i].id.clone());
            assert(texts(ids@) =~= texts(before).push(self@.events[i as int].id));
            i += 1;
        }
        let ghost head = head + Seq::new(self@.events.len(), |k: int| self@.events[k].id);
        let mut i: usize = 0;
        while i < self.traces.len()
            invariant
                i <= self.traces@.len(),
                texts(ids@) =~= head + Seq::new(i as nat, |k: int| self@.traces[k].id),
            decreases self.traces.len() - i,
        {
            let ghost before = ids@;
            ids.push(self.traces[i].id.clone());
            assert(texts(ids@) =~= texts(before).push(self@.traces[i as int].id));
            i += 1;
        }
        assert(texts(ids@) =~= file_ids(self@));
        BlockValidation { validation_hash: calc_validation_hash(ids.as_slice()), is_fork: false }
    }
}

/// The records of some transactions, those of the first one first.
pub open spec fn gathered(entries: Seq<Lists>) -> Lists
    decreases entries.len(),
{
    if entries.len() == 0 {
        (Seq::empty(), Seq::empty(), Seq::empty(), Seq::empty())
    } else {
        let before = gathered(entries.drop_last());
        let last = entries.last();
        (before.0 + last.0, before.1 + last.1, before.2 + last.2, before.3 + last.3)
    }
}

/// The records of a block that was traced: the traces and events of its transactions, and the
/// accounts whose storage it touched.
pub open spec fn traced_file(
    block: DebankBlock,
    transactions: Seq<TransactionModel>,
    entries: Seq<Lists>,
    storage_contracts: Seq<Address>,
) -> FileModel {
    FileModel {
        block,
        transactions,
        events: gathered(entries).2,
        traces: gathered(entries).0,
        error_events: gathered(entries).3,
        error_traces: gathered(entries).1,
        storage_contracts,
    }
}

impl BlockFile {
    /// The records of a block that was traced.
    pub(crate) fn traced(
        block: DebankBlock,
        transactions: Vec<DebankTransaction>,
        entries: Vec<TraceEntry>,
        storage_contracts: Vec<Address>,
    ) -> (r: BlockFile)
        ensures
            r@ == traced_file(
                block,
                views(transactions@),
                entry_models(entries@),
                storage_contracts@,
            ),
    {
        let ghost all = entry_models(entries@);
        let ghost list = entries@;
        let mut traces: Vec<DebankTrace> = Vec::new();
        let mut error_traces: Vec<DebankTrace> = Vec::new();
        let mut events: Vec<DebankEvent> = Vec::new();
        let mut error_events: Vec<DebankEvent> = Vec::new();
        assert(all.take(0) =~= Seq::empty());
        for entry in it: entries
            invariant
                it.seq() == list,
                all == entry_models(list),
                views(traces@) =~= gathered(all.take(it.index() as int)).0,
                views(error_traces@) =~= gathered(all.take(it.index() as int)).1,
                views(events@) =~= gathered(all.take(it.index() as int)).2,
                views(error_events@) =~= gathered(all.take(it.index() as int)).3,
        {
            let ghost j = it.index() as int;
            proof {
                assert(list[j] == entry);
                assert(all.take(j + 1).drop_last() =~= all.take(j));
                assert(all.take(j + 1).last() == entry_model(entry));
            }
            let (mut trace, mut error_trace, mut event, mut error_event) = entry;
            traces.append(&mut trace);
            error_traces.append(&mut error_trace);
            events.append(&mut event);
            error_events.append(&mut error_event);
        }
        assert(all.take(all.len() as int) =~= all);
        BlockFile {
            block,
            transactions,
            events,
            traces,
            error_events,
            error_traces,
            storage_contracts,
        }
    }
}

// ---------------------------------------------------------------------------------------------
// Output
// ---------------------------------------------------------------------------------------------

/// What is published of a block.
#[derive(Clone, Debug)]
pub struct DebankOutPut {
    pub block_file: BlockFile,
    pub header: Header,
    /// The encoded state difference.
    pub state_diff: Vec<u8>,
    pub validation_hash: i64,
}

/// The content of a [`DebankOutPut`].
pub struct OutputModel {
    pub block_file: FileModel,
    pub header: HeaderModel,
    pub state_diff: Seq<u8>,
    pub validation_hash: int,
}

impl View for DebankOutPut {
    type V = OutputModel;

    open spec fn view(&self) -> OutputModel {
        OutputModel {
            block_file: self.block_file@,
            header: self.header@,
            state_diff: self.state_diff@,
            validation_hash: self.validation_hash as int,
        }
    }
}

/// What is published of a block with these records, this header and this state difference.
pub open spec fn output_of(file: FileModel, header: HeaderModel, diff: DiffModel) -> OutputModel {
    OutputModel {
        block_file: file,
        header,
        state_diff: BlockStorageDiff::item(diff),
        validation_hash: validation_number(file_ids(file)) as int,
    }
}

impl DebankOutPut {
    /// What is published of a block with these records, this header and this state difference.
    pub(crate) fn new(block_file: BlockFile, header: Header, state_diff: BlockStorageDiff) -> (r:
        DebankOutPut)
        ensures
            r@ == output_of(block_file@, header@, state_diff@),
    {
        let validation_hash = block_file.validation().validation_hash;
        DebankOutPut { block_file, header, state_diff: state_diff.encode(), validation_hash }
    }
}

impl Default for DebankOutPut {
    fn default() -> (r: DebankOutPut)
        ensures
            is_empty_block(r@.block_file.block),
            r@.block_file == plain_file(r@.block_file.block, Seq::empty()),
            is_empty_header(r@.header),
            r@.state_diff.len() == 0,
            r@.validation_hash == 0,
    {
        DebankOutPut {
            block_file: BlockFile::default(),
            header: Header::default(),
            state_diff: Vec::new(),
            validation_hash: 0,
        }
    }
}

// ---------------------------------------------------------------------------------------------
// Laws
// ---------------------------------------------------------------------------------------------

/// The order of identifiers does not matter for the number that validates them.
pub proof fn law_validation_order(a: Seq<Seq<char>>, b: Seq<Seq<char>>)
    requires
        a.to_multiset() == b.to_multiset(),
    ensures
        validation_number(a) == validation_number(b),
{
    lemma_sum_order(a, b);
}

proof fn lemma_sum_order(a: Seq<Seq<char>>, b: Seq<Seq<char>>)
    requires
        a.to_multiset() == b.to_multiset(),
    ensures
        digest_sum(a) == digest_sum(b),
    decreases a.len(),
{
    broadcast use vstd::seq_lib::group_to_multiset_ensures;

    a.to_multiset_ensures();
    b.to_multiset_ensures();
    if a.len() > 0 {
        let last = a.last();
        assert(a[a.len() - 1] == last);
        assert(a.contains(last));
        assert(b.to_multiset().count(last) > 0);
        assert(b.contains(last));
        let j = choose|j: int| 0 <= j < b.len() && b[j] == last;
        let (rest, others) = (a.remove(a.len() - 1), b.remove(j));
        assert(rest =~= a.drop_last());
        assert(rest.to_multiset() == a.to_multiset().remove(last));
        assert(others.to_multiset() == b.to_multiset().remove(last));
        lemma_sum_order(rest, others);
        lemma_sum_remove(b, j);
    }
}

proof fn lemma_sum_remove(ids: Seq<Seq<char>>, j: int)
    requires
        0 <= j < ids.len(),
    ensures
        digest_sum(ids) == digest_sum(ids.remove(j)) + id_digest(ids[j]),
    decreases ids.len(),
{
    let others = ids.remove(j);
    if j == ids.len() - 1 {
        assert(others =~= ids.drop_last());
    } else {
        lemma_sum_remove(ids.drop_last(), j);
        assert(others.drop_last() =~= ids.drop_last().remove(j));
        assert(others.last() == ids.last());
    }
}

/// Nothing matters for the validation of a block but its own identifier and those of its
/// transactions, its events and its traces, in whatever order: not what did not take effect, not
/// the list of touched accounts, and nothing else that the records hold.
pub proof fn law_validation_scope(a: FileModel, b: FileModel)
    requires
        a.block.id@ == b.block.id@,
        record_ids(a).to_multiset() == record_ids(b).to_multiset(),
    ensures
        validation_number(file_ids(a)) == validation_number(file_ids(b)),
{
    vstd::seq_lib::lemma_multiset_commutative(
        seq![prefixed_hex(a.block.id@)],
        record_ids(a),
    );
    vstd::seq_lib::lemma_multiset_commutative(
        seq![prefixed_hex(b.block.id@)],
        record_ids(b),
    );
    law_validation_order(file_ids(a), file_ids(b));
}

} // verus!
