//! What is published of a block for the `trace_debankBlock` method.
//!
//! A request for a block goes through the states of [`trace_api::TraceState`] to an answer,
//! [`block_file::DebankOutPut`]. The answer holds the record of the block, the records of its
//! transactions ([`block`]), of its call frames and logs ([`trace_tree`]), or of the genesis state
//! ([`genesis`]), the changes of the state ([`state_diff`]) as bytes ([`diff_encoding`]), and a
//! number that validates it.
//!
//! What holds across functions is stated in the modules whose names end in `laws`.

pub mod api_laws;
pub mod bindings;
pub mod block;
pub mod block_file;
pub mod block_id;
pub mod block_laws;
pub mod call_trace;
pub mod diff_encoding;
pub mod diff_laws;
pub mod encoding_laws;
pub mod frame_laws;
pub mod genesis;
pub mod genesis_laws;
pub mod lists;
pub mod primitives;
pub mod published_laws;
pub mod record_laws;
pub mod records;
pub mod rlp;
pub mod state_diff;
pub mod text;
pub mod trace_api;
pub mod trace_laws;
pub mod trace_tree;
pub mod tree_laws;
