//! How blocks are asked for.

use vstd::prelude::*;

use crate::bindings::block_id_display;
use crate::primitives::H256;
use crate::text::{hex_number, prefixed_hex};

verus! {

/// A block by its number, or by its place in the chain.
#[derive(Clone, Copy, Debug, PartialEq, Eq)]
pub enum BlockNumberOrTag {
    Latest,
    Finalized,
    Safe,
    Earliest,
    Pending,
    Number(u64),
}

/// A block by its hash, which may have to be part of the canonical chain.
#[derive(Clone, Copy, Debug, PartialEq, Eq)]
pub struct RpcBlockHash {
    pub block_hash: H256,
    pub require_canonical: Option<bool>,
}

/// What a block is asked for by.
#[derive(Clone, Copy, Debug, PartialEq, Eq)]
pub enum BlockId {
    Hash(RpcBlockHash),
    Number(BlockNumberOrTag),
}

/// The block with a hash, on whatever chain it is.
pub open spec fn id_of_hash(block_hash: H256) -> BlockId {
    BlockId::Hash(RpcBlockHash { block_hash, require_canonical: None })
}

/// How a block is named in messages.
pub open spec fn block_id_text(block_id: BlockId) -> Seq<char> {
    match block_id {
        BlockId::Hash(hash) => {
            let text = "hash "@ + prefixed_hex(hash.block_hash@);
            if hash.require_canonical == Some(true) {
                "canonical "@ + text
            } else {
                text
            }
        },
        BlockId::Number(BlockNumberOrTag::Number(n)) => "0x"@ + hex_number(n as nat),
        BlockId::Number(BlockNumberOrTag::Latest) => "latest"@,
        BlockId::Number(BlockNumberOrTag::Finalized) => "finalized"@,
        BlockId::Number(BlockNumberOrTag::Safe) => "safe"@,
        BlockId::Number(BlockNumberOrTag::Earliest) => "earliest"@,
        BlockId::Number(BlockNumberOrTag::Pending) => "pending"@,
    }
}

impl BlockId {
    /// The block with a hash, on whatever chain it is.
    pub fn from(block_hash: H256) -> (r: BlockId)
        ensures
            r == id_of_hash(block_hash),
    {
        BlockId::Hash(RpcBlockHash { block_hash, require_canonical: None })
    }

    /// How this block is named in messages.
    pub fn text(&self) -> (r: String)
        ensures
            r@ == block_id_text(*self),
    {
        block_id_display(*self)
    }
}

} // verus!
