//! Calls into other crates and into parts of the standard library that Verus does not know.
//!
//! Nothing in this file is proved: each function states what the called function is documented
//! to return, and the rest of the crate is verified against these statements.

use revm::interpreter::InstructionResult as Outcome;
use revm_inspectors::tracing::types::CallKind as TracerCallKind;
use sha1::Digest;
use vstd::prelude::*;
use vstd::utf8::is_ascii_chars;

use crate::block_id::{block_id_text, BlockId, BlockNumberOrTag};
use crate::call_trace::{
    call_kind_name, goes_by_name, result_name, CallKind, InstructionResult as Res,
};
use crate::primitives::{be_value, word_count, Address, H256, U256};
use crate::rlp::{rlp_number, rlp_prefix, rlp_string};
use crate::text::{decimal, hex_chars, hex_value, is_hex_text, lower_text, prefixed_hex};

verus! {

// ---------------------------------------------------------------------------------------------
// Digests
// ---------------------------------------------------------------------------------------------

/// The Keccak-256 digest of a byte string.
pub uninterp spec fn keccak256_digest(data: Seq<u8>) -> Seq<u8>;

/// Calls `alloy_primitives::keccak256`: the result is the Keccak-256 digest of the bytes.
#[verifier::external_body]
pub(crate) fn keccak256(data: &[u8]) -> (r: H256)
    ensures
        r@ == keccak256_digest(data@),
{
    H256 { bytes: alloy_primitives::keccak256(data).0 }
}

/// Reads `alloy_consensus::constants::KECCAK_EMPTY`, which is documented as the Keccak-256
/// digest of the empty string.
#[verifier::external_body]
pub(crate) fn keccak_empty() -> (r: H256)
    ensures
        r@ == keccak256_digest(Seq::empty()),
{
    H256 { bytes: alloy_consensus::constants::KECCAK_EMPTY.0 }
}

/// The root hash of the trie that holds nothing.
pub open spec fn empty_trie_root() -> Seq<u8> {
    seq![
        0x56u8, 0xe8u8, 0x1fu8, 0x17u8, 0x1bu8, 0xccu8, 0x55u8, 0xa6u8, 0xffu8, 0x83u8, 0x45u8,
        0xe6u8, 0x92u8, 0xc0u8, 0xf8u8, 0x6eu8, 0x5bu8, 0x48u8, 0xe0u8, 0x1bu8, 0x99u8, 0x6cu8,
        0xadu8, 0xc0u8, 0x01u8, 0x62u8, 0x2fu8, 0xb5u8, 0xe3u8, 0x63u8, 0xb4u8, 0x21u8,
    ]
}

/// Reads `alloy_consensus::constants::EMPTY_ROOT_HASH`, the root hash of an empty trie: the 32
/// bytes of that constant.
#[verifier::external_body]
pub(crate) fn empty_root_hash() -> (r: H256)
    ensures
        r@ == empty_trie_root(),
{
    H256 { bytes: alloy_consensus::constants::EMPTY_ROOT_HASH.0 }
}

/// The hash of a list of ommers that holds none.
pub open spec fn empty_ommers_hash() -> Seq<u8> {
    seq![
        0x1du8, 0xccu8, 0x4du8, 0xe8u8, 0xdeu8, 0xc7u8, 0x5du8, 0x7au8, 0xabu8, 0x85u8, 0xb5u8,
        0x67u8, 0xb6u8, 0xccu8, 0xd4u8, 0x1au8, 0xd3u8, 0x12u8, 0x45u8, 0x1bu8, 0x94u8, 0x8au8,
        0x74u8, 0x13u8, 0xf0u8, 0xa1u8, 0x42u8, 0xfdu8, 0x40u8, 0xd4u8, 0x93u8, 0x47u8,
    ]
}

/// Reads `alloy_consensus::constants::EMPTY_OMMER_ROOT_HASH`, which the source gives as a
/// literal.
#[verifier::external_body]
pub(crate) fn empty_ommer_root_hash() -> (r: H256)
    ensures
        r@ == empty_ommers_hash(),
{
    H256 { bytes: alloy_consensus::constants::EMPTY_OMMER_ROOT_HASH.0 }
}

/// The SHA-1 digest of a byte string.
pub uninterp spec fn sha1_digest(data: Seq<u8>) -> Seq<u8>;

/// Runs `sha1::Sha1` over the bytes: the result is their SHA-1 digest, 20 bytes long.
#[verifier::external_body]
pub(crate) fn sha1(data: &[u8]) -> (r: [u8; 20])
    ensures
        r@ == sha1_digest(data@),
{
    let mut hasher = sha1::Sha1::new();
    hasher.update(data);
    hasher.finalize().into()
}

/// The MD5 digest of a byte string.
pub uninterp spec fn md5_digest(data: Seq<u8>) -> Seq<u8>;

/// Calls `md5::compute`: the result is the MD5 digest of the bytes, 16 bytes long.
#[verifier::external_body]
pub(crate) fn md5(data: &[u8]) -> (r: [u8; 16])
    ensures
        r@ == md5_digest(data@),
{
    md5::compute(data).0
}

/// Formats an `md5::Digest` with `{:x}`: two lower-case hexadecimal digits for each byte.
#[verifier::external_body]
pub(crate) fn md5_text(digest: [u8; 16]) -> (r: String)
    ensures
        r@ == hex_chars(digest@),
{
    format!("{:x}", md5::Digest(digest))
}

// ---------------------------------------------------------------------------------------------
// Texts
// ---------------------------------------------------------------------------------------------

/// Calls `alloy_primitives::hex::encode`: two lower-case hexadecimal digits for each byte.
#[verifier::external_body]
pub(crate) fn encode_hex(data: &[u8]) -> (r: String)
    ensures
        r@ == hex_chars(data@),
{
    alloy_primitives::hex::encode(data)
}

/// Formats an `alloy_primitives::B256` with `to_string`: `0x` and all its bytes in lower-case
/// hexadecimal digits.
#[verifier::external_body]
pub(crate) fn hash_text(hash: &H256) -> (r: String)
    ensures
        r@ == prefixed_hex(hash@),
{
    alloy_primitives::B256::from(hash.bytes).to_string()
}

/// Formats an `alloy_primitives::Address` with `to_string`: `0x` and the hexadecimal digits of
/// the address, where the case of each letter carries a checksum.
#[verifier::external_body]
pub(crate) fn address_display(address: &Address) -> (r: String)
    ensures
        is_ascii_chars(r@),
        lower_text(r@) == prefixed_hex(address@),
{
    alloy_primitives::Address::from(address.bytes).to_string()
}

/// Formats an `alloy_primitives::Address` with `{:?}`: `0x` and the bytes of the address in
/// lower-case hexadecimal digits.
#[verifier::external_body]
pub(crate) fn address_debug(address: &Address) -> (r: String)
    ensures
        r@ == prefixed_hex(address@),
{
    format!("{:?}", alloy_primitives::Address::from(address.bytes))
}

/// Formats a `revm_inspectors` call kind with `to_string`: the name of its opcode in upper case.
#[verifier::external_body]
pub(crate) fn call_kind_display(kind: CallKind) -> (r: String)
    ensures
        r@ == call_kind_name(kind),
{
    let kind = match kind {
        CallKind::Call => TracerCallKind::Call,
        CallKind::StaticCall => TracerCallKind::StaticCall,
        CallKind::CallCode => TracerCallKind::CallCode,
        CallKind::DelegateCall => TracerCallKind::DelegateCall,
        CallKind::AuthCall => TracerCallKind::AuthCall,
        CallKind::Create => TracerCallKind::Create,
        CallKind::Create2 => TracerCallKind::Create2,
    };
    kind.to_string()
}

/// Formats a `revm` instruction result with `{:?}`: the name of its variant. Of the results that
/// go by their name only one is left for the last arm.
#[verifier::external_body]
pub(crate) fn result_display(res: Res) -> (r: String)
    requires
        goes_by_name(res),
    ensures
        r@ == result_name(res),
{
    let res = match res {
        Res::CallTooDeep => Outcome::CallTooDeep, Res::CreateContractStartingWithEF => Outcome::CreateContractStartingWithEF,
        Res::OutOfOffset => Outcome::OutOfOffset, Res::InvalidExtDelegateCallTarget => Outcome::InvalidExtDelegateCallTarget,
        Res::NotActivated => Outcome::NotActivated, Res::StateChangeDuringStaticCall => Outcome::StateChangeDuringStaticCall,
        Res::NonceOverflow => Outcome::NonceOverflow, Res::CallNotAllowedInsideStatic => Outcome::CallNotAllowedInsideStatic,
        Res::StackUnderflow => Outcome::StackUnderflow, Res::CreateInitCodeStartingEF00 => Outcome::CreateInitCodeStartingEF00,
        Res::CreateCollision => Outcome::CreateCollision, Res::CreateInitCodeSizeLimit => Outcome::CreateInitCodeSizeLimit,
        Res::OverflowPayment => Outcome::OverflowPayment, Res::CreateContractSizeLimit => Outcome::CreateContractSizeLimit,
        Res::InvalidEOFInitCode => Outcome::InvalidEOFInitCode, Res::FatalExternalError => Outcome::FatalExternalError,
        _ => Outcome::InvalidImmediateEncoding,
    };
    format!("{res:?}")
}

/// Formats an `alloy_eips::BlockId` with `to_string`: the hash behind `hash `, with `canonical `
/// in front of it where the block must be canonical; the number behind `0x` in hexadecimal
/// digits; or the name of the tag.
#[verifier::external_body]
pub(crate) fn block_id_display(block_id: BlockId) -> (r: String)
    ensures
        r@ == block_id_text(block_id),
{
    let block_id = match block_id {
        BlockId::Hash(hash) => alloy_eips::BlockId::Hash(alloy_eips::RpcBlockHash {
            block_hash: hash.block_hash.bytes.into(),
            require_canonical: hash.require_canonical,
        }),
        BlockId::Number(BlockNumberOrTag::Number(n)) => alloy_eips::BlockId::number(n),
        BlockId::Number(BlockNumberOrTag::Latest) => alloy_eips::BlockId::latest(),
        BlockId::Number(BlockNumberOrTag::Finalized) => alloy_eips::BlockId::finalized(),
        BlockId::Number(BlockNumberOrTag::Safe) => alloy_eips::BlockId::safe(),
        BlockId::Number(BlockNumberOrTag::Earliest) => alloy_eips::BlockId::earliest(),
        BlockId::Number(BlockNumberOrTag::Pending) => alloy_eips::BlockId::pending(),
    };
    block_id.to_string()
}

/// Calls `str::to_lowercase`, which on an ASCII text lowers the letters `A` to `Z` and keeps
/// the other characters.
#[verifier::external_body]
pub(crate) fn to_lowercase(text: &str) -> (r: String)
    requires
        is_ascii_chars(text@),
    ensures
        r@ == lower_text(text@),
{
    text.to_lowercase()
}

/// Formats a `usize` with `to_string`: its decimal digits, without leading zeroes.
#[verifier::external_body]
pub(crate) fn usize_text(n: usize) -> (r: String)
    ensures
        r@ == decimal(n as nat),
{
    n.to_string()
}

// ---------------------------------------------------------------------------------------------
// 256-bit words
// ---------------------------------------------------------------------------------------------

/// Calls `alloy_primitives::U256::from_str_radix` with radix 16. Up to 64 hexadecimal digits fit
/// in a word, so the call succeeds and the word is the number that the digits stand for.
#[verifier::external_body]
pub(crate) fn word_from_hex(text: &str) -> (r: U256)
    requires
        is_hex_text(text@),
        text@.len() <= 64,
    ensures
        r@ == hex_value(text@),
{
    U256 { limbs: alloy_primitives::U256::from_str_radix(text, 16).unwrap().into_limbs() }
}

/// Calls `alloy_primitives::U256::from` on a `u128`: the word for the same number.
#[verifier::external_body]
pub(crate) fn word_from_u128(n: u128) -> (r: U256)
    ensures
        r@ == n,
{
    U256 { limbs: alloy_primitives::U256::from(n).into_limbs() }
}

/// Calls `alloy_primitives::U256::to`, which converts a word to a `u128` and panics if the word
/// does not fit.
#[verifier::external_body]
pub(crate) fn word_to_u128(word: U256) -> (r: u128)
    requires
        word@ <= u128::MAX,
    ensures
        r == word@,
{
    alloy_primitives::U256::from_limbs(word.limbs).to()
}

/// Divides two words with `/` of `alloy_primitives::U256`, which rounds down and panics if the
/// divisor is zero.
#[verifier::external_body]
pub(crate) fn word_div(a: U256, b: U256) -> (r: U256)
    requires
        b@ > 0,
    ensures
        r@ == a@ / b@,
{
    let quotient = alloy_primitives::U256::from_limbs(a.limbs)
        / alloy_primitives::U256::from_limbs(b.limbs);
    U256 { limbs: quotient.into_limbs() }
}

/// Adds two words with `+=` of `alloy_primitives::U256`, which wraps around at the number of
/// different words.
#[verifier::external_body]
pub(crate) fn word_add(a: U256, b: U256) -> (r: U256)
    ensures
        r@ == (a@ + b@) % word_count(),
{
    let mut sum = alloy_primitives::U256::from_limbs(a.limbs);
    sum += alloy_primitives::U256::from_limbs(b.limbs);
    U256 { limbs: sum.into_limbs() }
}

/// Formats an `alloy_primitives::U256` with `to_string`: its decimal digits, without leading
/// zeroes.
#[verifier::external_body]
pub(crate) fn word_text(word: U256) -> (r: String)
    ensures
        r@ == decimal(word@),
{
    alloy_primitives::U256::from_limbs(word.limbs).to_string()
}

/// Calls `alloy_primitives::U256::from_be_bytes`: the number that the bytes stand for
/// big-endian.
#[verifier::external_body]
pub(crate) fn word_from_be_bytes(bytes: [u8; 32]) -> (r: U256)
    ensures
        r@ == be_value(bytes@),
{
    U256 { limbs: alloy_primitives::U256::from_be_bytes(bytes).into_limbs() }
}

/// Calls `alloy_primitives::U256::to_be_bytes`: the 32 bytes that stand for the number
/// big-endian.
#[verifier::external_body]
pub(crate) fn word_to_be_bytes(word: U256) -> (r: [u8; 32])
    ensures
        be_value(r@) == word@,
{
    alloy_primitives::U256::from_limbs(word.limbs).to_be_bytes()
}

// ---------------------------------------------------------------------------------------------
// Recursive-length-prefix items
// ---------------------------------------------------------------------------------------------

/// Calls `alloy_rlp::encode` on a byte string.
#[verifier::external_body]
pub(crate) fn encode_string(data: &[u8]) -> (r: Vec<u8>)
    ensures
        r@ == rlp_string(data@),
{
    alloy_rlp::encode(data)
}

/// Calls `alloy_rlp::encode` on a `u64`.
#[verifier::external_body]
pub(crate) fn encode_u64(n: u64) -> (r: Vec<u8>)
    ensures
        r@ == rlp_number(n as nat),
{
    alloy_rlp::encode(n)
}

/// Calls `alloy_rlp::encode` on an `alloy_primitives::U256`.
#[verifier::external_body]
pub(crate) fn encode_word(word: U256) -> (r: Vec<u8>)
    ensures
        r@ == rlp_number(word@),
{
    alloy_rlp::encode(alloy_primitives::U256::from_limbs(word.limbs))
}

/// Calls `encode` of the `alloy_rlp::Header` of a list: the prefix of a list whose items take
/// `payload_length` bytes.
#[verifier::external_body]
pub(crate) fn encode_list_header(payload_length: usize) -> (r: Vec<u8>)
    ensures
        r@ == rlp_prefix(0xc0, payload_length as nat),
{
    let mut out = Vec::new();
    alloy_rlp::Header { list: true, payload_length }.encode(&mut out);
    out
}

} // verus!
