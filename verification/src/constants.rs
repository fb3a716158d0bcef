//! Contract addresses and event constants on Polygon.

use vstd::prelude::*;
use vstd::string::StrSliceExecFns;
use vstd::string::StringSliceAdditionalSpecFns;
use crate::hex_str::{hex_bytes, hex_decode, is_hex_string};

verus! {

/// CTFExchange contract address (Polygon mainnet), the contract that emits
/// registration events, as `0x`-prefixed hex text.
pub const CTF_EXCHANGE_ADDRESS: &'static str = "0x4bFb41d5B3570DeFd03C39a9A4D8dE6Bd8B8982E";

/// Conditional Tokens Framework contract address (Polygon mainnet).
pub const CTF_CONTRACT_ADDRESS: &'static str = "0x4D97DCd97eC945f40cF65F87097ACe5EA0476045";

/// USDC collateral token address (Polygon mainnet).
pub const USDC_ADDRESS: &'static str = "0x2791Bca1f2de4661ED88A30C99A7a9449Aa84174";

/// The registration event's signature text; its hash is the filter's
/// first topic.
pub const TOKEN_REGISTERED_SIGNATURE: &'static str = "TokenRegistered(uint256,uint256,bytes32)";

/// The CTFExchange address as its 20 raw bytes.
pub fn ctf_exchange_address() -> (r: Vec<u8>)
    ensures
        r@ == hex_bytes("4bFb41d5B3570DeFd03C39a9A4D8dE6Bd8B8982E"@),
        r@.len() == 20,
{
    proof {
        reveal_strlit("4bFb41d5B3570DeFd03C39a9A4D8dE6Bd8B8982E");
    }
    decode_address("4bFb41d5B3570DeFd03C39a9A4D8dE6Bd8B8982E")
}

/// The CTF contract address as its 20 raw bytes.
pub fn ctf_contract_address() -> (r: Vec<u8>)
    ensures
        r@ == hex_bytes("4D97DCd97eC945f40cF65F87097ACe5EA0476045"@),
        r@.len() == 20,
{
    proof {
        reveal_strlit("4D97DCd97eC945f40cF65F87097ACe5EA0476045");
    }
    decode_address("4D97DCd97eC945f40cF65F87097ACe5EA0476045")
}

/// The keccak-256 digest of a byte sequence.
pub uninterp spec fn keccak256_of(data: Seq<u8>) -> Seq<u8>;

/// Relies on `tiny_keccak::Keccak::v256`: the digest depends on the input
/// bytes alone; the 32-byte size is this wrapper's own output buffer.
#[verifier::external_body]
fn keccak256(data: &Vec<u8>) -> (r: Vec<u8>)
    ensures
        r@ == keccak256_of(data@),
        r@.len() == 32,
{
    let mut hasher = tiny_keccak::Keccak::v256();
    tiny_keccak::Hasher::update(&mut hasher, data);
    let mut out = [0u8; 32];
    tiny_keccak::Hasher::finalize(hasher, &mut out);
    out.to_vec()
}

/// The registration event's signature topic: the keccak-256 digest of the
/// signature text, the first topic of every matching log.
pub fn token_registered_event_signature() -> (r: Vec<u8>)
    ensures
        r@ == keccak256_of(TOKEN_REGISTERED_SIGNATURE.spec_bytes()),
        r@.len() == 32,
{
    let bytes: Vec<u8> = TOKEN_REGISTERED_SIGNATURE.as_bytes_vec();
    keccak256(&bytes)
}

/// Decodes a 40-digit hex address.
fn decode_address(s: &str) -> (r: Vec<u8>)
    requires
        is_hex_string(s@),
        s@.len() == 40,
    ensures
        r@ == hex_bytes(s@),
        r@.len() == 20,
{
    match hex_decode(s) {
        Some(b) => b,
        None => {
            proof {
                assert(false);
            }
            Vec::new()
        },
    }
}

} // verus!
