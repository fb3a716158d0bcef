//! Decoding of raw chain logs into typed registration events.
//!
//! A `TokenRegistered` event is emitted by the exchange contract once per
//! outcome-token side of a market, with the signature topic followed by
//! three indexed fields: the two token identifiers and the 32-byte
//! condition identifier.

use vstd::prelude::*;
use crate::hex_str::{hex_of, hex_encode};
use crate::util::{bytes_eq, clone_bytes};
use vstd::string::StringExecFns;

verus! {

/// Transport-level log record: contract address, ordered topics, opaque
/// data payload, and the block/transaction fields that are absent on
/// unconfirmed logs.
#[derive(Debug)]
pub struct RawLog {
    /// Emitting contract address, 20 bytes.
    pub address: Vec<u8>,
    /// Indexed topics; a well-formed event log has four of 32 bytes each.
    pub topics: Vec<Vec<u8>>,
    /// Unindexed data payload.
    pub data: Vec<u8>,
    /// Block number, absent for pending logs.
    pub block_number: Option<u64>,
    /// Transaction hash, 32 bytes, absent for pending logs.
    pub transaction_hash: Option<Vec<u8>>,
}

/// Mathematical image of a `RawLog`.
#[verifier::ext_equal]
pub ghost struct RawLogV {
    pub address: Seq<u8>,
    pub topics: Seq<Seq<u8>>,
    pub data: Seq<u8>,
    pub block_number: Option<u64>,
    pub transaction_hash: Option<Seq<u8>>,
}

impl View for RawLog {
    type V = RawLogV;

    open spec fn view(&self) -> RawLogV {
        RawLogV {
            address: self.address@,
            topics: self.topics.deep_view(),
            data: self.data@,
            block_number: self.block_number,
            transaction_hash: self.transaction_hash.deep_view(),
        }
    }
}

impl DeepView for RawLog {
    type V = RawLogV;

    open spec fn deep_view(&self) -> RawLogV {
        self.view()
    }
}

/// Decoded registration event: two token identifiers, the condition
/// identifier that names the market, and where the event was emitted.
#[derive(Debug)]
pub struct TokenRegistered {
    /// First outcome token identifier, 32 bytes big-endian.
    pub token0: Vec<u8>,
    /// Second outcome token identifier, 32 bytes big-endian.
    pub token1: Vec<u8>,
    /// Condition identifier, the market's unique 32-byte key.
    pub condition_id: Vec<u8>,
    /// Block number where the event was emitted.
    pub block_number: u64,
    /// Hash of the emitting transaction, 32 bytes.
    pub tx_hash: Vec<u8>,
}

/// Mathematical image of a `TokenRegistered` event.
#[verifier::ext_equal]
pub ghost struct EventV {
    pub token0: Seq<u8>,
    pub token1: Seq<u8>,
    pub condition_id: Seq<u8>,
    pub block_number: u64,
    pub tx_hash: Seq<u8>,
}

impl View for TokenRegistered {
    type V = EventV;

    open spec fn view(&self) -> EventV {
        EventV {
            token0: self.token0@,
            token1: self.token1@,
            condition_id: self.condition_id@,
            block_number: self.block_number,
            tx_hash: self.tx_hash@,
        }
    }
}

impl DeepView for TokenRegistered {
    type V = EventV;

    open spec fn deep_view(&self) -> EventV {
        self.view()
    }
}

/// Why a raw log could not be decoded.
#[derive(Clone, Copy, Debug, PartialEq, Eq, Structural)]
pub enum DecodeError {
    /// The log does not have the shape of a registration event.
    MalformedLog,
    /// The log lacks a block number or transaction hash (pending log).
    IncompleteLog,
}

/// A log whose topics cannot be those of a registration event: anything
/// but four topics with 32-byte indexed fields.
pub open spec fn malformed(l: RawLogV) -> bool {
    l.topics.len() != 4 || l.topics[1].len() != 32 || l.topics[2].len() != 32 || l.topics[3].len()
        != 32
}

/// A log that lacks the block number or a 32-byte transaction hash.
pub open spec fn incomplete(l: RawLogV) -> bool {
    l.block_number is None || !(l.transaction_hash matches Some(h) && h.len() == 32)
}

/// What decoding a raw log yields: malformed shape is rejected first,
/// then missing confirmation fields, else the typed event.
pub open spec fn decode_spec(l: RawLogV) -> Result<EventV, DecodeError> {
    if malformed(l) {
        Err(DecodeError::MalformedLog)
    } else if incomplete(l) {
        Err(DecodeError::IncompleteLog)
    } else {
        Ok(
            EventV {
                token0: l.topics[1],
                token1: l.topics[2],
                condition_id: l.topics[3],
                block_number: l.block_number->0,
                tx_hash: l.transaction_hash->0,
            },
        )
    }
}

/// Image of a decode result under the event view.
pub open spec fn decode_result_view(r: Result<TokenRegistered, DecodeError>) -> Result<
    EventV,
    DecodeError,
> {
    match r {
        Ok(e) => Ok(e@),
        Err(err) => Err(err),
    }
}

impl TokenRegistered {
    /// Decodes one raw log, exactly as `decode_spec` describes.
    pub fn from_log(l: &RawLog) -> (r: Result<TokenRegistered, DecodeError>)
        ensures
            decode_result_view(r) == decode_spec(l@),
    {
        if l.topics.len() != 4 {
            return Err(DecodeError::MalformedLog);
        }
        if l.topics[1].len() != 32 || l.topics[2].len() != 32 || l.topics[3].len() != 32 {
            return Err(DecodeError::MalformedLog);
        }
        let block_number: u64 = match &l.block_number {
            Some(n) => *n,
            None => {
                return Err(DecodeError::IncompleteLog);
            },
        };
        let tx_hash: Vec<u8> = match &l.transaction_hash {
            Some(h) => {
                if h.len() != 32 {
                    return Err(DecodeError::IncompleteLog);
                }
                clone_bytes(h)
            },
            None => {
                return Err(DecodeError::IncompleteLog);
            },
        };
        let e = TokenRegistered {
            token0: clone_bytes(&l.topics[1]),
            token1: clone_bytes(&l.topics[2]),
            condition_id: clone_bytes(&l.topics[3]),
            block_number,
            tx_hash,
        };
        proof {
            assert(e@ =~= decode_spec(l@)->Ok_0);
        }
        Ok(e)
    }

    /// The condition identifier as lower-case hex text with a `0x` prefix.
    pub fn condition_id_hex(&self) -> (r: String)
        ensures
            r@ == "0x"@ + hex_of(self.condition_id@),
    {
        let mut out: String = String::from_str("0x");
        let digits: String = hex_encode(&self.condition_id);
        out.append(digits.as_str());
        out
    }
}

/// Whether a log passes the source filter: emitted by `address` with
/// `topic0` as its signature topic.
pub fn matches_filter(l: &RawLog, address: &Vec<u8>, topic0: &Vec<u8>) -> (r: bool)
    ensures
        r == (l@.address == address@ && l@.topics.len() > 0 && l@.topics[0] == topic0@),
{
    if !bytes_eq(&l.address, address) {
        return false;
    }
    if l.topics.len() == 0 {
        return false;
    }
    proof {
        assert(l@.topics[0] == l.topics[0]@);
    }
    bytes_eq(&l.topics[0], topic0)
}

} // verus!
