//! The decision logic around blockchain RPC calls: request defaults, address
//! validation, and the mapping from raw node answers to transaction status.
//!
//! The RPC calls themselves are I/O performed by the unverified shell; it
//! hands the answers here as plain values. Amounts are in fixed-point nano
//! units of the chain's base currency.

use vstd::prelude::*;

verus! {

#[derive(Clone, Copy, PartialEq, Eq, Structural, Debug)]
pub enum ChainType {
    Ethereum,
    Solana,
}

#[derive(Clone, Copy, PartialEq, Eq, Structural, Debug)]
pub enum TransactionStatus {
    Pending,
    Confirmed,
    Failed,
}

/// A transfer to submit; gas fields are optional and defaulted.
pub struct TransactionRequest {
    pub from: Vec<u8>,
    pub to: Vec<u8>,
    pub amount_nanos: u64,
    pub chain_type: ChainType,
    pub gas_limit: Option<u64>,
    pub gas_price: Option<u64>,
}

pub const DEFAULT_GAS_LIMIT: u64 = 21000;

pub const DEFAULT_GAS_PRICE: u64 = 1;

/// The gas limit and price a request is submitted with: the given values, or
/// the defaults where none were given.
pub fn effective_gas(request: &TransactionRequest) -> (r: (u64, u64))
    ensures
        r.0 == (match request.gas_limit {
            Some(g) => g,
            None => DEFAULT_GAS_LIMIT,
        }),
        r.1 == (match request.gas_price {
            Some(g) => g,
            None => DEFAULT_GAS_PRICE,
        }),
{
    let limit = match request.gas_limit {
        Some(g) => g,
        None => DEFAULT_GAS_LIMIT,
    };
    let price = match request.gas_price {
        Some(g) => g,
        None => DEFAULT_GAS_PRICE,
    };
    (limit, price)
}

/// The status an Ethereum transaction receipt reports: no receipt means the
/// transaction is still pending; a receipt confirms or fails it by its
/// status flag.
pub fn eth_receipt_status(receipt_ok: Option<bool>) -> (r: TransactionStatus)
    ensures
        r == (match receipt_ok {
            None => TransactionStatus::Pending,
            Some(true) => TransactionStatus::Confirmed,
            Some(false) => TransactionStatus::Failed,
        }),
{
    match receipt_ok {
        None => TransactionStatus::Pending,
        Some(true) => TransactionStatus::Confirmed,
        Some(false) => TransactionStatus::Failed,
    }
}

/// The status a Solana signature lookup reports: unknown signatures are
/// pending; a known signature confirms or fails by the execution result.
pub fn solana_signature_status(signature_ok: Option<bool>) -> (r: TransactionStatus)
    ensures
        r == (match signature_ok {
            None => TransactionStatus::Pending,
            Some(true) => TransactionStatus::Confirmed,
            Some(false) => TransactionStatus::Failed,
        }),
{
    match signature_ok {
        None => TransactionStatus::Pending,
        Some(true) => TransactionStatus::Confirmed,
        Some(false) => TransactionStatus::Failed,
    }
}

pub open spec fn is_hex_digit(c: u8) -> bool {
    (48 <= c <= 57) || (97 <= c <= 102) || (65 <= c <= 70)
}

/// Well-formed Ethereum address text: "0x" followed by exactly 40
/// hexadecimal digits.
pub open spec fn spec_is_eth_address(s: Seq<u8>) -> bool {
    &&& s.len() == 42
    &&& s[0] == 48
    &&& s[1] == 120
    &&& forall|i: int| 2 <= i < 42 ==> is_hex_digit(#[trigger] s[i])
}

/// Checks address text before it is handed to an Ethereum RPC call, so a
/// malformed address is rejected locally instead of round-tripping.
pub fn is_eth_address(s: &Vec<u8>) -> (r: bool)
    ensures
        r == spec_is_eth_address(s@),
{
    if s.len() != 42 {
        return false;
    }
    if s[0] != 48 || s[1] != 120 {
        return false;
    }
    let mut i: usize = 2;
    while i < 42
        invariant
            2 <= i <= 42,
            s@.len() == 42,
            forall|j: int| 2 <= j < i ==> is_hex_digit(#[trigger] s@[j]),
        decreases 42 - i,
    {
        let c = s[i];
        if !((48 <= c && c <= 57) || (97 <= c && c <= 102) || (65 <= c && c <= 70)) {
            return false;
        }
        i += 1;
    }
    true
}

} // verus!
