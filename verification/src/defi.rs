//! Token-swap quoting: routing a request to the protocol's quoting rule and
//! building the call data for token balance queries.
//!
//! The quoting rules are still placeholders that price every swap at zero;
//! the routing and the call-data layout are exact. Amounts are fixed-point
//! nano units; rates are basis points.

use vstd::prelude::*;
use crate::membership::copy_bytes;

verus! {

#[derive(Clone, Copy, PartialEq, Eq, Structural, Debug)]
pub enum ChainType {
    Ethereum,
    Solana,
}

#[derive(Clone, Copy, PartialEq, Eq, Structural, Debug)]
pub enum DeFiProtocol {
    UniswapV2,
    UniswapV3,
    SushiSwap,
    Curve,
}

pub struct TokenInfo {
    pub address: String,
    pub symbol: String,
    pub decimals: u8,
    pub chain_type: ChainType,
}

pub struct SwapRequest {
    pub from_token: TokenInfo,
    pub to_token: TokenInfo,
    pub amount_nanos: u64,
    pub slippage_bps: u32,
    pub protocol: DeFiProtocol,
}

#[derive(Clone, Copy, PartialEq, Eq, Structural, Debug)]
pub struct SwapQuote {
    pub expected_output_nanos: u64,
    pub price_impact_bps: u32,
    pub fee_bps: u32,
}

/// The quote every protocol's placeholder rule currently returns.
pub open spec fn zero_quote() -> SwapQuote {
    SwapQuote { expected_output_nanos: 0, price_impact_bps: 0, fee_bps: 0 }
}

/// The call data of an ERC-20 balance query for an owner: one 32-byte
/// argument word, the 20 address bytes left-padded with zeros.
pub open spec fn spec_balance_call_data(owner: Seq<u8>) -> Seq<u8> {
    Seq::new(12, |i: int| 0u8) + owner
}

/// Builds the argument word handed to an ERC-20 balance call.
pub fn erc20_balance_call_data(owner: &Vec<u8>) -> (r: Vec<u8>)
    requires
        owner@.len() == 20,
    ensures
        r@ == spec_balance_call_data(owner@),
        r@.len() == 32,
{
    let mut out: Vec<u8> = Vec::new();
    let mut i: usize = 0;
    while i < 12
        invariant
            i <= 12,
            out@ == Seq::new(i as nat, |j: int| 0u8),
        decreases 12 - i,
    {
        out.push(0);
        proof {
            assert(out@ =~= Seq::new(i as nat + 1, |j: int| 0u8));
        }
        i += 1;
    }
    let mut tail = copy_bytes(owner);
    out.append(&mut tail);
    proof {
        assert(out@ =~= spec_balance_call_data(owner@));
    }
    out
}

pub struct DeFiService {
    pub supported_protocols: Vec<String>,
}

impl DeFiService {
    pub fn new(supported_protocols: Vec<String>) -> (r: DeFiService)
        ensures
            r.supported_protocols == supported_protocols,
    {
        DeFiService { supported_protocols }
    }

    fn get_uniswap_v2_quote(&self, request: &SwapRequest) -> (r: SwapQuote)
        ensures
            r == zero_quote(),
    {
        let _ = request;
        SwapQuote { expected_output_nanos: 0, price_impact_bps: 0, fee_bps: 0 }
    }

    fn get_uniswap_v3_quote(&self, request: &SwapRequest) -> (r: SwapQuote)
        ensures
            r == zero_quote(),
    {
        let _ = request;
        SwapQuote { expected_output_nanos: 0, price_impact_bps: 0, fee_bps: 0 }
    }

    fn get_sushiswap_quote(&self, request: &SwapRequest) -> (r: SwapQuote)
        ensures
            r == zero_quote(),
    {
        let _ = request;
        SwapQuote { expected_output_nanos: 0, price_impact_bps: 0, fee_bps: 0 }
    }

    fn get_curve_quote(&self, request: &SwapRequest) -> (r: SwapQuote)
        ensures
            r == zero_quote(),
    {
        let _ = request;
        SwapQuote { expected_output_nanos: 0, price_impact_bps: 0, fee_bps: 0 }
    }

    /// Routes a quote request to the rule of the protocol it names; every
    /// protocol's placeholder rule prices the swap at zero for now.
    pub fn get_swap_quote(&self, request: &SwapRequest) -> (r: SwapQuote)
        ensures
            r == zero_quote(),
    {
        match request.protocol {
            DeFiProtocol::UniswapV2 => self.get_uniswap_v2_quote(request),
            DeFiProtocol::UniswapV3 => self.get_uniswap_v3_quote(request),
            DeFiProtocol::SushiSwap => self.get_sushiswap_quote(request),
            DeFiProtocol::Curve => self.get_curve_quote(request),
        }
    }

    /// The placeholder swap execution: hands back the fixed ASCII bytes of
    /// "transaction_hash" until real execution is implemented.
    pub fn execute_swap(&self, request: SwapRequest) -> (r: Vec<u8>)
        ensures
            r@ == spec_placeholder_tx_hash(),
    {
        let _ = request;
        let mut out: Vec<u8> = Vec::new();
        out.push(116);
        out.push(114);
        out.push(97);
        out.push(110);
        out.push(115);
        out.push(97);
        out.push(99);
        out.push(116);
        out.push(105);
        out.push(111);
        out.push(110);
        out.push(95);
        out.push(104);
        out.push(97);
        out.push(115);
        out.push(104);
        proof {
            assert(out@ =~= spec_placeholder_tx_hash());
        }
        out
    }
}

/// The ASCII bytes of "transaction_hash".
pub open spec fn spec_placeholder_tx_hash() -> Seq<u8> {
    seq![
        116u8,
        114u8,
        97u8,
        110u8,
        115u8,
        97u8,
        99u8,
        116u8,
        105u8,
        111u8,
        110u8,
        95u8,
        104u8,
        97u8,
        115u8,
        104u8,
    ]
}

} // verus!
