use wallet_p2p::blockchain::{
    effective_gas, eth_receipt_status, is_eth_address, solana_signature_status, ChainType as TxChain,
    TransactionRequest, TransactionStatus,
};
use wallet_p2p::defi::{erc20_balance_call_data, ChainType as DeFiChain, DeFiProtocol, DeFiService, SwapRequest, TokenInfo};
use wallet_p2p::state::{App, AppConfig, AppState, BlockchainConfig, DeFiConfig, NetworkConfig, StateUpdate, WalletConfig};
use wallet_p2p::wallet::{ChainType, WalletService};

fn config() -> AppConfig {
    AppConfig {
        network: NetworkConfig {
            listen_addr: "0.0.0.0:0".to_string(),
            bootstrap_peers: Vec::new(),
            max_peers: 16,
        },
        wallet: WalletConfig {
            storage_path: "wallets".to_string(),
            encryption_key: "unit-test-key".to_string(),
        },
        blockchain: BlockchainConfig {
            ethereum_rpc_url: "http://localhost:8545".to_string(),
            solana_rpc_url: "http://localhost:8899".to_string(),
        },
        defi: DeFiConfig { supported_protocols: vec!["uniswap_v2".to_string()], default_slippage_bps: 50 },
    }
}

#[test]
fn test_app_initialization() {
    let app = App::new(config());
    let c = app.get_config();
    assert!(c.network.max_peers > 0);
}

#[test]
fn state_updates_move_one_counter() {
    let mut app = App::new(config());
    app.update_state(StateUpdate::WalletCreated);
    app.update_state(StateUpdate::PeerConnected);
    app.update_state(StateUpdate::TransactionPending);
    app.update_state(StateUpdate::TransactionSettled);
    assert_eq!(app.state.active_wallets, 1);
    assert_eq!(app.state.connected_peers, 1);
    assert_eq!(app.state.pending_transactions, 0);
}

#[test]
fn counters_saturate_at_their_bounds() {
    let mut s = AppState { connected_peers: usize::MAX, active_wallets: 0, pending_transactions: 0 };
    s.apply(StateUpdate::PeerConnected);
    assert_eq!(s.connected_peers, usize::MAX);
    s.apply(StateUpdate::TransactionSettled);
    assert_eq!(s.pending_transactions, 0);
}

#[test]
fn test_wallet_creation() {
    let mut service = WalletService::new();
    let mut state = AppState::new();
    let key = b"unit-test-key".to_vec();
    let wallet = service.create_wallet(&mut state, &key, ChainType::Ethereum);
    assert!(!wallet.address.is_empty());
    assert_eq!(wallet.chain_type, ChainType::Ethereum);
    assert_eq!(state.active_wallets, 1);
    assert_eq!(service.wallets.len(), 1);
}

#[test]
fn ethereum_address_is_prefixed_hex_of_the_key() {
    let mut service = WalletService::new();
    let mut state = AppState::new();
    let key = b"k".to_vec();
    let wallet = service.create_wallet(&mut state, &key, ChainType::Ethereum);
    assert_eq!(wallet.address.len(), 42);
    assert!(is_eth_address(&wallet.address));
    let expected = format!("0x{}", hex::encode(&wallet.public_key[..20]));
    assert_eq!(wallet.address, expected.into_bytes());
}

#[test]
fn solana_address_decodes_back_to_the_key() {
    let mut service = WalletService::new();
    let mut state = AppState::new();
    let key = b"k".to_vec();
    let wallet = service.create_wallet(&mut state, &key, ChainType::Solana);
    let decoded = bs58::decode(&wallet.address).into_vec().expect("address must be base58 text");
    assert_eq!(decoded, wallet.public_key);
    assert_eq!(wallet.public_key.len(), 32);
}

#[test]
fn bitcoin_address_is_the_placeholder() {
    let mut service = WalletService::new();
    let mut state = AppState::new();
    let wallet = service.create_wallet(&mut state, &b"k".to_vec(), ChainType::Bitcoin);
    assert_eq!(wallet.address, b"btc_address".to_vec());
}

#[test]
fn wallets_are_found_by_address() {
    let mut service = WalletService::new();
    let mut state = AppState::new();
    let key = b"k".to_vec();
    let w1 = service.create_wallet(&mut state, &key, ChainType::Ethereum);
    let _w2 = service.create_wallet(&mut state, &key, ChainType::Solana);
    let found = service.get_wallet(&w1.address).expect("the first wallet is registered");
    assert_eq!(found.address, w1.address);
    assert_eq!(found.public_key, w1.public_key);
    assert!(service.get_wallet(&b"0xnothere".to_vec()).is_none());
    assert_eq!(service.list_wallets().len(), 2);
}

#[test]
fn gas_defaults_apply_only_when_unset() {
    let req = TransactionRequest {
        from: b"0xaaa".to_vec(),
        to: b"0xbbb".to_vec(),
        amount_nanos: 10,
        chain_type: TxChain::Ethereum,
        gas_limit: None,
        gas_price: None,
    };
    assert_eq!(effective_gas(&req), (21000, 1));
    let req2 = TransactionRequest { gas_limit: Some(50_000), gas_price: Some(9), ..req };
    assert_eq!(effective_gas(&req2), (50_000, 9));
}

#[test]
fn receipt_and_signature_statuses_map_exactly() {
    assert_eq!(eth_receipt_status(None), TransactionStatus::Pending);
    assert_eq!(eth_receipt_status(Some(true)), TransactionStatus::Confirmed);
    assert_eq!(eth_receipt_status(Some(false)), TransactionStatus::Failed);
    assert_eq!(solana_signature_status(None), TransactionStatus::Pending);
    assert_eq!(solana_signature_status(Some(true)), TransactionStatus::Confirmed);
    assert_eq!(solana_signature_status(Some(false)), TransactionStatus::Failed);
}

#[test]
fn eth_address_validation() {
    let good = format!("0x{}", "a1".repeat(20)).into_bytes();
    assert!(is_eth_address(&good));
    assert!(!is_eth_address(&b"0xabc".to_vec()));
    let bad_digit = format!("0x{}g", "a1".repeat(19)).into_bytes();
    let bad_digit = [&bad_digit[..], b"a"].concat();
    assert_eq!(bad_digit.len(), 42);
    assert!(!is_eth_address(&bad_digit.to_vec()));
    let no_prefix = format!("00{}", "a1".repeat(20)).into_bytes();
    assert!(!is_eth_address(&no_prefix));
}

#[test]
fn balance_call_data_pads_the_owner() {
    let owner: Vec<u8> = (1..=20).collect();
    let data = erc20_balance_call_data(&owner);
    assert_eq!(data.len(), 32);
    assert_eq!(&data[..12], &[0u8; 12]);
    assert_eq!(&data[12..], &owner[..]);
}

#[test]
fn test_defi_service_initialization() {
    let service = DeFiService::new(vec!["uniswap_v2".to_string()]);
    assert_eq!(service.supported_protocols.len(), 1);
}

#[test]
fn every_protocol_quotes_zero_for_now() {
    let service = DeFiService::new(Vec::new());
    let token = |sym: &str| TokenInfo {
        address: "0x0000000000000000000000000000000000000000".to_string(),
        symbol: sym.to_string(),
        decimals: 18,
        chain_type: DeFiChain::Ethereum,
    };
    for protocol in [
        DeFiProtocol::UniswapV2,
        DeFiProtocol::UniswapV3,
        DeFiProtocol::SushiSwap,
        DeFiProtocol::Curve,
    ] {
        let request = SwapRequest {
            from_token: token("WETH"),
            to_token: token("USDC"),
            amount_nanos: 1_000_000_000,
            slippage_bps: 50,
            protocol,
        };
        let quote = service.get_swap_quote(&request);
        assert_eq!(quote.expected_output_nanos, 0);
        assert_eq!(quote.price_impact_bps, 0);
        assert_eq!(quote.fee_bps, 0);
        assert_eq!(service.execute_swap(request), b"transaction_hash".to_vec());
    }
}
