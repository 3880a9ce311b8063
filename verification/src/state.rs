//! Application configuration and shared counters.
//!
//! Configuration is plain data loaded by the unverified shell and handed in;
//! the state counters are owned by the single-threaded core and mutated only
//! through explicit update commands, so no lock discipline is needed here.

use vstd::prelude::*;

verus! {

pub struct NetworkConfig {
    pub listen_addr: String,
    pub bootstrap_peers: Vec<String>,
    pub max_peers: usize,
}

pub struct WalletConfig {
    pub storage_path: String,
    pub encryption_key: String,
}

pub struct BlockchainConfig {
    pub ethereum_rpc_url: String,
    pub solana_rpc_url: String,
}

/// Slippage is carried in basis points (1/100 of a percent) so the
/// configuration stays in exact integer arithmetic.
pub struct DeFiConfig {
    pub supported_protocols: Vec<String>,
    pub default_slippage_bps: u32,
}

pub struct AppConfig {
    pub network: NetworkConfig,
    pub wallet: WalletConfig,
    pub blockchain: BlockchainConfig,
    pub defi: DeFiConfig,
}

#[derive(Clone, Copy, PartialEq, Eq, Structural, Debug)]
pub struct AppState {
    pub connected_peers: usize,
    pub active_wallets: usize,
    pub pending_transactions: usize,
}

/// One change to the shared counters; handlers send these instead of
/// mutating shared state directly.
#[derive(Clone, Copy, PartialEq, Eq, Structural, Debug)]
pub enum StateUpdate {
    PeerConnected,
    PeerDisconnected,
    WalletCreated,
    TransactionPending,
    TransactionSettled,
}

/// What one update command does to the counters: the named counter moves by
/// one, saturating at its bounds; the others keep their values.
pub open spec fn spec_apply(s: AppState, u: StateUpdate) -> AppState {
    match u {
        StateUpdate::PeerConnected => AppState {
            connected_peers: if s.connected_peers < usize::MAX {
                (s.connected_peers + 1) as usize
            } else {
                s.connected_peers
            },
            active_wallets: s.active_wallets,
            pending_transactions: s.pending_transactions,
        },
        StateUpdate::PeerDisconnected => AppState {
            connected_peers: if s.connected_peers > 0 {
                (s.connected_peers - 1) as usize
            } else {
                s.connected_peers
            },
            active_wallets: s.active_wallets,
            pending_transactions: s.pending_transactions,
        },
        StateUpdate::WalletCreated => AppState {
            connected_peers: s.connected_peers,
            active_wallets: if s.active_wallets < usize::MAX {
                (s.active_wallets + 1) as usize
            } else {
                s.active_wallets
            },
            pending_transactions: s.pending_transactions,
        },
        StateUpdate::TransactionPending => AppState {
            connected_peers: s.connected_peers,
            active_wallets: s.active_wallets,
            pending_transactions: if s.pending_transactions < usize::MAX {
                (s.pending_transactions + 1) as usize
            } else {
                s.pending_transactions
            },
        },
        StateUpdate::TransactionSettled => AppState {
            connected_peers: s.connected_peers,
            active_wallets: s.active_wallets,
            pending_transactions: if s.pending_transactions > 0 {
                (s.pending_transactions - 1) as usize
            } else {
                s.pending_transactions
            },
        },
    }
}

impl AppState {
    pub fn new() -> (r: AppState)
        ensures
            r.connected_peers == 0,
            r.active_wallets == 0,
            r.pending_transactions == 0,
    {
        AppState { connected_peers: 0, active_wallets: 0, pending_transactions: 0 }
    }

    /// Applies one counter change; counters saturate instead of wrapping.
    pub fn apply(&mut self, update: StateUpdate)
        ensures
            *final(self) == spec_apply(*old(self), update),
    {
        match update {
            StateUpdate::PeerConnected => {
                if self.connected_peers < usize::MAX {
                    self.connected_peers = self.connected_peers + 1;
                }
            },
            StateUpdate::PeerDisconnected => {
                if self.connected_peers > 0 {
                    self.connected_peers = self.connected_peers - 1;
                }
            },
            StateUpdate::WalletCreated => {
                if self.active_wallets < usize::MAX {
                    self.active_wallets = self.active_wallets + 1;
                }
            },
            StateUpdate::TransactionPending => {
                if self.pending_transactions < usize::MAX {
                    self.pending_transactions = self.pending_transactions + 1;
                }
            },
            StateUpdate::TransactionSettled => {
                if self.pending_transactions > 0 {
                    self.pending_transactions = self.pending_transactions - 1;
                }
            },
        }
    }
}

impl Default for AppState {
    fn default() -> (r: AppState)
        ensures
            r.connected_peers == 0,
            r.active_wallets == 0,
            r.pending_transactions == 0,
    {
        AppState::new()
    }
}

pub struct App {
    pub config: AppConfig,
    pub state: AppState,
}

impl App {
    /// An application core around an already-loaded configuration; the shell
    /// reads the configuration files and converts them to plain values.
    pub fn new(config: AppConfig) -> (r: App)
        ensures
            r.config == config,
            r.state.connected_peers == 0,
            r.state.active_wallets == 0,
            r.state.pending_transactions == 0,
    {
        App { config, state: AppState::new() }
    }

    pub fn get_config(&self) -> (r: &AppConfig)
        ensures
            r == &self.config,
    {
        &self.config
    }

    /// Routes one state-update command to the counters.
    pub fn update_state(&mut self, update: StateUpdate)
        ensures
            final(self).config == old(self).config,
            final(self).state == spec_apply(old(self).state, update),
    {
        self.state.apply(update);
    }
}

} // verus!
