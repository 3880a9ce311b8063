//! Wallet creation and registry: key generation, chain-specific address
//! derivation, and a list of wallets looked up by address.
//!
//! Addresses are carried as their ASCII bytes; the shell converts to and
//! from `String` at the boundary. Balances are in fixed-point nano units.
//! Private-key encryption is a pass-through placeholder, as an implementer
//! must still select a scheme; the contract states exactly that.

use vstd::prelude::*;
use crate::state::{AppState, StateUpdate};
use crate::membership::copy_bytes;

verus! {

#[derive(Clone, Copy, PartialEq, Eq, Structural, Debug)]
pub enum ChainType {
    Ethereum,
    Solana,
    Bitcoin,
}

pub struct Wallet {
    pub address: Vec<u8>,
    pub public_key: Vec<u8>,
    pub encrypted_private_key: Vec<u8>,
    pub chain_type: ChainType,
    pub balance_nanos: u64,
}

/// Mathematical model of a wallet.
pub ghost struct WalletView {
    pub address: Seq<u8>,
    pub public_key: Seq<u8>,
    pub encrypted_private_key: Seq<u8>,
    pub chain_type: ChainType,
    pub balance_nanos: u64,
}

impl View for Wallet {
    type V = WalletView;

    open spec fn view(&self) -> WalletView {
        WalletView {
            address: self.address@,
            public_key: self.public_key@,
            encrypted_private_key: self.encrypted_private_key@,
            chain_type: self.chain_type,
            balance_nanos: self.balance_nanos,
        }
    }
}

/// The ASCII byte of one hexadecimal digit, lower case.
pub open spec fn hex_digit(n: int) -> u8
    recommends
        0 <= n < 16,
{
    if n < 10 {
        (48 + n) as u8
    } else {
        (87 + n) as u8
    }
}

/// Lowercase hexadecimal text of a byte string: two digits per byte, high
/// nibble first, in input order.
pub open spec fn hex_of(b: Seq<u8>) -> Seq<u8>
    decreases b.len(),
{
    if b.len() == 0 {
        Seq::empty()
    } else {
        hex_of(b.drop_last()) + seq![
            hex_digit(b.last() as int / 16),
            hex_digit(b.last() as int % 16),
        ]
    }
}

/// What bs58 encoding returns for given bytes; it depends on the input
/// alone, and stating the base-58 big-number algorithm here would let nothing
/// check it, so the result is only named.
pub uninterp spec fn base58_of(b: Seq<u8>) -> Seq<u8>;

/// The placeholder Bitcoin address the registry hands out until real
/// derivation is implemented: the ASCII bytes of "btc_address".
pub open spec fn btc_placeholder() -> Seq<u8> {
    seq![98u8, 116u8, 99u8, 95u8, 97u8, 100u8, 100u8, 114u8, 101u8, 115u8, 115u8]
}

/// The textual address derived from a public key for each chain: for
/// Ethereum "0x" followed by the lowercase hex of the first 20 key bytes;
/// for Solana the base-58 text of the whole key.
pub open spec fn spec_generate_address(pk: Seq<u8>, c: ChainType) -> Seq<u8> {
    match c {
        ChainType::Ethereum => seq![48u8, 120u8] + hex_of(pk.take(20)),
        ChainType::Solana => base58_of(pk),
        ChainType::Bitcoin => btc_placeholder(),
    }
}

/// Relies on hex::encode: lowercase hexadecimal, two digits per byte, in
/// input order.
#[verifier::external_body]
fn hex_lower(b: &[u8]) -> (r: Vec<u8>)
    ensures
        r@ == hex_of(b@),
{
    hex::encode(b).into_bytes()
}

/// Relies on bs58::encode with its default (Bitcoin) alphabet: the output
/// text is a function of the input bytes alone.
#[verifier::external_body]
fn base58_encode(b: &[u8]) -> (r: Vec<u8>)
    ensures
        r@ == base58_of(b@),
{
    bs58::encode(b).into_vec()
}

/// Relies on ed25519_dalek::SigningKey::generate with rand::thread_rng: a
/// freshly drawn keypair, secret and public key 32 bytes each (to_bytes and
/// verifying_key().to_bytes()). The keys are random, so nothing more is
/// assumed of them.
#[verifier::external_body]
fn generate_keypair_bytes() -> (r: (Vec<u8>, Vec<u8>))
    ensures
        r.0@.len() == 32,
        r.1@.len() == 32,
{
    let signing = ed25519_dalek::SigningKey::generate(&mut rand::thread_rng());
    let secret = signing.to_bytes().to_vec();
    let public = signing.verifying_key().to_bytes().to_vec();
    (secret, public)
}

/// The first wallet with a given address, if any.
pub open spec fn find_wallet(s: Seq<Wallet>, addr: Seq<u8>) -> Option<Wallet>
    decreases s.len(),
{
    if s.len() == 0 {
        None
    } else if s[0].address@ == addr {
        Some(s[0])
    } else {
        find_wallet(s.drop_first(), addr)
    }
}

pub struct WalletService {
    pub wallets: Vec<Wallet>,
}

impl WalletService {
    pub fn new() -> (r: WalletService)
        ensures
            r.wallets@ == Seq::<Wallet>::empty(),
    {
        WalletService { wallets: Vec::new() }
    }

    /// The private-key "encryption" the registry currently applies: a
    /// pass-through copy. A real scheme is still to be selected; callers must
    /// not infer secrecy from this.
    pub fn encrypt_private_key(&self, private_key: &Vec<u8>, encryption_key: &Vec<u8>) -> (r: Vec<
        u8,
    >)
        ensures
            r@ == private_key@,
    {
        let _ = encryption_key;
        copy_bytes(private_key)
    }

    fn generate_address(&self, public_key: &Vec<u8>, chain_type: ChainType) -> (r: Vec<u8>)
        requires
            public_key@.len() == 32,
        ensures
            r@ == spec_generate_address(public_key@, chain_type),
    {
        match chain_type {
            ChainType::Ethereum => {
                let mut out: Vec<u8> = Vec::new();
                out.push(48);
                out.push(120);
                let prefix = vstd::slice::slice_subrange(public_key.as_slice(), 0, 20);
                let mut digits = hex_lower(prefix);
                out.append(&mut digits);
                proof {
                    assert(public_key@.subrange(0, 20) =~= public_key@.take(20));
                    assert(out@ =~= spec_generate_address(public_key@, chain_type));
                }
                out
            },
            ChainType::Solana => base58_encode(public_key.as_slice()),
            ChainType::Bitcoin => {
                let mut out: Vec<u8> = Vec::new();
                out.push(98);
                out.push(116);
                out.push(99);
                out.push(95);
                out.push(97);
                out.push(100);
                out.push(100);
                out.push(114);
                out.push(101);
                out.push(115);
                out.push(115);
                proof {
                    assert(out@ =~= btc_placeholder());
                }
                out
            },
        }
    }

    /// Creates a wallet for a chain: draws a fresh keypair, derives the
    /// chain's address text from the public key, stores the wallet with a
    /// zero balance, and bumps the active-wallet counter.
    pub fn create_wallet(
        &mut self,
        state: &mut AppState,
        encryption_key: &Vec<u8>,
        chain_type: ChainType,
    ) -> (w: Wallet)
        ensures
            w.public_key@.len() == 32,
            w.encrypted_private_key@.len() == 32,
            w.address@ == spec_generate_address(w.public_key@, chain_type),
            w.chain_type == chain_type,
            w.balance_nanos == 0,
            final(self).wallets@.len() == old(self).wallets@.len() + 1,
            final(self).wallets@[old(self).wallets@.len() as int]@ == w@,
            forall|i: int|
                0 <= i < old(self).wallets@.len() ==> final(self).wallets@[i] == old(
                    self,
                ).wallets@[i],
            *final(state) == crate::state::spec_apply(*old(state), StateUpdate::WalletCreated),
    {
        let (secret, public) = generate_keypair_bytes();
        let encrypted_private_key = self.encrypt_private_key(&secret, encryption_key);
        let address = self.generate_address(&public, chain_type);
        let wallet = Wallet {
            address,
            public_key: public,
            encrypted_private_key,
            chain_type,
            balance_nanos: 0,
        };
        let copy = Wallet {
            address: copy_bytes(&wallet.address),
            public_key: copy_bytes(&wallet.public_key),
            encrypted_private_key: copy_bytes(&wallet.encrypted_private_key),
            chain_type: wallet.chain_type,
            balance_nanos: wallet.balance_nanos,
        };
        self.wallets.push(copy);
        state.apply(StateUpdate::WalletCreated);
        wallet
    }

    /// Finds the wallet with an address; the result is a copy of the first
    /// match, or nothing when no wallet has the address.
    pub fn get_wallet(&self, address: &Vec<u8>) -> (r: Option<Wallet>)
        ensures
            match r {
                Some(w) => find_wallet(self.wallets@, address@) matches Some(fw) && w@ == fw@,
                None => find_wallet(self.wallets@, address@) is None,
            },
    {
        let mut i: usize = 0;
        while i < self.wallets.len()
            invariant
                i <= self.wallets@.len(),
                forall|j: int| 0 <= j < i ==> (#[trigger] self.wallets@[j]).address@ != address@,
            decreases self.wallets@.len() - i,
        {
            if crate::membership::bytes_eq(&self.wallets[i].address, address) {
                let w = &self.wallets[i];
                let copy = Wallet {
                    address: copy_bytes(&w.address),
                    public_key: copy_bytes(&w.public_key),
                    encrypted_private_key: copy_bytes(&w.encrypted_private_key),
                    chain_type: w.chain_type,
                    balance_nanos: w.balance_nanos,
                };
                proof {
                    lemma_find_wallet_skip(self.wallets@, address@, i as int);
                    let sub = self.wallets@.subrange(i as int, self.wallets@.len() as int);
                    assert(sub[0] == self.wallets@[i as int]);
                }
                return Some(copy);
            }
            i += 1;
        }
        proof {
            lemma_find_wallet_skip(self.wallets@, address@, self.wallets@.len() as int);
        }
        None
    }

    /// A copy of the whole registry, wallet by wallet.
    pub fn list_wallets(&self) -> (r: Vec<Wallet>)
        ensures
            r@.len() == self.wallets@.len(),
            forall|i: int| 0 <= i < r@.len() ==> (#[trigger] r@[i])@ == self.wallets@[i]@,
    {
        let mut out: Vec<Wallet> = Vec::new();
        let mut i: usize = 0;
        while i < self.wallets.len()
            invariant
                i <= self.wallets@.len(),
                out@.len() == i,
                forall|j: int| 0 <= j < i ==> (#[trigger] out@[j])@ == self.wallets@[j]@,
            decreases self.wallets@.len() - i,
        {
            let w = &self.wallets[i];
            out.push(
                Wallet {
                    address: copy_bytes(&w.address),
                    public_key: copy_bytes(&w.public_key),
                    encrypted_private_key: copy_bytes(&w.encrypted_private_key),
                    chain_type: w.chain_type,
                    balance_nanos: w.balance_nanos,
                },
            );
            i += 1;
        }
        out
    }
}

proof fn lemma_find_wallet_skip(s: Seq<Wallet>, addr: Seq<u8>, i: int)
    requires
        0 <= i <= s.len(),
        forall|j: int| 0 <= j < i ==> (#[trigger] s[j]).address@ != addr,
    ensures
        find_wallet(s, addr) == find_wallet(s.subrange(i, s.len() as int), addr),
    decreases i,
{
    if i == 0 {
        assert(s.subrange(0, s.len() as int) =~= s);
    } else {
        lemma_find_wallet_skip(s, addr, i - 1);
        let sub = s.subrange(i - 1, s.len() as int);
        assert(sub[0] == s[i - 1]);
        assert(sub.drop_first() =~= s.subrange(i, s.len() as int));
    }
}

} // verus!
