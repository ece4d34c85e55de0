//! NFT custody vault with a fungible fractional token and an escrowed,
//! ascending buyout auction.
//!
//! The depositor's NFT is locked on `initialize` and the fixed fraction
//! supply is minted to the depositor. A buyout opens with a bid at or above
//! the reserve price; each later bid must beat the current one by the
//! minimum increment and refunds it. After settlement, holders burn
//! fractions through `claim` for their proportional share of the winning
//! bid.
//!
//! Accounts and contracts are numbers. The host verifies signatures, passes
//! the ledger time as `now` and the ledger sequence as `ledger_seq`, reports
//! who owns the NFT once it has been moved into custody, and moves the NFT
//! and the payment tokens a successful call implies.
use std::collections::HashMap;
use vstd::prelude::*;

use crate::bytes::copy_bytes;
use crate::fixed::{fits_i128, mul_div_floor};
use crate::ledger::{all_nonneg, amount_of, total, lemma_amount_le_total, lemma_total_drop, lemma_total_insert};

verus! {

broadcast use vstd::std_specs::hash::group_hash_axioms;

pub const MAX_BPS: u32 = 10_000;
pub const MAX_METADATA_LEN: usize = 64;

#[derive(Copy, Clone, Debug, PartialEq, Eq, Structural)]
pub enum Error {
    AlreadyInitialized,
    NotInitialized,
    InvalidAmount,
    InvalidConfig,
    InsufficientBalance,
    InsufficientAllowance,
    AllowanceExpired,
    AuctionActive,
    AuctionNotActive,
    AuctionEnded,
    AuctionNotEnded,
    BidTooLow,
    NotSettled,
    NothingToClaim,
    ArithmeticOverflow,
    CustodyFailed,
}

#[derive(Copy, Clone, Debug, PartialEq, Eq, Structural)]
pub enum VaultStatus {
    Fractionalized,
    Auction,
    Settled,
}

/// What `initialize` locks and mints; text is UTF-8 bytes.
#[derive(Debug)]
pub struct InitConfig {
    pub nft_contract: u64,
    pub nft_id: u64,
    pub payment_token: u64,
    pub total_supply: i128,
    pub name: Vec<u8>,
    pub symbol: Vec<u8>,
    pub reserve_price: i128,
    pub auction_duration: u64,
    pub min_increment_bps: u32,
}

#[derive(Copy, Clone, Debug, PartialEq, Eq, Structural)]
pub struct VaultInfo {
    pub curator: u64,
    pub nft_contract: u64,
    pub nft_id: u64,
    pub payment_token: u64,
    pub reserve_price: i128,
    pub auction_duration: u64,
    pub min_increment_bps: u32,
    pub status: VaultStatus,
}

#[derive(Copy, Clone, Debug, PartialEq, Eq, Structural)]
pub struct AuctionInfo {
    pub bidder: u64,
    pub bid: i128,
    pub end_time: u64,
}

/// An approval to spend fractions, live up to `expiration_ledger`.
#[derive(Copy, Clone, Debug, PartialEq, Eq, Structural)]
pub struct Allowance {
    pub amount: i128,
    pub expiration_ledger: u32,
}

/// The abstract contents of the vault's storage.
pub struct VaultView {
    pub curator: Option<u64>,
    pub nft_contract: u64,
    pub nft_id: u64,
    pub payment_token: u64,
    pub reserve_price: i128,
    pub auction_duration: u64,
    pub min_increment_bps: u32,
    pub status: VaultStatus,
    pub name: Seq<u8>,
    pub symbol: Seq<u8>,
    pub supply: i128,
    pub auction: Option<AuctionInfo>,
    pub proceeds: i128,
    pub balances: Map<u64, i128>,
    pub allowances: Map<u128, Allowance>,
}

/// The vault's storage; the configuration is meaningful once `curator`
/// is set.
pub struct NftFractionalVault {
    pub curator: Option<u64>,
    pub nft_contract: u64,
    pub nft_id: u64,
    pub payment_token: u64,
    pub reserve_price: i128,
    pub auction_duration: u64,
    pub min_increment_bps: u32,
    pub status: VaultStatus,
    pub name: Vec<u8>,
    pub symbol: Vec<u8>,
    pub supply: i128,
    pub auction: Option<AuctionInfo>,
    pub proceeds: i128,
    pub balances: HashMap<u64, i128>,
    pub allowances: HashMap<u128, Allowance>,
}

impl View for NftFractionalVault {
    type V = VaultView;

    open spec fn view(&self) -> VaultView {
        VaultView {
            curator: self.curator,
            nft_contract: self.nft_contract,
            nft_id: self.nft_id,
            payment_token: self.payment_token,
            reserve_price: self.reserve_price,
            auction_duration: self.auction_duration,
            min_increment_bps: self.min_increment_bps,
            status: self.status,
            name: self.name@,
            symbol: self.symbol@,
            supply: self.supply,
            auction: self.auction,
            proceeds: self.proceeds,
            balances: self.balances@,
            allowances: self.allowances@,
        }
    }
}

/// The storage key of the allowance `owner` granted `spender`.
pub open spec fn allowance_key(owner: u64, spender: u64) -> u128 {
    (owner * 0x1_0000_0000_0000_0000 + spender) as u128
}

/// The balance table after writing `v` for `k`; a zero balance has no entry.
pub open spec fn set_balance(m: Map<u64, i128>, k: u64, v: i128) -> Map<u64, i128> {
    if v == 0 { m.remove(k) } else { m.insert(k, v) }
}

/// `ceil(a * bps / 10_000)`.
pub open spec fn bps_ceil(a: int, bps: int) -> int {
    (a * bps + 9_999) / 10_000
}

/// `ceil(a * bps / 10_000)` for non-negative `a` and `bps` up to 10_000.
pub fn mul_bps_ceil(a: i128, bps: u32) -> (r: i128)
    requires
        a >= 0,
        bps <= MAX_BPS,
    ensures
        r == bps_ceil(a as int, bps as int),
        0 <= r <= a,
{
    let q = a / 10_000;
    let rem = a % 10_000;
    let b = bps as i128;
    assert(q * b <= a) by (nonlinear_arith)
        requires q == a / 10_000, a >= 0, 0 <= b <= 10_000;
    assert(rem * b <= 10_000 * 9_999) by (nonlinear_arith)
        requires 0 <= rem < 10_000, 0 <= b <= 10_000;
    let low = (rem * b + 9_999) / 10_000;
    proof {
        let x = rem * b + 9_999;
        assert(a == 10_000 * q + rem);
        assert(a * b == (q * b) * 10_000 + rem * b) by (nonlinear_arith)
            requires a == 10_000 * q + rem;
        vstd::arithmetic::div_mod::lemma_fundamental_div_mod_converse(
            a * b + 9_999, 10_000, q * b + x / 10_000, x % 10_000);
        assert(low <= rem) by (nonlinear_arith)
            requires low == (rem * b + 9_999) / 10_000, 0 <= rem, 0 <= b <= 10_000;
    }
    assert(q * b + low <= a) by (nonlinear_arith)
        requires a == 10_000 * q + rem, low <= rem, 0 <= b <= 10_000, q >= 0;
    q * b + low
}

impl VaultView {
    pub open spec fn balance(self, owner: u64) -> int {
        amount_of(self.balances, owner)
    }

    /// The fractions in circulation are exactly the balances, none
    /// negative; the auction proceeds left to claim are non-negative; an
    /// open auction has a high bid, and bids are positive; the increment is
    /// at most 100%.
    pub open spec fn wf(self) -> bool {
        &&& self.balances.dom().finite()
        &&& all_nonneg(self.balances)
        &&& total(self.balances) == self.supply
        &&& self.proceeds >= 0
        &&& (self.status == VaultStatus::Auction ==> self.auction is Some)
        &&& (self.auction is Some ==> self.auction->Some_0.bid >= 0)
        &&& (self.curator is Some ==> self.reserve_price > 0)
        &&& (self.curator is None ==> self.balances == Map::<u64, i128>::empty())
        &&& self.min_increment_bps <= MAX_BPS
    }

    /// A transfer's new balance table, or its error.
    pub open spec fn move_outcome(self, from: u64, to: u64, amount: i128) -> Result<Map<u64, i128>, Error> {
        if amount <= 0 {
            Err(Error::InvalidAmount)
        } else if self.balance(from) < amount {
            Err(Error::InsufficientBalance)
        } else {
            let m1 = set_balance(self.balances, from, (self.balance(from) - amount) as i128);
            let tb = amount_of(m1, to);
            if !fits_i128(tb + amount) {
                Err(Error::ArithmeticOverflow)
            } else {
                Ok(set_balance(m1, to, (tb + amount) as i128))
            }
        }
    }

    /// The allowance `owner` granted `spender`, as stored.
    pub open spec fn stored_allowance(self, owner: u64, spender: u64) -> Allowance {
        let key = allowance_key(owner, spender);
        if self.allowances.contains_key(key) {
            self.allowances[key]
        } else {
            Allowance { amount: 0, expiration_ledger: 0 }
        }
    }

    /// The configuration checks of `initialize`.
    pub open spec fn config_valid(config: InitConfig) -> bool {
        &&& config.total_supply > 0
        &&& config.reserve_price > 0
        &&& config.auction_duration != 0
        &&& config.min_increment_bps != 0
        &&& config.min_increment_bps <= MAX_BPS
        &&& 0 < config.name@.len() <= MAX_METADATA_LEN
        &&& 0 < config.symbol@.len() <= MAX_METADATA_LEN
    }

    /// What a claim of `amount` fractions pays out.
    pub open spec fn claim_payout(self, amount: i128) -> int {
        if amount == self.supply {
            self.proceeds as int
        } else {
            (amount * self.proceeds) / (self.supply as int)
        }
    }
}

/// Transfers conserve the circulating fractions: whatever moves between
/// two accounts, the total of all balances stays the same.
pub proof fn lemma_move_conserves_total(s: VaultView, from: u64, to: u64, amount: i128)
    requires
        s.wf(),
        s.move_outcome(from, to, amount) is Ok,
    ensures
        total(s.move_outcome(from, to, amount)->Ok_0) == total(s.balances),
        all_nonneg(s.move_outcome(from, to, amount)->Ok_0),
        s.move_outcome(from, to, amount)->Ok_0.dom().finite(),
{
    let m0 = s.balances;
    let fb = (s.balance(from) - amount) as i128;
    let m1 = set_balance(m0, from, fb);
    if fb == 0 {
        lemma_total_drop(m0, from);
    } else {
        lemma_total_insert(m0, from, fb);
    }
    assert(amount_of(m1, from) == fb);
    let tb = amount_of(m1, to);
    let nb = (tb + amount) as i128;
    let m2 = set_balance(m1, to, nb);
    if nb == 0 {
        lemma_total_drop(m1, to);
    } else {
        lemma_total_insert(m1, to, nb);
    }
    assert forall|k: u64| #[trigger] m2.contains_key(k) implies m2[k] >= 0 by {
        if k != to && k != from {
            assert(m0.contains_key(k));
        }
    }
}

impl NftFractionalVault {
    /// A vault with empty storage.
    pub fn new() -> (r: Self)
        ensures
            r@.curator is None,
            r@.status == VaultStatus::Fractionalized,
            r@.supply == 0 && r@.proceeds == 0,
            r@.auction is None,
            r@.balances == Map::<u64, i128>::empty(),
            r@.allowances == Map::<u128, Allowance>::empty(),
            r@.wf(),
    {
        let r = NftFractionalVault {
            curator: None,
            nft_contract: 0,
            nft_id: 0,
            payment_token: 0,
            reserve_price: 0,
            auction_duration: 0,
            min_increment_bps: 0,
            status: VaultStatus::Fractionalized,
            name: Vec::new(),
            symbol: Vec::new(),
            supply: 0,
            auction: None,
            proceeds: 0,
            balances: HashMap::new(),
            allowances: HashMap::new(),
        };
        proof {
            crate::ledger::lemma_total_empty();
        }
        r
    }

    /// The checks that come before the NFT is moved: the vault is not yet
    /// initialized and `config` is valid. The host calls this first and
    /// moves the NFT only when it succeeds.
    pub fn validate_config(&self, config: &InitConfig) -> (r: Result<(), Error>)
        ensures
            r == (if self@.curator is Some {
                Err(Error::AlreadyInitialized)
            } else if !VaultView::config_valid(*config) {
                Err(Error::InvalidConfig)
            } else {
                Ok(())
            }),
    {
        if self.curator.is_some() {
            return Err(Error::AlreadyInitialized);
        }
        if config.total_supply <= 0
            || config.reserve_price <= 0
            || config.auction_duration == 0
            || config.min_increment_bps == 0
            || config.min_increment_bps > MAX_BPS
            || config.name.len() == 0
            || config.name.len() > MAX_METADATA_LEN
            || config.symbol.len() == 0
            || config.symbol.len() > MAX_METADATA_LEN
        {
            return Err(Error::InvalidConfig);
        }
        Ok(())
    }

    /// Lock the NFT and mint the whole fraction supply to `depositor`.
    /// Once `validate_config` has accepted `config`, the host moves the NFT
    /// from the depositor to `vault` (this contract) and reports its owner
    /// afterwards as `custodian`; on a refused config no NFT moves.
    pub fn initialize(&mut self, curator: u64, depositor: u64, config: InitConfig, vault: u64, custodian: u64) -> (r: Result<(), Error>)
        requires
            old(self)@.wf(),
        ensures
            r == (if old(self)@.curator is Some {
                Err(Error::AlreadyInitialized)
            } else if !VaultView::config_valid(config) {
                Err(Error::InvalidConfig)
            } else if custodian != vault {
                Err(Error::CustodyFailed)
            } else {
                Ok(())
            }),
            r is Err ==> final(self)@ == old(self)@,
            r is Ok ==> final(self)@ == (VaultView {
                curator: Some(curator),
                nft_contract: config.nft_contract,
                nft_id: config.nft_id,
                payment_token: config.payment_token,
                reserve_price: config.reserve_price,
                auction_duration: config.auction_duration,
                min_increment_bps: config.min_increment_bps,
                status: VaultStatus::Fractionalized,
                name: config.name@,
                symbol: config.symbol@,
                supply: config.total_supply,
                proceeds: 0,
                balances: old(self)@.balances.insert(depositor, config.total_supply),
                ..old(self)@
            }),
            final(self)@.wf(),
    {
        self.validate_config(&config)?;
        if custodian != vault {
            return Err(Error::CustodyFailed);
        }
        proof {
            lemma_total_insert(self.balances@, depositor, config.total_supply);
            crate::ledger::lemma_total_empty();
        }
        self.curator = Some(curator);
        self.nft_contract = config.nft_contract;
        self.nft_id = config.nft_id;
        self.payment_token = config.payment_token;
        self.reserve_price = config.reserve_price;
        self.auction_duration = config.auction_duration;
        self.min_increment_bps = config.min_increment_bps;
        self.status = VaultStatus::Fractionalized;
        self.name = config.name;
        self.symbol = config.symbol;
        self.supply = config.total_supply;
        self.proceeds = 0;
        self.balances.insert(depositor, config.total_supply);
        Ok(())
    }

    fn require_initialized(&self) -> (r: Result<(), Error>)
        ensures
            r == (if self@.curator is None { Err(Error::NotInitialized) } else { Ok(()) }),
    {
        if self.curator.is_none() {
            return Err(Error::NotInitialized);
        }
        Ok(())
    }

    fn balance_of(&self, owner: u64) -> (r: i128)
        ensures
            r == self@.balance(owner),
    {
        match self.balances.get(&owner) {
            Some(b) => *b,
            None => 0,
        }
    }

    fn write_balance(&mut self, owner: u64, value: i128)
        ensures
            final(self)@ == (VaultView {
                balances: set_balance(old(self)@.balances, owner, value),
                ..old(self)@
            }),
    {
        if value == 0 {
            self.balances.remove(&owner);
        } else {
            self.balances.insert(owner, value);
        }
    }

    fn move_balance(&mut self, from: u64, to: u64, amount: i128) -> (r: Result<(), Error>)
        ensures
            r == (match old(self)@.move_outcome(from, to, amount) {
                Ok(_) => Ok(()),
                Err(e) => Err(e),
            }),
            r is Err ==> final(self)@ == old(self)@,
            r is Ok ==> final(self)@ == (VaultView {
                balances: old(self)@.move_outcome(from, to, amount)->Ok_0,
                ..old(self)@
            }),
    {
        if amount <= 0 {
            return Err(Error::InvalidAmount);
        }
        let from_balance = self.balance_of(from);
        if from_balance < amount {
            return Err(Error::InsufficientBalance);
        }
        let to_before = if to == from { from_balance - amount } else { self.balance_of(to) };
        let new_balance = match to_before.checked_add(amount) {
            Some(b) => b,
            None => return Err(Error::ArithmeticOverflow),
        };
        self.write_balance(from, from_balance - amount);
        proof {
            assert(to_before == amount_of(self@.balances, to));
        }
        self.write_balance(to, new_balance);
        Ok(())
    }

    /// Move `amount` fractions from `from` to `to`.
    pub fn transfer(&mut self, from: u64, to: u64, amount: i128) -> (r: Result<(), Error>)
        requires
            old(self)@.wf(),
        ensures
            r == (if old(self)@.curator is None {
                Err(Error::NotInitialized)
            } else {
                match old(self)@.move_outcome(from, to, amount) {
                    Ok(_) => Ok(()),
                    Err(e) => Err(e),
                }
            }),
            r is Err ==> final(self)@ == old(self)@,
            r is Ok ==> final(self)@ == (VaultView {
                balances: old(self)@.move_outcome(from, to, amount)->Ok_0,
                ..old(self)@
            }),
            final(self)@.wf(),
    {
        self.require_initialized()?;
        let r = self.move_balance(from, to, amount);
        proof {
            if r is Ok {
                lemma_move_conserves_total(old(self)@, from, to, amount);
            }
        }
        r
    }

    /// `from` lets `spender` move up to `amount` of its fractions until
    /// ledger `expiration_ledger`; zero revokes the approval.
    pub fn approve(&mut self, from: u64, spender: u64, amount: i128, expiration_ledger: u32, ledger_seq: u32) -> (r: Result<(), Error>)
        requires
            old(self)@.wf(),
        ensures
            r == (if old(self)@.curator is None {
                Err(Error::NotInitialized)
            } else if amount < 0 || (amount > 0 && expiration_ledger < ledger_seq) {
                Err(Error::InvalidAmount)
            } else {
                Ok(())
            }),
            r is Err ==> final(self)@ == old(self)@,
            r is Ok ==> final(self)@ == (VaultView {
                allowances: if amount == 0 {
                    old(self)@.allowances.remove(allowance_key(from, spender))
                } else {
                    old(self)@.allowances.insert(allowance_key(from, spender), Allowance { amount, expiration_ledger })
                },
                ..old(self)@
            }),
            final(self)@.wf(),
    {
        self.require_initialized()?;
        if amount < 0 || (amount > 0 && expiration_ledger < ledger_seq) {
            return Err(Error::InvalidAmount);
        }
        let key = make_allowance_key(from, spender);
        if amount == 0 {
            self.allowances.remove(&key);
        } else {
            self.allowances.insert(key, Allowance { amount, expiration_ledger });
        }
        Ok(())
    }

    /// `spender` moves `amount` of `from`'s fractions to `to` under its
    /// approval, at ledger `ledger_seq`.
    pub fn transfer_from(&mut self, spender: u64, from: u64, to: u64, amount: i128, ledger_seq: u32) -> (r: Result<(), Error>)
        requires
            old(self)@.wf(),
        ensures
            r == (if old(self)@.curator is None {
                Err(Error::NotInitialized)
            } else if amount <= 0 {
                Err(Error::InvalidAmount)
            } else if ledger_seq > old(self)@.stored_allowance(from, spender).expiration_ledger {
                Err(Error::AllowanceExpired)
            } else if old(self)@.stored_allowance(from, spender).amount < amount {
                Err(Error::InsufficientAllowance)
            } else {
                match old(self)@.move_outcome(from, to, amount) {
                    Ok(_) => Ok(()),
                    Err(e) => Err(e),
                }
            }),
            r is Err ==> final(self)@ == old(self)@,
            r is Ok ==> final(self)@ == (VaultView {
                balances: old(self)@.move_outcome(from, to, amount)->Ok_0,
                allowances: {
                    let a = old(self)@.stored_allowance(from, spender);
                    if a.amount - amount == 0 {
                        old(self)@.allowances.remove(allowance_key(from, spender))
                    } else {
                        old(self)@.allowances.insert(allowance_key(from, spender),
                            Allowance { amount: (a.amount - amount) as i128, ..a })
                    }
                },
                ..old(self)@
            }),
            final(self)@.wf(),
    {
        self.require_initialized()?;
        if amount <= 0 {
            return Err(Error::InvalidAmount);
        }
        let key = make_allowance_key(from, spender);
        let approved = match self.allowances.get(&key) {
            Some(a) => *a,
            None => Allowance { amount: 0, expiration_ledger: 0 },
        };
        if ledger_seq > approved.expiration_ledger {
            return Err(Error::AllowanceExpired);
        }
        if approved.amount < amount {
            return Err(Error::InsufficientAllowance);
        }
        let ghost before = self@;
        let moved = self.move_balance(from, to, amount);
        match moved {
            Ok(()) => {},
            Err(e) => return Err(e),
        }
        proof {
            lemma_move_conserves_total(before, from, to, amount);
        }
        let remaining = approved.amount - amount;
        if remaining == 0 {
            self.allowances.remove(&key);
        } else {
            self.allowances.insert(key, Allowance { amount: remaining, ..approved });
        }
        Ok(())
    }

    /// The live allowance `from` granted `spender` at ledger `ledger_seq`.
    pub fn allowance(&self, from: u64, spender: u64, ledger_seq: u32) -> (r: i128)
        ensures
            r == (if self@.allowances.contains_key(allowance_key(from, spender))
                && ledger_seq <= self@.allowances[allowance_key(from, spender)].expiration_ledger {
                self@.allowances[allowance_key(from, spender)].amount
            } else {
                0
            }),
    {
        match self.allowances.get(&make_allowance_key(from, spender)) {
            Some(a) => if ledger_seq <= a.expiration_ledger { a.amount } else { 0 },
            None => 0,
        }
    }

    pub fn balance(&self, owner: u64) -> (r: i128)
        ensures
            r == self@.balance(owner),
    {
        self.balance_of(owner)
    }

    pub fn total_supply(&self) -> (r: i128)
        ensures
            r == self@.supply,
    {
        self.supply
    }

    pub fn decimals(&self) -> (r: u32)
        ensures
            r == 7,
    {
        7
    }

    pub fn name(&self) -> (r: Vec<u8>)
        ensures
            r@ == self@.name,
    {
        copy_bytes(&self.name)
    }

    pub fn symbol(&self) -> (r: Vec<u8>)
        ensures
            r@ == self@.symbol,
    {
        copy_bytes(&self.symbol)
    }

    /// Open the buyout auction at `now` with a bid of at least the reserve
    /// price; the host escrows the bid from `bidder`.
    pub fn start_auction(&mut self, bidder: u64, bid: i128, now: u64) -> (r: Result<(), Error>)
        requires
            old(self)@.wf(),
        ensures
            r == (if old(self)@.curator is None {
                Err(Error::NotInitialized)
            } else if old(self)@.status != VaultStatus::Fractionalized {
                Err(Error::AuctionActive)
            } else if bid < old(self)@.reserve_price {
                Err(Error::BidTooLow)
            } else if now + old(self)@.auction_duration > u64::MAX {
                Err(Error::ArithmeticOverflow)
            } else {
                Ok(())
            }),
            r is Err ==> final(self)@ == old(self)@,
            r is Ok ==> final(self)@ == (VaultView {
                auction: Some(AuctionInfo {
                    bidder,
                    bid,
                    end_time: (now + old(self)@.auction_duration) as u64,
                }),
                status: VaultStatus::Auction,
                ..old(self)@
            }),
            final(self)@.wf(),
    {
        self.require_initialized()?;
        if self.status != VaultStatus::Fractionalized {
            return Err(Error::AuctionActive);
        }
        if bid < self.reserve_price {
            return Err(Error::BidTooLow);
        }
        let end_time = match now.checked_add(self.auction_duration) {
            Some(e) => e,
            None => return Err(Error::ArithmeticOverflow),
        };
        self.auction = Some(AuctionInfo { bidder, bid, end_time });
        self.status = VaultStatus::Auction;
        Ok(())
    }

    /// Replace the high bid at `now`; the bid must beat the current one by
    /// the minimum increment (rounded up). The host escrows the new bid and
    /// refunds the previous bidder.
    pub fn bid(&mut self, bidder: u64, amount: i128, now: u64) -> (r: Result<(), Error>)
        requires
            old(self)@.wf(),
        ensures
            r == (if old(self)@.curator is None {
                Err(Error::NotInitialized)
            } else if old(self)@.status != VaultStatus::Auction {
                Err(Error::AuctionNotActive)
            } else {
                let cur = old(self)@.auction->Some_0;
                let minimum = cur.bid + bps_ceil(cur.bid as int, old(self)@.min_increment_bps as int);
                if now >= cur.end_time {
                    Err(Error::AuctionEnded)
                } else if !fits_i128(minimum) {
                    Err(Error::ArithmeticOverflow)
                } else if amount < minimum {
                    Err(Error::BidTooLow)
                } else {
                    Ok(())
                }
            }),
            r is Err ==> final(self)@ == old(self)@,
            r is Ok ==> final(self)@ == (VaultView {
                auction: Some(AuctionInfo { bidder, bid: amount, ..old(self)@.auction->Some_0 }),
                ..old(self)@
            }),
            final(self)@.wf(),
    {
        self.require_initialized()?;
        if self.status != VaultStatus::Auction {
            return Err(Error::AuctionNotActive);
        }
        let current = match self.auction {
            Some(a) => a,
            None => return Err(Error::AuctionNotActive),
        };
        if now >= current.end_time {
            return Err(Error::AuctionEnded);
        }
        let increment = mul_bps_ceil(current.bid, self.min_increment_bps);
        let minimum = match current.bid.checked_add(increment) {
            Some(m) => m,
            None => return Err(Error::ArithmeticOverflow),
        };
        if amount < minimum {
            return Err(Error::BidTooLow);
        }
        self.auction = Some(AuctionInfo { bidder, bid: amount, end_time: current.end_time });
        Ok(())
    }

    /// Close the auction once it has ended at `now`: the high bid becomes
    /// the proceeds and the host transfers the NFT to the winner.
    pub fn settle(&mut self, now: u64) -> (r: Result<(), Error>)
        requires
            old(self)@.wf(),
        ensures
            r == (if old(self)@.curator is None {
                Err(Error::NotInitialized)
            } else if old(self)@.status != VaultStatus::Auction {
                Err(Error::AuctionNotActive)
            } else if now < old(self)@.auction->Some_0.end_time {
                Err(Error::AuctionNotEnded)
            } else {
                Ok(())
            }),
            r is Err ==> final(self)@ == old(self)@,
            r is Ok ==> final(self)@ == (VaultView {
                status: VaultStatus::Settled,
                proceeds: old(self)@.auction->Some_0.bid,
                ..old(self)@
            }),
            final(self)@.wf(),
    {
        self.require_initialized()?;
        if self.status != VaultStatus::Auction {
            return Err(Error::AuctionNotActive);
        }
        let auction = match self.auction {
            Some(a) => a,
            None => return Err(Error::AuctionNotActive),
        };
        if now < auction.end_time {
            return Err(Error::AuctionNotEnded);
        }
        self.status = VaultStatus::Settled;
        self.proceeds = auction.bid;
        Ok(())
    }

    /// Burn `amount` of `holder`'s fractions for their share of the
    /// remaining proceeds: all of it for the last fractions, else
    /// `floor(amount * proceeds / supply)`. The host pays the returned
    /// amount to `holder`.
    pub fn claim(&mut self, holder: u64, amount: i128) -> (r: Result<i128, Error>)
        requires
            old(self)@.wf(),
        ensures
            r == (if old(self)@.curator is None {
                Err(Error::NotInitialized)
            } else if old(self)@.status != VaultStatus::Settled {
                Err(Error::NotSettled)
            } else if amount <= 0 {
                Err(Error::InvalidAmount)
            } else if old(self)@.balance(holder) < amount {
                Err(Error::InsufficientBalance)
            } else if old(self)@.claim_payout(amount) <= 0 {
                Err(Error::NothingToClaim)
            } else {
                Ok(old(self)@.claim_payout(amount) as i128)
            }),
            r is Err ==> final(self)@ == old(self)@,
            r is Ok ==> final(self)@ == (VaultView {
                balances: set_balance(old(self)@.balances, holder, (old(self)@.balance(holder) - amount) as i128),
                supply: (old(self)@.supply - amount) as i128,
                proceeds: (old(self)@.proceeds - r->Ok_0) as i128,
                ..old(self)@
            }),
            r is Ok ==> 0 < r->Ok_0 <= old(self)@.proceeds,
            final(self)@.wf(),
    {
        self.require_initialized()?;
        if self.status != VaultStatus::Settled {
            return Err(Error::NotSettled);
        }
        if amount <= 0 {
            return Err(Error::InvalidAmount);
        }
        let holder_balance = self.balance_of(holder);
        if holder_balance < amount {
            return Err(Error::InsufficientBalance);
        }
        proof {
            lemma_amount_le_total(self@.balances, holder);
        }
        let supply = self.supply;
        let proceeds = self.proceeds;
        let payout = if amount == supply {
            proceeds
        } else {
            mul_div_floor(amount, proceeds, supply)
        };
        if payout <= 0 {
            return Err(Error::NothingToClaim);
        }
        let ghost before = self@;
        self.write_balance(holder, holder_balance - amount);
        proof {
            if holder_balance - amount == 0 {
                lemma_total_drop(before.balances, holder);
            } else {
                lemma_total_insert(before.balances, holder, (holder_balance - amount) as i128);
            }
            assert forall|k: u64| #[trigger] self@.balances.contains_key(k) implies self@.balances[k] >= 0 by {
                if k != holder {
                    assert(before.balances.contains_key(k));
                }
            }
        }
        self.supply = supply - amount;
        self.proceeds = proceeds - payout;
        Ok(payout)
    }

    pub fn vault_info(&self) -> (r: Result<VaultInfo, Error>)
        ensures
            r == (match self@.curator {
                None => Err(Error::NotInitialized),
                Some(c) => Ok(VaultInfo {
                    curator: c,
                    nft_contract: self@.nft_contract,
                    nft_id: self@.nft_id,
                    payment_token: self@.payment_token,
                    reserve_price: self@.reserve_price,
                    auction_duration: self@.auction_duration,
                    min_increment_bps: self@.min_increment_bps,
                    status: self@.status,
                }),
            }),
    {
        match self.curator {
            None => Err(Error::NotInitialized),
            Some(c) => Ok(VaultInfo {
                curator: c,
                nft_contract: self.nft_contract,
                nft_id: self.nft_id,
                payment_token: self.payment_token,
                reserve_price: self.reserve_price,
                auction_duration: self.auction_duration,
                min_increment_bps: self.min_increment_bps,
                status: self.status,
            }),
        }
    }

    pub fn auction_info(&self) -> (r: Result<AuctionInfo, Error>)
        ensures
            r == (if self@.curator is None {
                Err(Error::NotInitialized)
            } else {
                match self@.auction {
                    Some(a) => Ok(a),
                    None => Err(Error::AuctionNotActive),
                }
            }),
    {
        self.require_initialized()?;
        match self.auction {
            Some(a) => Ok(a),
            None => Err(Error::AuctionNotActive),
        }
    }

    pub fn remaining_proceeds(&self) -> (r: i128)
        ensures
            r == self@.proceeds,
    {
        self.proceeds
    }
}

fn make_allowance_key(owner: u64, spender: u64) -> (r: u128)
    ensures
        r == allowance_key(owner, spender),
{
    assert(owner * 0x1_0000_0000_0000_0000 + spender <= u128::MAX) by (nonlinear_arith)
        requires owner <= u64::MAX, spender <= u64::MAX;
    (owner as u128) * 0x1_0000_0000_0000_0000 + (spender as u128)
}

} // verus!
