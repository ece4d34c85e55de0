//! A second upgrade scheme with a fixed 48-hour delay: the admin proposes a
//! code hash, which may be executed once its time has come, unless paused.
//!
//! Accounts are numbers. The host authenticates the admin, passes the ledger
//! time as `now`, and installs the code hash that `execute_upgrade` returns.
use vstd::prelude::*;

use super::WasmHash;

verus! {

pub const TIMELOCK_DELAY_SECONDS: u64 = 172_800;

#[derive(Copy, Clone, Debug, PartialEq, Eq, Structural)]
pub enum UpgradeError {
    NotAdmin,
    ContractPaused,
    NoUpgradeProposed,
    TimelockNotExpired,
}

#[derive(Copy, Clone, Debug, PartialEq, Eq)]
pub struct PendingUpgrade {
    pub new_wasm_hash: WasmHash,
    pub eta: u64,
}

/// The contract's storage. It is initialized once `admin` is set.
#[derive(Copy, Clone, Debug)]
pub struct UpgradeableContract {
    pub admin: Option<u64>,
    pub paused: bool,
    pub pending: Option<PendingUpgrade>,
}

impl UpgradeableContract {
    /// A contract with empty storage.
    pub fn new() -> (r: Self)
        ensures
            r.admin is None && !r.paused && r.pending is None,
    {
        UpgradeableContract { admin: None, paused: false, pending: None }
    }

    /// Sets the admin and clears the pause flag. A second call is a fault of
    /// the caller: the contract aborts on it.
    pub fn initialize(&mut self, admin: u64)
        requires
            old(self).admin is None,
        ensures
            *final(self) == (UpgradeableContract { admin: Some(admin), paused: false, ..*old(self) }),
    {
        self.admin = Some(admin);
        self.paused = false;
    }

    /// Records `new_wasm_hash` for execution 48 hours after `now`, replacing
    /// any earlier proposal.
    pub fn propose_upgrade(&mut self, new_wasm_hash: WasmHash, now: u64) -> (r: Result<(), UpgradeError>)
        requires
            now + TIMELOCK_DELAY_SECONDS <= u64::MAX,
        ensures
            r == (if old(self).admin is None {
                Err(UpgradeError::NotAdmin)
            } else if old(self).paused {
                Err(UpgradeError::ContractPaused)
            } else {
                Ok(())
            }),
            r is Err ==> *final(self) == *old(self),
            r is Ok ==> *final(self) == (UpgradeableContract {
                pending: Some(PendingUpgrade { new_wasm_hash, eta: (now + TIMELOCK_DELAY_SECONDS) as u64 }),
                ..*old(self)
            }),
    {
        self.get_admin()?;
        self.ensure_not_paused()?;
        self.pending = Some(PendingUpgrade { new_wasm_hash, eta: now + TIMELOCK_DELAY_SECONDS });
        Ok(())
    }

    /// Takes the proposal once `now` has reached its time and returns the
    /// hash to install.
    pub fn execute_upgrade(&mut self, now: u64) -> (r: Result<WasmHash, UpgradeError>)
        ensures
            r == (if old(self).admin is None {
                Err(UpgradeError::NotAdmin)
            } else if old(self).paused {
                Err(UpgradeError::ContractPaused)
            } else {
                match old(self).pending {
                    None => Err(UpgradeError::NoUpgradeProposed),
                    Some(p) => if now < p.eta { Err(UpgradeError::TimelockNotExpired) } else { Ok(p.new_wasm_hash) },
                }
            }),
            r is Err ==> *final(self) == *old(self),
            r is Ok ==> *final(self) == (UpgradeableContract { pending: None, ..*old(self) }),
    {
        self.get_admin()?;
        self.ensure_not_paused()?;
        let pending = match self.pending {
            Some(p) => p,
            None => return Err(UpgradeError::NoUpgradeProposed),
        };
        if now < pending.eta {
            return Err(UpgradeError::TimelockNotExpired);
        }
        self.pending = None;
        Ok(pending.new_wasm_hash)
    }

    /// Sets the pause flag; it takes effect at once.
    pub fn set_paused(&mut self, paused: bool) -> (r: Result<(), UpgradeError>)
        ensures
            r == (if old(self).admin is None { Err(UpgradeError::NotAdmin) } else { Ok(()) }),
            r is Err ==> *final(self) == *old(self),
            r is Ok ==> *final(self) == (UpgradeableContract { paused, ..*old(self) }),
    {
        self.get_admin()?;
        self.paused = paused;
        Ok(())
    }

    pub fn get_admin(&self) -> (r: Result<u64, UpgradeError>)
        ensures
            r == (match self.admin { None => Err(UpgradeError::NotAdmin), Some(a) => Ok(a) }),
    {
        match self.admin {
            None => Err(UpgradeError::NotAdmin),
            Some(a) => Ok(a),
        }
    }

    fn ensure_not_paused(&self) -> (r: Result<(), UpgradeError>)
        ensures
            r == (if self.paused { Err(UpgradeError::ContractPaused) } else { Ok(()) }),
    {
        if self.paused {
            return Err(UpgradeError::ContractPaused);
        }
        Ok(())
    }
}

} // verus!
