//! Upgrade governance for a contract's code: an admin proposes a new code
//! hash, which takes effect at once when the timelock is zero and otherwise
//! once `timelock_ledgers` ledgers have passed; an admin may pause upgrades.
//!
//! Accounts are numbers. The host authenticates the admin, passes the ledger
//! sequence as `ledger_seq`, and installs the code hash that a call returns.
use vstd::prelude::*;

pub mod delayed;

verus! {

/// A code hash.
pub type WasmHash = [u8; 32];

#[derive(Copy, Clone, Debug, PartialEq, Eq, Structural)]
pub enum Error {
    AlreadyInitialized,
    NotInitialized,
    Unauthorized,
    TimelockNotElapsed,
    NoPendingUpgrade,
    ContractPaused,
}

/// The contract's storage. It is initialized once `admin` is set.
#[derive(Copy, Clone, Debug)]
pub struct UpgradeableContract {
    pub admin: Option<u64>,
    pub timelock: u32,
    pub paused: bool,
    /// The proposed hash and the ledger it was proposed in.
    pub pending: Option<(WasmHash, u32)>,
}

impl UpgradeableContract {
    /// Who may manage upgrades: `caller` when it is the admin.
    pub open spec fn admin_check(self, caller: u64) -> Result<(), Error> {
        match self.admin {
            None => Err(Error::NotInitialized),
            Some(a) => if a != caller { Err(Error::Unauthorized) } else { Ok(()) },
        }
    }

    /// The checks before an upgrade call, in order.
    pub open spec fn upgrade_checks(self, caller: u64) -> Result<(), Error> {
        if self.admin is None {
            Err(Error::NotInitialized)
        } else if self.paused {
            Err(Error::ContractPaused)
        } else {
            self.admin_check(caller)
        }
    }

    /// A contract with empty storage.
    pub fn new() -> (r: Self)
        ensures
            r.admin is None && r.timelock == 0 && !r.paused && r.pending is None,
    {
        UpgradeableContract { admin: None, timelock: 0, paused: false, pending: None }
    }

    /// Sets the admin and the timelock (zero when none is given); once only.
    pub fn initialize(&mut self, admin: u64, timelock_ledgers: Option<u32>) -> (r: Result<(), Error>)
        ensures
            r == (if old(self).admin is Some { Err(Error::AlreadyInitialized) } else { Ok(()) }),
            r is Err ==> *final(self) == *old(self),
            r is Ok ==> *final(self) == (UpgradeableContract {
                admin: Some(admin),
                timelock: match timelock_ledgers { Some(t) => t, None => 0 },
                ..*old(self)
            }),
    {
        if self.admin.is_some() {
            return Err(Error::AlreadyInitialized);
        }
        self.admin = Some(admin);
        self.timelock = match timelock_ledgers {
            Some(t) => t,
            None => 0,
        };
        Ok(())
    }

    fn require_admin(&self, caller: u64) -> (r: Result<(), Error>)
        ensures
            r == self.admin_check(caller),
    {
        match self.admin {
            None => Err(Error::NotInitialized),
            Some(a) => if a != caller { Err(Error::Unauthorized) } else { Ok(()) },
        }
    }

    pub fn pause(&mut self, admin: u64) -> (r: Result<(), Error>)
        ensures
            r == old(self).admin_check(admin),
            r is Err ==> *final(self) == *old(self),
            r is Ok ==> *final(self) == (UpgradeableContract { paused: true, ..*old(self) }),
    {
        self.require_admin(admin)?;
        self.paused = true;
        Ok(())
    }

    pub fn unpause(&mut self, admin: u64) -> (r: Result<(), Error>)
        ensures
            r == old(self).admin_check(admin),
            r is Err ==> *final(self) == *old(self),
            r is Ok ==> *final(self) == (UpgradeableContract { paused: false, ..*old(self) }),
    {
        self.require_admin(admin)?;
        self.paused = false;
        Ok(())
    }

    /// Proposes `new_hash` at ledger `ledger_seq`. With a zero timelock it
    /// returns the hash to install now; otherwise it records the proposal,
    /// replacing any earlier one, and returns `None`.
    pub fn propose_upgrade(&mut self, admin: u64, new_hash: WasmHash, ledger_seq: u32) -> (r: Result<Option<WasmHash>, Error>)
        ensures
            old(self).upgrade_checks(admin) is Err ==> r == Err::<Option<WasmHash>, Error>(
                old(self).upgrade_checks(admin)->Err_0),
            old(self).upgrade_checks(admin) is Ok ==> r is Ok,
            r is Err ==> *final(self) == *old(self),
            r is Ok && old(self).timelock == 0 ==> r == Ok::<Option<WasmHash>, Error>(Some(new_hash))
                && *final(self) == *old(self),
            r is Ok && old(self).timelock != 0 ==> r == Ok::<Option<WasmHash>, Error>(None)
                && *final(self) == (UpgradeableContract { pending: Some((new_hash, ledger_seq)), ..*old(self) }),
    {
        if self.admin.is_none() {
            return Err(Error::NotInitialized);
        }
        if self.paused {
            return Err(Error::ContractPaused);
        }
        self.require_admin(admin)?;
        if self.timelock == 0 {
            Ok(Some(new_hash))
        } else {
            self.pending = Some((new_hash, ledger_seq));
            Ok(None)
        }
    }

    /// Applies the pending proposal once the timelock has passed at ledger
    /// `ledger_seq`: clears it and returns the hash to install.
    pub fn execute_upgrade(&mut self, admin: u64, ledger_seq: u32) -> (r: Result<WasmHash, Error>)
        requires
            old(self).pending matches Some(p) ==> p.1 + old(self).timelock <= u32::MAX,
        ensures
            r == (if old(self).upgrade_checks(admin) is Err {
                Err(old(self).upgrade_checks(admin)->Err_0)
            } else {
                match old(self).pending {
                    None => Err(Error::NoPendingUpgrade),
                    Some(p) => if ledger_seq < p.1 + old(self).timelock {
                        Err(Error::TimelockNotElapsed)
                    } else {
                        Ok(p.0)
                    },
                }
            }),
            r is Err ==> *final(self) == *old(self),
            r is Ok ==> *final(self) == (UpgradeableContract { pending: None, ..*old(self) }),
    {
        if self.admin.is_none() {
            return Err(Error::NotInitialized);
        }
        if self.paused {
            return Err(Error::ContractPaused);
        }
        self.require_admin(admin)?;
        let (hash, proposed_at) = match self.pending {
            Some(p) => p,
            None => return Err(Error::NoPendingUpgrade),
        };
        if ledger_seq < proposed_at + self.timelock {
            return Err(Error::TimelockNotElapsed);
        }
        self.pending = None;
        Ok(hash)
    }

    /// The immediate form of `propose_upgrade`.
    pub fn upgrade_to(&mut self, admin: u64, new_hash: WasmHash, ledger_seq: u32) -> (r: Result<Option<WasmHash>, Error>)
        ensures
            old(self).upgrade_checks(admin) is Err ==> r == Err::<Option<WasmHash>, Error>(
                old(self).upgrade_checks(admin)->Err_0),
            old(self).upgrade_checks(admin) is Ok ==> r is Ok,
            r is Err ==> *final(self) == *old(self),
            r is Ok && old(self).timelock == 0 ==> r == Ok::<Option<WasmHash>, Error>(Some(new_hash))
                && *final(self) == *old(self),
            r is Ok && old(self).timelock != 0 ==> r == Ok::<Option<WasmHash>, Error>(None)
                && *final(self) == (UpgradeableContract { pending: Some((new_hash, ledger_seq)), ..*old(self) }),
    {
        self.propose_upgrade(admin, new_hash, ledger_seq)
    }

    pub fn get_admin(&self) -> (r: Result<u64, Error>)
        ensures
            r == (match self.admin { None => Err(Error::NotInitialized), Some(a) => Ok(a) }),
    {
        match self.admin {
            None => Err(Error::NotInitialized),
            Some(a) => Ok(a),
        }
    }

    pub fn is_initialized(&self) -> (r: bool)
        ensures
            r == self.admin is Some,
    {
        self.admin.is_some()
    }

    pub fn is_paused(&self) -> (r: bool)
        ensures
            r == self.paused,
    {
        self.paused
    }

    pub fn get_timelock(&self) -> (r: Result<u32, Error>)
        ensures
            r == (if self.admin is None { Err(Error::NotInitialized) } else { Ok(self.timelock) }),
    {
        if self.admin.is_none() {
            return Err(Error::NotInitialized);
        }
        Ok(self.timelock)
    }

    pub fn get_pending_upgrade(&self) -> (r: Option<(WasmHash, u32)>)
        ensures
            r == self.pending,
    {
        self.pending
    }
}

} // verus!
