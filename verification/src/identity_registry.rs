//! A registry of self-sovereign identities. Users register an identity
//! (status `Pending`), an admin verifies it, and the admin or the owner may
//! revoke it; a revoked identity never changes status again. Owners update
//! their metadata while the identity is not revoked.
//!
//! Accounts are numbers and text is UTF-8 bytes. The host authenticates the
//! callers (for `transfer_admin` and `verify`, the current admin) and passes
//! the ledger time as `now`.
use std::collections::HashMap;
use vstd::prelude::*;

use crate::bytes::copy_bytes;

verus! {

broadcast use vstd::std_specs::hash::group_hash_axioms;

pub const MAX_DISPLAY_NAME_LEN: usize = 64;
pub const MAX_METADATA_URI_LEN: usize = 256;

/// Status of an identity.
#[derive(Copy, Clone, Debug, PartialEq, Eq, Structural)]
pub enum IdentityStatus {
    /// Registered but not yet verified by the admin.
    Pending,
    /// Verified by the admin.
    Verified,
    /// Revoked; no further transitions.
    Revoked,
}

/// An identity record.
#[derive(Debug)]
pub struct Identity {
    pub owner: u64,
    /// Human-readable name, 1 to 64 bytes.
    pub display_name: Vec<u8>,
    /// Off-chain document URI, 1 to 256 bytes.
    pub metadata_uri: Vec<u8>,
    pub status: IdentityStatus,
    pub registered_at: u64,
    pub updated_at: u64,
}

#[derive(Copy, Clone, Debug, PartialEq, Eq, Structural)]
pub enum Error {
    AlreadyInitialized,
    NotInitialized,
    Unauthorized,
    IdentityNotFound,
    AlreadyRegistered,
    IdentityRevoked,
    AlreadyRevoked,
    InvalidStatus,
    EmptyDisplayName,
    DisplayNameTooLong,
    EmptyMetadataUri,
    MetadataUriTooLong,
}

impl Identity {
    /// Field-by-field equality, comparing text by its bytes.
    pub open spec fn same(self, other: Identity) -> bool {
        &&& self.owner == other.owner
        &&& self.display_name@ == other.display_name@
        &&& self.metadata_uri@ == other.metadata_uri@
        &&& self.status == other.status
        &&& self.registered_at == other.registered_at
        &&& self.updated_at == other.updated_at
    }

    pub fn duplicate(&self) -> (r: Identity)
        ensures
            r.same(*self),
    {
        Identity {
            owner: self.owner,
            display_name: copy_bytes(&self.display_name),
            metadata_uri: copy_bytes(&self.metadata_uri),
            status: self.status,
            registered_at: self.registered_at,
            updated_at: self.updated_at,
        }
    }
}

/// The checks on a display name and a metadata URI, in order.
pub open spec fn text_checks(name_len: nat, uri_len: nat) -> Result<(), Error> {
    if name_len == 0 {
        Err(Error::EmptyDisplayName)
    } else if name_len > MAX_DISPLAY_NAME_LEN {
        Err(Error::DisplayNameTooLong)
    } else if uri_len == 0 {
        Err(Error::EmptyMetadataUri)
    } else if uri_len > MAX_METADATA_URI_LEN {
        Err(Error::MetadataUriTooLong)
    } else {
        Ok(())
    }
}

fn check_text(display_name: &Vec<u8>, metadata_uri: &Vec<u8>) -> (r: Result<(), Error>)
    ensures
        r == text_checks(display_name@.len(), metadata_uri@.len()),
{
    if display_name.len() == 0 {
        return Err(Error::EmptyDisplayName);
    }
    if display_name.len() > MAX_DISPLAY_NAME_LEN {
        return Err(Error::DisplayNameTooLong);
    }
    if metadata_uri.len() == 0 {
        return Err(Error::EmptyMetadataUri);
    }
    if metadata_uri.len() > MAX_METADATA_URI_LEN {
        return Err(Error::MetadataUriTooLong);
    }
    Ok(())
}

/// The abstract contents of the registry's storage.
pub struct RegistryView {
    pub admin: Option<u64>,
    pub identities: Map<u64, Identity>,
}

/// The registry. It is initialized once `admin` is set.
pub struct IdentityRegistryContract {
    pub admin: Option<u64>,
    pub identities: HashMap<u64, Identity>,
}

impl View for IdentityRegistryContract {
    type V = RegistryView;

    open spec fn view(&self) -> RegistryView {
        RegistryView { admin: self.admin, identities: self.identities@ }
    }
}

impl RegistryView {
    /// Every record is filed under its owner and holds text within bounds.
    pub open spec fn wf(self) -> bool {
        forall|o: u64| #[trigger] self.identities.contains_key(o) ==> {
            &&& self.identities[o].owner == o
            &&& text_checks(self.identities[o].display_name@.len(), self.identities[o].metadata_uri@.len()) is Ok
        }
    }

    /// Whether `owner`'s identity is revoked.
    pub open spec fn revoked(self, owner: u64) -> bool {
        self.identities.contains_key(owner) && self.identities[owner].status == IdentityStatus::Revoked
    }

    /// No identity is dropped, and none leaves the revoked status.
    pub open spec fn kept_by(self, next: RegistryView) -> bool {
        &&& forall|o: u64| #[trigger] self.identities.contains_key(o) ==> next.identities.contains_key(o)
        &&& forall|o: u64| #[trigger] self.revoked(o) ==> next.revoked(o)
    }
}

impl IdentityRegistryContract {
    /// A registry with empty storage.
    pub fn new() -> (r: Self)
        ensures
            r@.admin is None,
            r@.identities == Map::<u64, Identity>::empty(),
            r@.wf(),
    {
        IdentityRegistryContract { admin: None, identities: HashMap::new() }
    }

    /// Sets the admin; once only.
    pub fn initialize(&mut self, admin: u64) -> (r: Result<(), Error>)
        ensures
            r == (if old(self)@.admin is Some { Err(Error::AlreadyInitialized) } else { Ok(()) }),
            r is Err ==> final(self)@ == old(self)@,
            r is Ok ==> final(self)@ == (RegistryView { admin: Some(admin), ..old(self)@ }),
    {
        if self.admin.is_some() {
            return Err(Error::AlreadyInitialized);
        }
        self.admin = Some(admin);
        Ok(())
    }

    /// Hands the admin role to `new_admin`; the host requires the current
    /// admin's signature.
    pub fn transfer_admin(&mut self, new_admin: u64) -> (r: Result<(), Error>)
        ensures
            r == (if old(self)@.admin is None { Err(Error::NotInitialized) } else { Ok(()) }),
            r is Err ==> final(self)@ == old(self)@,
            r is Ok ==> final(self)@ == (RegistryView { admin: Some(new_admin), ..old(self)@ }),
    {
        if self.admin.is_none() {
            return Err(Error::NotInitialized);
        }
        self.admin = Some(new_admin);
        Ok(())
    }

    /// Registers `owner`'s identity as `Pending` at `now`.
    pub fn register(&mut self, owner: u64, display_name: Vec<u8>, metadata_uri: Vec<u8>, now: u64) -> (r: Result<(), Error>)
        ensures
            r == (if old(self)@.admin is None {
                Err(Error::NotInitialized)
            } else if text_checks(display_name@.len(), metadata_uri@.len()) is Err {
                text_checks(display_name@.len(), metadata_uri@.len())
            } else if old(self)@.identities.contains_key(owner) {
                Err(Error::AlreadyRegistered)
            } else {
                Ok(())
            }),
            r is Err ==> final(self)@ == old(self)@,
            r is Ok ==> final(self)@ == (RegistryView {
                identities: old(self)@.identities.insert(owner, Identity {
                    owner,
                    display_name,
                    metadata_uri,
                    status: IdentityStatus::Pending,
                    registered_at: now,
                    updated_at: now,
                }),
                ..old(self)@
            }),
            old(self)@.kept_by(final(self)@),
            old(self)@.wf() ==> final(self)@.wf(),
    {
        if self.admin.is_none() {
            return Err(Error::NotInitialized);
        }
        check_text(&display_name, &metadata_uri)?;
        if self.identities.contains_key(&owner) {
            return Err(Error::AlreadyRegistered);
        }
        let identity = Identity {
            owner,
            display_name,
            metadata_uri,
            status: IdentityStatus::Pending,
            registered_at: now,
            updated_at: now,
        };
        self.identities.insert(owner, identity);
        Ok(())
    }

    /// Replaces the owner's name and URI at `now`, unless revoked.
    pub fn update_metadata(&mut self, owner: u64, display_name: Vec<u8>, metadata_uri: Vec<u8>, now: u64) -> (r: Result<(), Error>)
        ensures
            r == (if old(self)@.admin is None {
                Err(Error::NotInitialized)
            } else if text_checks(display_name@.len(), metadata_uri@.len()) is Err {
                text_checks(display_name@.len(), metadata_uri@.len())
            } else if !old(self)@.identities.contains_key(owner) {
                Err(Error::IdentityNotFound)
            } else if old(self)@.revoked(owner) {
                Err(Error::IdentityRevoked)
            } else {
                Ok(())
            }),
            r is Err ==> final(self)@ == old(self)@,
            r is Ok ==> ({
                let prev = old(self)@.identities[owner];
                &&& final(self)@.admin == old(self)@.admin
                &&& final(self)@.identities == old(self)@.identities.insert(owner, final(self)@.identities[owner])
                &&& final(self)@.identities[owner].same(Identity {
                    owner: prev.owner,
                    display_name,
                    metadata_uri,
                    status: prev.status,
                    registered_at: prev.registered_at,
                    updated_at: now,
                })
            }),
            old(self)@.kept_by(final(self)@),
            old(self)@.wf() ==> final(self)@.wf(),
    {
        if self.admin.is_none() {
            return Err(Error::NotInitialized);
        }
        check_text(&display_name, &metadata_uri)?;
        let prev = match self.identities.get(&owner) {
            Some(i) => i.duplicate(),
            None => return Err(Error::IdentityNotFound),
        };
        if prev.status == IdentityStatus::Revoked {
            return Err(Error::IdentityRevoked);
        }
        let identity = Identity {
            owner: prev.owner,
            display_name,
            metadata_uri,
            status: prev.status,
            registered_at: prev.registered_at,
            updated_at: now,
        };
        self.identities.insert(owner, identity);
        Ok(())
    }

    /// Moves a pending identity to `Verified`; the host requires the admin's
    /// signature.
    pub fn verify(&mut self, owner: u64, now: u64) -> (r: Result<(), Error>)
        ensures
            r == (if old(self)@.admin is None {
                Err(Error::NotInitialized)
            } else if !old(self)@.identities.contains_key(owner) {
                Err(Error::IdentityNotFound)
            } else if old(self)@.identities[owner].status != IdentityStatus::Pending {
                Err(Error::InvalidStatus)
            } else {
                Ok(())
            }),
            r is Err ==> final(self)@ == old(self)@,
            r is Ok ==> ({
                let prev = old(self)@.identities[owner];
                &&& final(self)@.admin == old(self)@.admin
                &&& final(self)@.identities == old(self)@.identities.insert(owner, final(self)@.identities[owner])
                &&& final(self)@.identities[owner].same(Identity {
                    status: IdentityStatus::Verified,
                    updated_at: now,
                    ..prev
                })
            }),
            old(self)@.kept_by(final(self)@),
            old(self)@.wf() ==> final(self)@.wf(),
    {
        if self.admin.is_none() {
            return Err(Error::NotInitialized);
        }
        let prev = match self.identities.get(&owner) {
            Some(i) => i.duplicate(),
            None => return Err(Error::IdentityNotFound),
        };
        if prev.status != IdentityStatus::Pending {
            return Err(Error::InvalidStatus);
        }
        let identity = Identity { status: IdentityStatus::Verified, updated_at: now, ..prev };
        self.identities.insert(owner, identity);
        Ok(())
    }

    /// Revokes `owner`'s identity; the admin or the owner may.
    pub fn revoke(&mut self, caller: u64, owner: u64, now: u64) -> (r: Result<(), Error>)
        ensures
            r == (match old(self)@.admin {
                None => Err(Error::NotInitialized),
                Some(a) => if caller != a && caller != owner {
                    Err(Error::Unauthorized)
                } else if !old(self)@.identities.contains_key(owner) {
                    Err(Error::IdentityNotFound)
                } else if old(self)@.revoked(owner) {
                    Err(Error::AlreadyRevoked)
                } else {
                    Ok(())
                },
            }),
            r is Err ==> final(self)@ == old(self)@,
            r is Ok ==> ({
                let prev = old(self)@.identities[owner];
                &&& final(self)@.admin == old(self)@.admin
                &&& final(self)@.identities == old(self)@.identities.insert(owner, final(self)@.identities[owner])
                &&& final(self)@.identities[owner].same(Identity {
                    status: IdentityStatus::Revoked,
                    updated_at: now,
                    ..prev
                })
            }),
            old(self)@.kept_by(final(self)@),
            old(self)@.wf() ==> final(self)@.wf(),
    {
        let admin = match self.admin {
            None => return Err(Error::NotInitialized),
            Some(a) => a,
        };
        if caller != admin && caller != owner {
            return Err(Error::Unauthorized);
        }
        let prev = match self.identities.get(&owner) {
            Some(i) => i.duplicate(),
            None => return Err(Error::IdentityNotFound),
        };
        if prev.status == IdentityStatus::Revoked {
            return Err(Error::AlreadyRevoked);
        }
        let identity = Identity { status: IdentityStatus::Revoked, updated_at: now, ..prev };
        self.identities.insert(owner, identity);
        Ok(())
    }

    /// A copy of `owner`'s identity.
    pub fn get_identity(&self, owner: u64) -> (r: Result<Identity, Error>)
        ensures
            self@.identities.contains_key(owner) <==> r is Ok,
            r is Err ==> r == Err::<Identity, Error>(Error::IdentityNotFound),
            r matches Ok(i) ==> i.same(self@.identities[owner]),
    {
        match self.identities.get(&owner) {
            Some(i) => Ok(i.duplicate()),
            None => Err(Error::IdentityNotFound),
        }
    }

    pub fn has_identity(&self, owner: u64) -> (r: bool)
        ensures
            r == self@.identities.contains_key(owner),
    {
        self.identities.contains_key(&owner)
    }

    pub fn is_verified(&self, owner: u64) -> (r: Result<bool, Error>)
        ensures
            r == (if self@.identities.contains_key(owner) {
                Ok(self@.identities[owner].status == IdentityStatus::Verified)
            } else {
                Err(Error::IdentityNotFound)
            }),
    {
        match self.identities.get(&owner) {
            Some(i) => Ok(i.status == IdentityStatus::Verified),
            None => Err(Error::IdentityNotFound),
        }
    }

    pub fn is_initialized(&self) -> (r: bool)
        ensures
            r == self@.admin is Some,
    {
        self.admin.is_some()
    }

    pub fn get_admin(&self) -> (r: Result<u64, Error>)
        ensures
            r == (match self@.admin { None => Err(Error::NotInitialized), Some(a) => Ok(a) }),
    {
        match self.admin {
            None => Err(Error::NotInitialized),
            Some(a) => Ok(a),
        }
    }
}

} // verus!
