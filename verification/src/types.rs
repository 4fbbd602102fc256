//! Core data model: participants, property records, ownership records,
//! storage keys, and the operation errors.

use vstd::prelude::*;

verus! {

/// Identity of a participant, as the host's authentication collaborator
/// names it. The ledger only compares identities for equality; callers are
/// assumed to have been authenticated by the host before an operation runs.
#[derive(Clone, Copy, PartialEq, Eq, Structural, Debug)]
pub struct Address {
    pub id: u64,
}

/// Lifecycle status of a property. Only `Active` and `ForSale` admit
/// purchases; every transition between statuses is legal for the owner.
#[derive(Clone, Copy, PartialEq, Eq, Structural, Debug)]
pub enum PropertyStatus {
    Active,
    UnderMaintenance,
    ForSale,
    Inactive,
}

impl PropertyStatus {
    /// Whether shares of a property in this status may be purchased.
    pub open spec fn spec_purchasable(self) -> bool {
        self == PropertyStatus::Active || self == PropertyStatus::ForSale
    }

    /// Executable form of `spec_purchasable`.
    pub fn purchasable(&self) -> (r: bool)
        ensures
            r == self.spec_purchasable(),
    {
        match self {
            PropertyStatus::Active => true,
            PropertyStatus::ForSale => true,
            PropertyStatus::UnderMaintenance => false,
            PropertyStatus::Inactive => false,
        }
    }
}

/// A registered property, divided into `total_shares` equal shares.
pub struct Property {
    pub property_id: u64,
    pub owner: Address,
    pub title: String,
    pub description: String,
    pub location: String,
    pub total_shares: u64,
    pub available_shares: u64,
    pub price_per_share: u64,
    pub status: PropertyStatus,
    pub registration_time: u64,
}

impl Property {
    /// Validity of a single property record: the share denominator is
    /// positive and never exceeded by the remaining supply.
    pub open spec fn wf(self) -> bool {
        &&& self.total_shares > 0
        &&& self.available_shares <= self.total_shares
    }

    /// Field-by-field copy of the record.
    pub fn duplicate(&self) -> (r: Property)
        ensures
            r == *self,
    {
        Property {
            property_id: self.property_id,
            owner: self.owner,
            title: self.title.clone(),
            description: self.description.clone(),
            location: self.location.clone(),
            total_shares: self.total_shares,
            available_shares: self.available_shares,
            price_per_share: self.price_per_share,
            status: self.status,
            registration_time: self.registration_time,
        }
    }
}

/// Accumulated holding of one participant in one property.
#[derive(Clone, Copy, PartialEq, Eq, Structural, Debug)]
pub struct ShareOwnership {
    pub owner: Address,
    pub property_id: u64,
    pub shares: u64,
    pub acquisition_time: u64,
}

/// Storage key for a property record, as a host key-value store would file
/// it: one entry per property identifier.
#[derive(Clone, Copy, PartialEq, Eq, Structural, Debug)]
pub enum PropertyRegistry {
    Property(u64),
}

/// Storage key for an ownership record: one entry per (property identifier,
/// holder) pair.
#[derive(Clone, Copy, PartialEq, Eq, Structural, Debug)]
pub enum OwnershipRegistry {
    Ownership(u64, Address),
}

/// Why an operation was refused. Every failure leaves the ledger unchanged.
#[derive(Clone, Copy, PartialEq, Eq, Structural, Debug)]
pub enum Error {
    /// Registration was asked for zero total shares.
    InvalidArgument,
    /// No property exists under the given identifier.
    NotFound,
    /// The property's status forbids purchases.
    InvalidState,
    /// More shares were asked for than remain available.
    InsufficientSupply,
    /// The caller is not the property's registered owner.
    Unauthorized,
}

} // verus!
