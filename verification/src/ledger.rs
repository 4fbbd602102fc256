//! The property ledger: registration, share purchase, owner-gated updates,
//! and read accessors, over an instance-scoped pair of entity stores.

use vstd::prelude::*;
use crate::share_sum::{
    lemma_member_le_shares_in, lemma_shares_in_absent, lemma_shares_in_push,
    lemma_shares_in_update, shares_in,
};
use crate::types::{Address, Error, Property, PropertyStatus, ShareOwnership};

verus! {

/// Whether `o` is the ownership record filed under `(pid, holder)`.
pub open spec fn is_record(o: ShareOwnership, pid: u64, holder: Address) -> bool {
    o.property_id == pid && o.owner == holder
}

/// The ledger instance. Property identifiers are allocated densely starting
/// at 1, so the record for property `pid` sits at index `pid - 1` and the
/// allocator's counter equals the number of registered properties.
pub struct TokenizedPropertyContract {
    pub properties: Vec<Property>,
    pub ownerships: Vec<ShareOwnership>,
}

impl TokenizedPropertyContract {
    /// Number of properties registered so far; also the last identifier
    /// handed out.
    pub open spec fn spec_property_count(self) -> int {
        self.properties@.len() as int
    }

    /// Whether a property exists under identifier `pid`.
    pub open spec fn has_property(self, pid: u64) -> bool {
        1 <= pid <= self.properties@.len()
    }

    /// The property record filed under `pid`.
    pub open spec fn property(self, pid: u64) -> Property {
        self.properties@[pid as int - 1]
    }

    /// Whether an ownership record exists under `(pid, holder)`.
    pub open spec fn has_record(self, pid: u64, holder: Address) -> bool {
        exists|i: int|
            0 <= i < self.ownerships@.len() && is_record(#[trigger] self.ownerships@[i], pid, holder)
    }

    /// The ownership record filed under `(pid, holder)`.
    pub open spec fn record(self, pid: u64, holder: Address) -> ShareOwnership {
        self.ownerships@[choose|i: int|
            0 <= i < self.ownerships@.len() && is_record(#[trigger] self.ownerships@[i], pid, holder)]
    }

    /// Shares `holder` has accumulated in `pid`; zero without a record.
    pub open spec fn shares_of(self, pid: u64, holder: Address) -> int {
        if self.has_record(pid, holder) {
            self.record(pid, holder).shares as int
        } else {
            0
        }
    }

    /// Ledger validity: identifiers are dense from 1, every property record
    /// is well formed, every ownership record points at a registered
    /// property, no two records share a key, and for each property the
    /// available shares plus all held shares equal the fixed total.
    pub open spec fn wf(self) -> bool {
        &&& forall|i: int|
            0 <= i < self.properties@.len() ==> (#[trigger] self.properties@[i]).property_id == i
                + 1
        &&& forall|i: int| 0 <= i < self.properties@.len() ==> (#[trigger] self.properties@[i]).wf()
        &&& forall|i: int|
            0 <= i < self.ownerships@.len() ==> 1 <= (#[trigger] self.ownerships@[i]).property_id
                <= self.properties@.len()
        &&& forall|i: int, j: int|
            0 <= i < j < self.ownerships@.len() ==> !(is_record(
                #[trigger] self.ownerships@[i],
                self.ownerships@[j].property_id,
                #[trigger] self.ownerships@[j].owner,
            ))
        &&& forall|i: int|
            0 <= i < self.properties@.len() ==> (#[trigger] self.properties@[i]).available_shares
                + shares_in(self.ownerships@, self.properties@[i].property_id)
                == self.properties@[i].total_shares
    }

    /// A record found at some index is the record `record` denotes: keys are
    /// unique, so `choose` can pick no other.
    pub proof fn lemma_record_at(self, pid: u64, holder: Address, i: int)
        requires
            self.wf(),
            0 <= i < self.ownerships@.len(),
            is_record(self.ownerships@[i], pid, holder),
        ensures
            self.has_record(pid, holder),
            self.record(pid, holder) == self.ownerships@[i],
    {
        let j = choose|j: int|
            0 <= j < self.ownerships@.len() && is_record(#[trigger] self.ownerships@[j], pid, holder);
        if i != j {
            if i < j {
                assert(!is_record(
                    self.ownerships@[i],
                    self.ownerships@[j].property_id,
                    self.ownerships@[j].owner,
                ));
            } else {
                assert(!is_record(
                    self.ownerships@[j],
                    self.ownerships@[i].property_id,
                    self.ownerships@[i].owner,
                ));
            }
        }
    }

    /// Share conservation: for every registered property, the shares still
    /// available plus the shares held across all ownership records equal the
    /// property's fixed total.
    pub proof fn lemma_share_conservation(self, pid: u64)
        requires
            self.wf(),
            self.has_property(pid),
        ensures
            self.property(pid).available_shares + shares_in(self.ownerships@, pid)
                == self.property(pid).total_shares,
    {
        assert(self.properties@[pid as int - 1].property_id == pid);
    }

    /// A fresh ledger with no properties and no ownership records; the first
    /// registration will hand out identifier 1.
    pub fn new() -> (r: Self)
        ensures
            r.wf(),
            r.spec_property_count() == 0,
            r.ownerships@.len() == 0,
    {
        TokenizedPropertyContract { properties: Vec::new(), ownerships: Vec::new() }
    }

    /// Executable count of registered properties.
    pub fn property_count(&self) -> (n: u64)
        ensures
            n == self.spec_property_count(),
    {
        self.properties.len() as u64
    }

    /// Register a new property divided into `total_shares` shares priced at
    /// `price_per_share`, on behalf of the authenticated `owner`. Fails with
    /// `InvalidArgument` exactly when `total_shares` is zero; otherwise hands
    /// out the next identifier in sequence, files the new property with its
    /// whole supply available and status `Active`, and files the owner's
    /// placeholder ownership record of zero shares.
    pub fn register_property(
        &mut self,
        owner: Address,
        title: String,
        description: String,
        location: String,
        total_shares: u64,
        price_per_share: u64,
        now: u64,
    ) -> (r: Result<u64, Error>)
        requires
            old(self).wf(),
            old(self).spec_property_count() < u64::MAX,
        ensures
            final(self).wf(),
            total_shares == 0 ==> r == Err::<u64, Error>(Error::InvalidArgument) && *final(self)
                == *old(self),
            total_shares > 0 ==> ({
                let id = (old(self).spec_property_count() + 1) as u64;
                &&& r == Ok::<u64, Error>(id)
                &&& final(self).spec_property_count() == old(self).spec_property_count() + 1
                &&& final(self).has_property(id)
                &&& final(self).property(id) == (Property {
                    property_id: id,
                    owner,
                    title,
                    description,
                    location,
                    total_shares,
                    available_shares: total_shares,
                    price_per_share,
                    status: PropertyStatus::Active,
                    registration_time: now,
                })
                &&& forall|p: u64|
                    #[trigger] old(self).has_property(p) ==> final(self).has_property(p)
                        && final(self).property(p) == old(self).property(p)
                &&& final(self).has_record(id, owner)
                &&& final(self).record(id, owner) == (ShareOwnership {
                    owner,
                    property_id: id,
                    shares: 0,
                    acquisition_time: now,
                })
                &&& forall|p: u64, h: Address|
                    #[trigger] old(self).has_record(p, h) ==> final(self).has_record(p, h)
                        && final(self).record(p, h) == old(self).record(p, h)
                &&& forall|p: u64, h: Address|
                    #[trigger] final(self).has_record(p, h) ==> old(self).has_record(p, h) || (p
                        == id && h == owner)
            }),
    {
        if total_shares == 0 {
            return Err(Error::InvalidArgument);
        }
        let property_count: u64 = self.properties.len() as u64;
        let id: u64 = property_count + 1;
        let property = Property {
            property_id: id,
            owner,
            title,
            description,
            location,
            total_shares,
            available_shares: total_shares,
            price_per_share,
            status: PropertyStatus::Active,
            registration_time: now,
        };
        self.properties.push(property);
        let ownership = ShareOwnership { owner, property_id: id, shares: 0, acquisition_time: now };
        self.ownerships.push(ownership);
        proof {
            let oprops = old(self).properties@;
            let oowns = old(self).ownerships@;
            let props = self.properties@;
            let owns = self.ownerships@;
            assert forall|i: int|
                0 <= i < props.len() implies (#[trigger] props[i]).available_shares + shares_in(
                owns,
                props[i].property_id,
            ) == props[i].total_shares by {
                lemma_shares_in_push(oowns, props[i].property_id, ownership);
                if i < oprops.len() {
                    assert(props[i] == oprops[i]);
                    assert(oprops[i].property_id == i + 1);
                } else {
                    assert(forall|j: int|
                        0 <= j < oowns.len() ==> (#[trigger] oowns[j]).property_id != id);
                    lemma_shares_in_absent(oowns, id);
                }
            }
            assert forall|i: int, j: int|
                0 <= i < j < owns.len() implies !(is_record(
                #[trigger] owns[i],
                owns[j].property_id,
                #[trigger] owns[j].owner,
            )) by {
                if j < oowns.len() {
                    assert(owns[i] == oowns[i] && owns[j] == oowns[j]);
                } else {
                    assert(owns[j] == ownership);
                    assert(owns[i] == oowns[i]);
                    assert(oowns[i].property_id <= oprops.len());
                }
            }
            assert(self.wf());
            self.lemma_record_at(id, owner, oowns.len() as int);
            assert forall|p: u64, h: Address|
                #[trigger] old(self).has_record(p, h) implies self.has_record(p, h)
                && self.record(p, h) == old(self).record(p, h) by {
                let i = choose|i: int|
                    0 <= i < oowns.len() && is_record(#[trigger] oowns[i], p, h);
                assert(owns[i] == oowns[i]);
                self.lemma_record_at(p, h, i);
                old(self).lemma_record_at(p, h, i);
            }
            assert forall|p: u64, h: Address|
                #[trigger] self.has_record(p, h) implies old(self).has_record(p, h) || (p == id
                && h == owner) by {
                let i = choose|i: int|
                    0 <= i < owns.len() && is_record(#[trigger] owns[i], p, h);
                if i < oowns.len() {
                    assert(is_record(oowns[i], p, h));
                } else {
                    assert(owns[i] == ownership);
                }
            }
        }
        Ok(id)
    }

    /// Purchase `shares_to_buy` shares of a property on behalf of the
    /// authenticated `buyer`, and return the informational total price
    /// (`price_per_share * shares_to_buy`; no value is transferred here).
    /// Fails with `NotFound` when no property exists under `property_id`,
    /// with `InvalidState` when its status forbids purchases, and with
    /// `InsufficientSupply` when fewer shares remain than asked for; on
    /// success the available supply shrinks and the buyer's holding grows by
    /// exactly `shares_to_buy`, with the holding's acquisition time set to
    /// `now`. A purchase of zero shares succeeds as a no-op and returns 0.
    pub fn purchase_shares(
        &mut self,
        buyer: Address,
        property_id: u64,
        shares_to_buy: u64,
        now: u64,
    ) -> (r: Result<u64, Error>)
        requires
            old(self).wf(),
            old(self).has_property(property_id) && old(self).property(
                property_id,
            ).status.spec_purchasable() && shares_to_buy <= old(self).property(
                property_id,
            ).available_shares ==> old(self).property(property_id).price_per_share * shares_to_buy
                <= u64::MAX,
        ensures
            final(self).wf(),
            !old(self).has_property(property_id) ==> r == Err::<u64, Error>(Error::NotFound)
                && *final(self) == *old(self),
            old(self).has_property(property_id) && !old(self).property(
                property_id,
            ).status.spec_purchasable() ==> r == Err::<u64, Error>(Error::InvalidState)
                && *final(self) == *old(self),
            old(self).has_property(property_id) && old(self).property(
                property_id,
            ).status.spec_purchasable() && shares_to_buy > old(self).property(
                property_id,
            ).available_shares ==> r == Err::<u64, Error>(Error::InsufficientSupply) && *final(self)
                == *old(self),
            old(self).has_property(property_id) && old(self).property(
                property_id,
            ).status.spec_purchasable() && shares_to_buy <= old(self).property(
                property_id,
            ).available_shares ==> ({
                let oldp = old(self).property(property_id);
                &&& r == Ok::<u64, Error>((oldp.price_per_share * shares_to_buy) as u64)
                &&& final(self).spec_property_count() == old(self).spec_property_count()
                &&& final(self).has_property(property_id)
                &&& final(self).property(property_id) == (Property {
                    property_id: oldp.property_id,
                    owner: oldp.owner,
                    title: oldp.title,
                    description: oldp.description,
                    location: oldp.location,
                    total_shares: oldp.total_shares,
                    available_shares: (oldp.available_shares - shares_to_buy) as u64,
                    price_per_share: oldp.price_per_share,
                    status: oldp.status,
                    registration_time: oldp.registration_time,
                })
                &&& forall|p: u64|
                    #[trigger] old(self).has_property(p) && p != property_id ==> final(self)
                        .property(p) == old(self).property(p)
                &&& final(self).has_record(property_id, buyer)
                &&& final(self).record(property_id, buyer) == (ShareOwnership {
                    owner: buyer,
                    property_id,
                    shares: (old(self).shares_of(property_id, buyer) + shares_to_buy) as u64,
                    acquisition_time: now,
                })
                &&& forall|p: u64, h: Address|
                    !(p == property_id && h == buyer) ==> (#[trigger] final(self).has_record(p, h)
                        <==> old(self).has_record(p, h))
                &&& forall|p: u64, h: Address|
                    #[trigger] old(self).has_record(p, h) && !(p == property_id && h == buyer)
                        ==> final(self).record(p, h) == old(self).record(p, h)
            }),
    {
        if property_id < 1 || property_id > self.properties.len() as u64 {
            return Err(Error::NotFound);
        }
        let idx: usize = (property_id - 1) as usize;
        if !self.properties[idx].status.purchasable() {
            return Err(Error::InvalidState);
        }
        if shares_to_buy > self.properties[idx].available_shares {
            return Err(Error::InsufficientSupply);
        }
        let total_price = self.properties[idx].price_per_share * shares_to_buy;
        let found = self.find_record(property_id, buyer);
        let mut updated = self.properties[idx].duplicate();
        updated.available_shares = updated.available_shares - shares_to_buy;
        self.properties[idx] = updated;
        proof {
            assert(self.ownerships@ =~= old(self).ownerships@);
        }
        match found {
            Some(i) => {
                proof {
                    old(self).lemma_share_conservation(property_id);
                    lemma_member_le_shares_in(old(self).ownerships@, property_id, i as int);
                }
                let mut o = self.ownerships[i];
                o.shares = o.shares + shares_to_buy;
                o.acquisition_time = now;
                self.ownerships[i] = o;
                proof {
                    let pre = *old(self);
                    let oowns = pre.ownerships@;
                    let owns = self.ownerships@;
                    let props = self.properties@;
                    let oprops = pre.properties@;
                    assert(o.property_id == oowns[i as int].property_id && o.owner == oowns[
                        i as int].owner);
                    assert forall|a: int, b: int|
                        0 <= a < b < owns.len() implies !(is_record(
                        #[trigger] owns[a],
                        owns[b].property_id,
                        #[trigger] owns[b].owner,
                    )) by {
                        assert(!is_record(oowns[a], oowns[b].property_id, oowns[b].owner));
                    }
                    assert forall|k: int|
                        0 <= k < props.len() implies (#[trigger] props[k]).available_shares
                        + shares_in(owns, props[k].property_id) == props[k].total_shares by {
                        lemma_shares_in_update(oowns, props[k].property_id, i as int, o);
                        if k != property_id - 1 {
                            assert(props[k] == oprops[k]);
                            assert(oprops[k].property_id == k + 1);
                        }
                    }
                    assert(self.wf());
                    self.lemma_record_at(property_id, buyer, i as int);
                    assert forall|p: u64, h: Address|
                        #[trigger] pre.has_record(p, h) && !(p == property_id && h == buyer)
                        implies self.has_record(p, h) && self.record(p, h) == pre.record(
                        p,
                        h,
                    ) by {
                        let j = choose|j: int|
                            0 <= j < oowns.len() && is_record(#[trigger] oowns[j], p, h);
                        assert(owns[j] == oowns[j]);
                        self.lemma_record_at(p, h, j);
                        pre.lemma_record_at(p, h, j);
                    }
                    assert forall|p: u64, h: Address|
                        #[trigger] self.has_record(p, h) && !(p == property_id && h == buyer)
                        implies pre.has_record(p, h) by {
                        let j = choose|j: int|
                            0 <= j < owns.len() && is_record(#[trigger] owns[j], p, h);
                        assert(j != i as int);
                        assert(is_record(oowns[j], p, h));
                    }
                }
            },
            None => {
                let o = ShareOwnership {
                    owner: buyer,
                    property_id,
                    shares: shares_to_buy,
                    acquisition_time: now,
                };
                self.ownerships.push(o);
                proof {
                    let pre = *old(self);
                    let oowns = pre.ownerships@;
                    let owns = self.ownerships@;
                    let props = self.properties@;
                    let oprops = pre.properties@;
                    assert forall|a: int, b: int|
                        0 <= a < b < owns.len() implies !(is_record(
                        #[trigger] owns[a],
                        owns[b].property_id,
                        #[trigger] owns[b].owner,
                    )) by {
                        if b < oowns.len() {
                            assert(!is_record(oowns[a], oowns[b].property_id, oowns[b].owner));
                        } else {
                            assert(owns[b] == o);
                            if is_record(oowns[a], property_id, buyer) {
                                assert(pre.has_record(property_id, buyer));
                            }
                        }
                    }
                    assert forall|k: int|
                        0 <= k < props.len() implies (#[trigger] props[k]).available_shares
                        + shares_in(owns, props[k].property_id) == props[k].total_shares by {
                        lemma_shares_in_push(oowns, props[k].property_id, o);
                        if k != property_id - 1 {
                            assert(props[k] == oprops[k]);
                            assert(oprops[k].property_id == k + 1);
                        }
                    }
                    assert(self.wf());
                    self.lemma_record_at(property_id, buyer, oowns.len() as int);
                    assert forall|p: u64, h: Address|
                        #[trigger] pre.has_record(p, h) && !(p == property_id && h == buyer)
                        implies self.has_record(p, h) && self.record(p, h) == pre.record(
                        p,
                        h,
                    ) by {
                        let j = choose|j: int|
                            0 <= j < oowns.len() && is_record(#[trigger] oowns[j], p, h);
                        assert(owns[j] == oowns[j]);
                        self.lemma_record_at(p, h, j);
                        pre.lemma_record_at(p, h, j);
                    }
                    assert forall|p: u64, h: Address|
                        #[trigger] self.has_record(p, h) && !(p == property_id && h == buyer)
                        implies pre.has_record(p, h) by {
                        let j = choose|j: int|
                            0 <= j < owns.len() && is_record(#[trigger] owns[j], p, h);
                        assert(j < oowns.len());
                        assert(is_record(oowns[j], p, h));
                    }
                }
            },
        }
        Ok(total_price)
    }

    /// Overwrite a property's status, any transition being legal. Fails with
    /// `NotFound` when no property exists under `property_id` and with
    /// `Unauthorized` when the authenticated caller is not the registered
    /// owner; otherwise succeeds unconditionally and changes nothing else.
    pub fn update_property_status(
        &mut self,
        owner: Address,
        property_id: u64,
        new_status: PropertyStatus,
    ) -> (r: Result<(), Error>)
        requires
            old(self).wf(),
        ensures
            final(self).wf(),
            !old(self).has_property(property_id) ==> r == Err::<(), Error>(Error::NotFound)
                && *final(self) == *old(self),
            old(self).has_property(property_id) && old(self).property(property_id).owner != owner
                ==> r == Err::<(), Error>(Error::Unauthorized) && *final(self) == *old(self),
            old(self).has_property(property_id) && old(self).property(property_id).owner == owner
                ==> ({
                let oldp = old(self).property(property_id);
                &&& r == Ok::<(), Error>(())
                &&& final(self).ownerships@ == old(self).ownerships@
                &&& final(self).spec_property_count() == old(self).spec_property_count()
                &&& final(self).property(property_id) == (Property {
                    property_id: oldp.property_id,
                    owner: oldp.owner,
                    title: oldp.title,
                    description: oldp.description,
                    location: oldp.location,
                    total_shares: oldp.total_shares,
                    available_shares: oldp.available_shares,
                    price_per_share: oldp.price_per_share,
                    status: new_status,
                    registration_time: oldp.registration_time,
                })
                &&& forall|p: u64|
                    #[trigger] old(self).has_property(p) && p != property_id ==> final(self)
                        .property(p) == old(self).property(p)
            }),
    {
        if property_id < 1 || property_id > self.properties.len() as u64 {
            return Err(Error::NotFound);
        }
        let idx: usize = (property_id - 1) as usize;
        if self.properties[idx].owner != owner {
            return Err(Error::Unauthorized);
        }
        let mut updated = self.properties[idx].duplicate();
        updated.status = new_status;
        self.properties[idx] = updated;
        proof {
            let props = self.properties@;
            let oprops = old(self).properties@;
            assert forall|k: int|
                0 <= k < props.len() implies (#[trigger] props[k]).available_shares + shares_in(
                self.ownerships@,
                props[k].property_id,
            ) == props[k].total_shares by {
                if k != property_id - 1 {
                    assert(props[k] == oprops[k]);
                }
            }
        }
        Ok(())
    }

    /// Overwrite a property's price per share, zero included (no floor is
    /// enforced). Fails with `NotFound` when no property exists under
    /// `property_id` and with `Unauthorized` when the authenticated caller
    /// is not the registered owner; otherwise succeeds unconditionally and
    /// changes nothing else.
    pub fn update_price(&mut self, owner: Address, property_id: u64, new_price: u64) -> (r: Result<
        (),
        Error,
    >)
        requires
            old(self).wf(),
        ensures
            final(self).wf(),
            !old(self).has_property(property_id) ==> r == Err::<(), Error>(Error::NotFound)
                && *final(self) == *old(self),
            old(self).has_property(property_id) && old(self).property(property_id).owner != owner
                ==> r == Err::<(), Error>(Error::Unauthorized) && *final(self) == *old(self),
            old(self).has_property(property_id) && old(self).property(property_id).owner == owner
                ==> ({
                let oldp = old(self).property(property_id);
                &&& r == Ok::<(), Error>(())
                &&& final(self).ownerships@ == old(self).ownerships@
                &&& final(self).spec_property_count() == old(self).spec_property_count()
                &&& final(self).property(property_id) == (Property {
                    property_id: oldp.property_id,
                    owner: oldp.owner,
                    title: oldp.title,
                    description: oldp.description,
                    location: oldp.location,
                    total_shares: oldp.total_shares,
                    available_shares: oldp.available_shares,
                    price_per_share: new_price,
                    status: oldp.status,
                    registration_time: oldp.registration_time,
                })
                &&& forall|p: u64|
                    #[trigger] old(self).has_property(p) && p != property_id ==> final(self)
                        .property(p) == old(self).property(p)
            }),
    {
        if property_id < 1 || property_id > self.properties.len() as u64 {
            return Err(Error::NotFound);
        }
        let idx: usize = (property_id - 1) as usize;
        if self.properties[idx].owner != owner {
            return Err(Error::Unauthorized);
        }
        let mut updated = self.properties[idx].duplicate();
        updated.price_per_share = new_price;
        self.properties[idx] = updated;
        proof {
            let props = self.properties@;
            let oprops = old(self).properties@;
            assert forall|k: int|
                0 <= k < props.len() implies (#[trigger] props[k]).available_shares + shares_in(
                self.ownerships@,
                props[k].property_id,
            ) == props[k].total_shares by {
                if k != property_id - 1 {
                    assert(props[k] == oprops[k]);
                }
            }
        }
        Ok(())
    }

    /// Read a property record; `NotFound` exactly when no property exists
    /// under `property_id`.
    pub fn get_property(&self, property_id: u64) -> (r: Result<Property, Error>)
        ensures
            match r {
                Ok(p) => self.has_property(property_id) && p == self.property(property_id),
                Err(e) => e == Error::NotFound && !self.has_property(property_id),
            },
    {
        if property_id < 1 || property_id > self.properties.len() as u64 {
            return Err(Error::NotFound);
        }
        let idx: usize = (property_id - 1) as usize;
        Ok(self.properties[idx].duplicate())
    }

    /// Index of the ownership record under `(property_id, holder)`, if any.
    fn find_record(&self, property_id: u64, holder: Address) -> (r: Option<usize>)
        requires
            self.wf(),
        ensures
            match r {
                Some(i) => {
                    &&& i < self.ownerships@.len()
                    &&& is_record(self.ownerships@[i as int], property_id, holder)
                    &&& self.has_record(property_id, holder)
                    &&& self.record(property_id, holder) == self.ownerships@[i as int]
                },
                None => !self.has_record(property_id, holder),
            },
    {
        let n = self.ownerships.len();
        let mut i: usize = 0;
        while i < n
            invariant
                n == self.ownerships@.len(),
                i <= n,
                self.wf(),
                forall|j: int|
                    0 <= j < i ==> !is_record(#[trigger] self.ownerships@[j], property_id, holder),
            decreases n - i,
        {
            if self.ownerships[i].property_id == property_id && self.ownerships[i].owner == holder {
                proof {
                    self.lemma_record_at(property_id, holder, i as int);
                }
                return Some(i);
            }
            i = i + 1;
        }
        None
    }

    /// Read a holder's position in a property. A holder with no record gets
    /// the synthetic empty holding: zero shares, acquisition time zero.
    pub fn get_ownership(&self, property_id: u64, owner: Address) -> (r: ShareOwnership)
        requires
            self.wf(),
        ensures
            self.has_record(property_id, owner) ==> r == self.record(property_id, owner),
            !self.has_record(property_id, owner) ==> r == (ShareOwnership {
                owner,
                property_id,
                shares: 0,
                acquisition_time: 0,
            }),
            r.shares == self.shares_of(property_id, owner),
            r.owner == owner,
            r.property_id == property_id,
    {
        match self.find_record(property_id, owner) {
            Some(i) => self.ownerships[i],
            None => ShareOwnership { owner, property_id, shares: 0, acquisition_time: 0 },
        }
    }
}

} // verus!
