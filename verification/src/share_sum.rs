//! The total number of shares held across a sequence of ownership records,
//! per property, with the lemmas the ledger's operations need about it.

use vstd::prelude::*;
use crate::types::ShareOwnership;

verus! {

/// Sum of the shares held for property `pid` across the records of `s`.
pub open spec fn shares_in(s: Seq<ShareOwnership>, pid: u64) -> int
    decreases s.len(),
{
    if s.len() == 0 {
        0
    } else {
        shares_in(s.drop_last(), pid) + (if s.last().property_id == pid {
            s.last().shares as int
        } else {
            0
        })
    }
}

/// The sum is never negative.
pub proof fn lemma_shares_in_nonneg(s: Seq<ShareOwnership>, pid: u64)
    ensures
        shares_in(s, pid) >= 0,
    decreases s.len(),
{
    if s.len() > 0 {
        lemma_shares_in_nonneg(s.drop_last(), pid);
    }
}

/// Appending a record adds its shares to the sum of its own property and
/// leaves every other property's sum unchanged.
pub proof fn lemma_shares_in_push(s: Seq<ShareOwnership>, pid: u64, o: ShareOwnership)
    ensures
        shares_in(s.push(o), pid) == shares_in(s, pid) + (if o.property_id == pid {
            o.shares as int
        } else {
            0
        }),
{
    assert(s.push(o).drop_last() =~= s);
    assert(s.push(o).last() == o);
}

/// Overwriting the record at `i` shifts the sum by the difference between
/// the new and the old record, each counted only toward its own property.
pub proof fn lemma_shares_in_update(s: Seq<ShareOwnership>, pid: u64, i: int, o: ShareOwnership)
    requires
        0 <= i < s.len(),
    ensures
        shares_in(s.update(i, o), pid) == shares_in(s, pid) - (if s[i].property_id == pid {
            s[i].shares as int
        } else {
            0
        }) + (if o.property_id == pid {
            o.shares as int
        } else {
            0
        }),
    decreases s.len(),
{
    if i == s.len() - 1 {
        assert(s.update(i, o).drop_last() =~= s.drop_last());
        assert(s.update(i, o).last() == o);
    } else {
        assert(s.update(i, o).drop_last() =~= s.drop_last().update(i, o));
        assert(s.update(i, o).last() == s.last());
        lemma_shares_in_update(s.drop_last(), pid, i, o);
    }
}

/// A single record's shares never exceed its property's sum.
pub proof fn lemma_member_le_shares_in(s: Seq<ShareOwnership>, pid: u64, i: int)
    requires
        0 <= i < s.len(),
        s[i].property_id == pid,
    ensures
        s[i].shares as int <= shares_in(s, pid),
    decreases s.len(),
{
    if i == s.len() - 1 {
        lemma_shares_in_nonneg(s.drop_last(), pid);
    } else {
        lemma_member_le_shares_in(s.drop_last(), pid, i);
        assert(s.drop_last()[i] == s[i]);
    }
}

/// A property no record mentions has an empty sum.
pub proof fn lemma_shares_in_absent(s: Seq<ShareOwnership>, pid: u64)
    requires
        forall|j: int| 0 <= j < s.len() ==> (#[trigger] s[j]).property_id != pid,
    ensures
        shares_in(s, pid) == 0,
    decreases s.len(),
{
    if s.len() > 0 {
        assert(forall|j: int|
            0 <= j < s.drop_last().len() ==> (#[trigger] s.drop_last()[j]).property_id != pid);
        lemma_shares_in_absent(s.drop_last(), pid);
    }
}

} // verus!
