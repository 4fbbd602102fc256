//! Property ledger: fractional ownership of registered properties.
//!
//! Properties are registered with a fixed number of shares, and participants
//! purchase shares while supply lasts. The ledger keeps one record per
//! property and one record per (property, holder) pair, and maintains the
//! conservation law: for every property, the shares still available plus the
//! shares held across all ownership records equal the property's total.

pub mod ledger;
pub mod share_sum;
pub mod types;
