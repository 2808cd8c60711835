//! A crowdfunding ledger: campaigns, per-campaign votes, and donation
//! settlement reconciled against an external value-transfer facility.
//!
//! The ledger lives in [`state::Contract`]. Every operation is total over its
//! inputs: invalid identifiers are rejected with
//! [`state::ContractError::NotFound`] and leave the state untouched, and a
//! donation only raises a campaign's total once the external transfer has
//! been confirmed (two-phase settlement). [`codec`] gives the state a stable,
//! versioned binary form whose decoder provably inverts the encoder, and
//! [`laws`] states the guarantees that hold across whole operation
//! histories: the invariant is preserved, the campaign count tracks the
//! successful registrations, and settled totals never decrease.

pub mod codec;
pub mod laws;
pub mod state;
