//! A trustless two-party atomic-swap escrow.
//!
//! A maker locks an amount of asset A in a per-offer custody vault and names
//! the amount of asset B wanted in return, together with an expiry deadline.
//! A taker may accept the offer by paying the wanted amount of B, atomically
//! receiving the custodied A; the maker (or, after expiry, anyone) may cancel
//! an open offer, returning the custodied A to the maker.
//!
//! The ledger of fungible balances is modelled as an ownership-tagged keyed
//! store ([`ledger::Ledger`]); the escrow state ([`escrow::Escrow`]) binds
//! every open offer to its vault account. The verified contracts state, for
//! every operation, exactly which inputs succeed, which error each rejected
//! input produces, and how the balance map and the offer map change; the
//! well-formedness invariant guarantees that each open offer's vault holds
//! exactly the offered amount and that the total supply is conserved.

pub mod errors;
pub mod ledger;
pub mod state;
pub mod escrow;
pub mod make_offer;
pub mod take_offer;
pub mod cancel_offer;
pub mod laws;
