//! The error taxonomy of the escrow.
//!
//! Every failure of `make_offer`, `take_offer` or `cancel_offer` is surfaced
//! to the caller as one of these variants; none is recovered internally, and
//! a failed operation leaves the escrow state untouched.

use vstd::prelude::*;

verus! {

/// The reasons an escrow operation can fail.
#[derive(Clone, Copy, Debug, PartialEq, Eq, Structural)]
pub enum SwapError {
    /// The offer's deadline has passed, so it can no longer be accepted.
    OfferExpired,
    /// Before expiry only the maker of an offer may cancel it.
    UnauthorizedCancel,
    /// The expiry deadline must be at least one hour from now.
    ExpiryTooSoon,
    /// Both the offered and the wanted amount must be greater than zero.
    InvalidAmounts,
    /// The funding account cannot cover the requested amount.
    InsufficientBalance,
    /// The offer does not exist (never created, or already settled).
    NotFound,
}

impl SwapError {
    /// A human-readable description of the error.
    pub fn message(&self) -> (r: &'static str)
    {
        match self {
            SwapError::OfferExpired => "This offer has expired and can no longer be accepted.",
            SwapError::UnauthorizedCancel => "Only the maker of the offer can cancel it before expiry.",
            SwapError::ExpiryTooSoon => "Expiry time must be at least 1 hour from now.",
            SwapError::InvalidAmounts => "Invalid token amounts. Both offered and wanted amounts must be greater than 0.",
            SwapError::InsufficientBalance => "Insufficient balance to complete the offer.",
            SwapError::NotFound => "The offer was not found. It may already have been accepted or cancelled.",
        }
    }
}

} // verus!
