//! The error taxonomy of the core: validation failures are returned to the
//! caller with no state mutated, a missing record means the operation was
//! already resolved elsewhere, and an overflow aborts a ledger batch with
//! nothing applied.

use vstd::prelude::*;

verus! {

#[derive(Debug, Clone, Copy, PartialEq, Eq, Structural)]
pub enum CoreError {
    /// A game was created with a bet of zero or less.
    NonPositiveBet,
    /// The member's balance does not cover the buy-in.
    InsufficientBalance,
    /// A member tried to send currency to themselves.
    SelfSend,
    /// A currency transfer was requested for a non-positive amount.
    NonPositiveAmount,
    /// A member already in the game tried to join again below the
    /// rejoin threshold.
    RejoinBelowMinimum,
    /// A member tried to join a game they are already in.
    AlreadyJoined,
    /// A component custom id names an interaction kind the core does not
    /// know.
    UnknownInteraction,
    /// The referenced game or job no longer exists.
    NotFound,
    /// A ledger batch would push an account offset outside the
    /// representable range; the batch was not applied.
    Overflow,
}

impl CoreError {
    /// True for the errors that reject an input without mutating state.
    pub open spec fn spec_is_validation(self) -> bool {
        match self {
            CoreError::NonPositiveBet => true,
            CoreError::InsufficientBalance => true,
            CoreError::SelfSend => true,
            CoreError::NonPositiveAmount => true,
            CoreError::RejoinBelowMinimum => true,
            CoreError::AlreadyJoined => true,
            CoreError::UnknownInteraction => true,
            CoreError::NotFound => false,
            CoreError::Overflow => false,
        }
    }

    pub fn is_validation(&self) -> (r: bool)
        ensures
            r == self.spec_is_validation(),
    {
        match self {
            CoreError::NonPositiveBet => true,
            CoreError::InsufficientBalance => true,
            CoreError::SelfSend => true,
            CoreError::NonPositiveAmount => true,
            CoreError::RejoinBelowMinimum => true,
            CoreError::AlreadyJoined => true,
            CoreError::UnknownInteraction => true,
            CoreError::NotFound => false,
            CoreError::Overflow => false,
        }
    }
}

} // verus!
