use vstd::prelude::*;

use crate::types::{AccountId, Balance};

verus! {

/// The error type of the chain's payment primitive.
#[verifier::external_type_specification]
#[verifier::external_body]
pub struct ExInkEnvError(ink::env::Error);

/// Relies on ink::env::balance: returns the balance of the executed
/// contract. The value depends on the chain state, so nothing is promised
/// of it; callers state what holds whatever comes back.
#[verifier::external_body]
pub(crate) fn chain_balance() -> Balance {
    ink::env::balance::<ink::env::DefaultEnvironment>()
}

/// Relies on ink::env::transfer: moves `value` from the contract's balance
/// to the given account, and fails if the contract's free funds do not
/// cover it. Whether it succeeds depends on the chain state, so nothing is
/// promised of the outcome; callers handle both.
#[verifier::external_body]
pub(crate) fn chain_transfer(destination: AccountId, value: Balance) -> Result<
    (),
    ink::env::Error,
> {
    let mut raw = [0u8; 32];
    raw[..8].copy_from_slice(&destination.to_le_bytes());
    ink::env::transfer::<ink::env::DefaultEnvironment>(ink::primitives::AccountId::from(raw), value)
}

} // verus!
