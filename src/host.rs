//! What the contract takes from the host chain: the calling account, the
//! deposit attached to the call, and transfers of funds.
use vstd::prelude::*;

verus! {

#[verifier::external_type_specification]
#[verifier::external_body]
pub struct ExAccountId(near_sdk::AccountId);

/// Relies on the derived `Clone` of `near_sdk::AccountId`, which copies the
/// account name it holds.
pub assume_specification[ <near_sdk::AccountId as Clone>::clone ](a: &near_sdk::AccountId) -> (r: near_sdk::AccountId)
    ensures
        r == *a,
;

/// Relies on near_sdk::env::predecessor_account_id: the account that invoked
/// the current call. It depends on the call, so nothing is promised of it.
#[verifier::external_body]
pub(crate) fn predecessor_account_id() -> (r: near_sdk::AccountId) {
    near_sdk::env::predecessor_account_id()
}

/// Relies on near_sdk::env::attached_deposit and NearToken::as_yoctonear: the
/// deposit attached to the current call, in yoctoNEAR. It depends on the call,
/// so nothing is promised of it.
#[verifier::external_body]
pub(crate) fn attached_deposit() -> (r: u128) {
    near_sdk::env::attached_deposit().as_yoctonear()
}

/// Relies on near_sdk::Promise::transfer: schedules a transfer of `amount`
/// yoctoNEAR to `receiver`, which settles after the current call; nothing of
/// it is observed here.
#[verifier::external_body]
pub(crate) fn transfer(receiver: near_sdk::AccountId, amount: u128) {
    let _ = near_sdk::Promise::new(receiver).transfer(near_sdk::NearToken::from_yoctonear(amount));
}

} // verus!
