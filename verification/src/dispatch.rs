//! The calling context of a dispatched call, and the error type that every
//! dispatchable call of the library reports.

use vstd::prelude::*;

verus! {

/// Who is making a call: a signed account, or the privileged root context
/// that only the host itself may use.
#[derive(Clone, Copy, Debug, PartialEq, Eq, Structural)]
pub enum Origin {
    Signed(u64),
    Root,
}

impl Origin {
    /// The signing account, when the call is signed.
    pub open spec fn signer(self) -> Option<u64> {
        match self {
            Origin::Signed(a) => Some(a),
            Origin::Root => None,
        }
    }
}

/// Why a dispatched call was rejected.
#[derive(Clone, Copy, Debug, PartialEq, Eq, Structural)]
pub enum DispatchError {
    /// The call needed a different calling context (e.g. signed, not root).
    BadOrigin,
    Identity(crate::identity::Error),
    Voting(crate::voting::Error),
    Balances(crate::balances::Error),
    Kitties(crate::kitties::Error),
}

/// Rejects any call that is not signed, handing back the signer.
pub fn ensure_signed(origin: &Origin) -> (r: Result<u64, DispatchError>)
    ensures
        match origin.signer() {
            Some(a) => r == Ok::<u64, DispatchError>(a),
            None => r == Err::<u64, DispatchError>(DispatchError::BadOrigin),
        },
{
    match origin {
        Origin::Signed(a) => Ok(*a),
        Origin::Root => Err(DispatchError::BadOrigin),
    }
}

} // verus!
