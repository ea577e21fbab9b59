//! Why an operation was refused.

use vstd::prelude::*;

verus! {

/// The caller lacks the authority that the operation asks for.
#[derive(Clone, Copy, Debug, PartialEq, Eq, Structural)]
pub enum AuthorizationError {
    /// The operation is for managers, and the caller is not one.
    NotManager,
    /// The operation is for the owner, and the caller is someone else.
    NotOwner,
}

impl AuthorizationError {
    /// The text shown to the caller.
    pub fn message(&self) -> (r: &'static str)
        ensures
            r@ == match *self {
                AuthorizationError::NotManager => "caller must be manager"@,
                AuthorizationError::NotOwner => "Endpoint can only be called by owner"@,
            },
    {
        match self {
            AuthorizationError::NotManager => "caller must be manager",
            AuthorizationError::NotOwner => "Endpoint can only be called by owner",
        }
    }
}

} // verus!
