//! The authorization gate: a per-route requirement of one permission,
//! checked after the interceptor has run. Unauthenticated requests can
//! never satisfy it; authenticated ones pass exactly when their permission
//! set holds the required name.

use vstd::prelude::*;
use crate::errors::AuthError;
use crate::middleware::AuthUser;

verus! {

/// A route's declared requirement: the one permission a caller must hold.
/// Holding another permission grants nothing; there is no hierarchy.
#[derive(Debug)]
pub struct RouteGuard {
    pub required: String,
}

impl RouteGuard {
    /// A guard requiring the given permission name.
    pub fn new(required: String) -> (g: Self)
        ensures
            g.required@ == required@,
    {
        RouteGuard { required }
    }

    /// Admit or reject a request: no identity is an authentication
    /// failure, an identity without the required permission an
    /// authorization failure, and an identity with it passes.
    pub fn check(&self, user: Option<&AuthUser>) -> (r: Result<(), AuthError>)
        ensures
            user is None ==> r == Err::<(), AuthError>(AuthError::MissingCredential),
            user matches Some(u) ==> r == if u.permissions@.contains(self.required@) {
                Ok::<(), AuthError>(())
            } else {
                Err::<(), AuthError>(AuthError::InsufficientPermission)
            },
    {
        match user {
            None => Err(AuthError::MissingCredential),
            Some(u) => {
                if u.permissions.contains(self.required.as_str()) {
                    Ok(())
                } else {
                    Err(AuthError::InsufficientPermission)
                }
            },
        }
    }
}

} // verus!
