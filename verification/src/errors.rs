//! The failure taxonomy of the authentication and authorization layer.

use vstd::prelude::*;

verus! {

/// How a request can fail the authentication or authorization checks.
///
/// A missing credential is only an error on a protected route; a broken,
/// forged or expired credential is always fatal to the request; a valid
/// credential without the required permission fails only the route that
/// demanded it.
#[derive(Clone, Copy, Debug, PartialEq, Eq, Structural)]
pub enum AuthError {
    /// No token was presented where one was required.
    MissingCredential,
    /// The token is structurally malformed, its signature does not verify,
    /// or it has expired. The three cases are deliberately not distinguished.
    InvalidCredential,
    /// The token is valid but its permission set lacks the required entry.
    InsufficientPermission,
}

impl AuthError {
    /// The HTTP status equivalent: authentication failures map to 401,
    /// authorization failures to 403.
    pub fn status_code(&self) -> (code: u16)
        ensures
            code == self.spec_status_code(),
    {
        match self {
            AuthError::MissingCredential => 401,
            AuthError::InvalidCredential => 401,
            AuthError::InsufficientPermission => 403,
        }
    }

    /// The status promised by [`AuthError::status_code`].
    pub open spec fn spec_status_code(self) -> u16 {
        match self {
            AuthError::MissingCredential => 401,
            AuthError::InvalidCredential => 401,
            AuthError::InsufficientPermission => 403,
        }
    }
}

} // verus!
