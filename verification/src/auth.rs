//! The data shapes of the authentication flow: the callback's query, the
//! signed-in user, and the credentials and session values the flow carries.
//! The protocol itself (token exchange, cookies) is the surrounding
//! program's business.

use vstd::prelude::*;

verus! {

/// Query parameters of the authorization callback.
pub struct AuthRequest {
    pub code: String,
    pub state: String,
}

/// The signed-in user a session carries.
pub struct User {
    pub email: String,
    pub sub: String,
}

impl User {
    /// A field-for-field copy.
    pub fn duplicate(&self) -> (r: User)
        ensures
            r == *self,
    {
        User { email: self.email.clone(), sub: self.sub.clone() }
    }
}

/// The answer to an unauthenticated request: a redirect to the
/// authorization endpoint.
pub struct AuthRedirect;

/// Credentials presented at login.
pub struct LoginCredentials {
    pub email: String,
    pub password: String,
}

/// What the identity provider reports of a user.
pub struct UserInfo {
    pub user_id: String,
}

} // verus!
