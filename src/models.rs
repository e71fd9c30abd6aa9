//! Records of the user store.

use vstd::prelude::*;

verus! {

/// A user in the database.
pub struct User {
    /// Unique ID.
    pub id: i32,
    /// Username used for logging in.
    pub username: String,
    /// Password hash checked on login.
    pub password: String,
    /// Domain or IP of the world server to redirect to on successful login.
    pub redirect_host: String,
    /// Port of the world server to redirect to on successful login.
    pub redirect_port: i32,
    /// The token handed out on successful login, with which world servers
    /// check a logged-in user without the password.
    pub session_key: String,
}

} // verus!
