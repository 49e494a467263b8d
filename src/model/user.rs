use vstd::prelude::*;

verus! {

/// A user account as shown to clients; e-mail and password are present only
/// where the query asked for them.
pub struct User {
    pub id: String,
    pub username: String,
    pub email: Option<String>,
    pub password: Option<String>,
}

/// Credentials sent to log in.
pub struct LoginForm {
    pub username: String,
    pub password: String,
}

/// Fields sent to open an account.
pub struct RegisterForm {
    pub username: String,
    pub email: String,
    pub password: String,
}

/// The current and the new password sent to change a password.
pub struct ChangePasswordForm {
    pub old: String,
    pub new: String,
}

} // verus!
