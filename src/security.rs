//! Login checks of the broker: secret-free login, and the plaintext check of
//! a username and password against the user cache and the auth back-end.

use vstd::prelude::*;

verus! {

/// The credentials a client's Connect carries.
pub struct Login {
    pub username: String,
    pub password: String,
}

/// A user known to the broker.
pub struct MQTTUser {
    pub username: String,
    pub password: String,
    pub is_superuser: bool,
}

/// What a login check decides from what is at hand.
#[derive(Clone, Copy, Debug, PartialEq, Eq, Structural)]
pub enum LoginDecision {
    Allow,
    Deny,
    /// The user is not in the cache: fetch it from the auth back-end and
    /// decide with `check_fetched_user`.
    FetchUser,
}

pub open spec fn credentials_match(user: MQTTUser, login: Login) -> bool {
    user.username@ == login.username@ && user.password@ == login.password@
}

fn same_string(a: &String, b: &String) -> (r: bool)
    ensures
        r == (a@ == b@),
{
    *a == *b
}

/// Whether a user's stored credentials are the ones a client gave.
pub fn plaintext_check(user: &MQTTUser, login: &Login) -> (r: bool)
    ensures
        r == credentials_match(*user, *login),
{
    same_string(&user.username, &login.username) && same_string(&user.password, &login.password)
}

/// The login check of a Connect. With secret-free login every client is let
/// in; a client without credentials is refused; otherwise the credentials are
/// checked against the cached user, or the user is to be fetched first.
pub fn check_login_auth(secret_free_login: bool, login: &Option<Login>, cached: &Option<MQTTUser>) -> (r: LoginDecision)
    ensures
        secret_free_login ==> r == LoginDecision::Allow,
        !secret_free_login && login is None ==> r == LoginDecision::Deny,
        !secret_free_login && login is Some && cached is None ==> r == LoginDecision::FetchUser,
        !secret_free_login && login is Some && cached is Some ==> (r == LoginDecision::Allow
            <==> credentials_match(cached->Some_0, login->Some_0)),
        !secret_free_login && login is Some && cached is Some ==> r != LoginDecision::FetchUser,
{
    if secret_free_login {
        return LoginDecision::Allow;
    }
    match login {
        None => LoginDecision::Deny,
        Some(l) => match cached {
            None => LoginDecision::FetchUser,
            Some(u) => if plaintext_check(u, l) {
                LoginDecision::Allow
            } else {
                LoginDecision::Deny
            },
        },
    }
}

/// The login check once the auth back-end answered: a user it does not know
/// is refused.
pub fn check_fetched_user(login: &Login, fetched: &Option<MQTTUser>) -> (r: bool)
    ensures
        r == (fetched is Some && credentials_match(fetched->Some_0, *login)),
{
    match fetched {
        Some(u) => plaintext_check(u, login),
        None => false,
    }
}

/// Whether ACL authentication is enabled; it is not.
pub fn authentication_acl() -> (r: bool)
    ensures
        !r,
{
    false
}

} // verus!
