//! What the auth engine hands to the pages: plain records of who somebody
//! is and which sessions they hold.

use crate::auth::expiry::Moment;
use crate::text::{copy, copy_opt, trim};
use vstd::prelude::*;

verus! {

/// How the session cookie is written.
#[derive(Clone, Debug, PartialEq, Eq)]
pub struct CookiePolicy {
    pub name: String,
    pub path: String,
    pub secure: bool,
    pub max_age_seconds: Option<i64>,
}

/// An account.
#[derive(Clone, Debug, PartialEq, Eq)]
pub struct AuthUser {
    pub id: u128,
    pub email: Option<String>,
    pub name: Option<String>,
    pub email_verified: bool,
    pub image: Option<String>,
    pub username: Option<String>,
    pub two_factor_enabled: bool,
    pub role: Option<String>,
    pub banned: bool,
    pub ban_reason: Option<String>,
    pub metadata_json: String,
    pub created_at: Moment,
}

/// A session, as the engine lists it.
#[derive(Clone, Debug, PartialEq, Eq)]
pub struct SessionInfo {
    pub id: u128,
    pub active: bool,
    pub impersonated_by: Option<u128>,
    pub ip_address: Option<String>,
    pub user_agent: Option<String>,
    pub created_at: Moment,
    pub expires_at: Moment,
}

/// Somebody signed in: the account, the session and the token that names it.
#[derive(Clone, Debug, PartialEq, Eq)]
pub struct SessionBundle {
    pub user: AuthUser,
    pub session: SessionInfo,
    pub token: String,
}

/// The name an account goes by: its name where it is more than white space,
/// else its username.
pub open spec fn goes_by(user: AuthUser) -> Option<Seq<char>> {
    match user.name {
        Some(name) if crate::text::trimmed(name@).len() > 0 => Some(name@),
        _ => crate::text::opt_view(user.username),
    }
}

impl AuthUser {
    /// The name this account goes by, if it has one.
    pub fn known_name(&self) -> (res: Option<String>)
        ensures
            crate::text::opt_view(res) == goes_by(*self),
    {
        if let Some(name) = &self.name {
            if trim(name.as_str()).as_str().unicode_len() > 0 {
                return Some(copy(name));
            }
        }
        copy_opt(&self.username)
    }
}

/// An account goes by its name where that shows anything, else by its username.
pub proof fn law_a_name_that_shows_comes_first(user: AuthUser)
    ensures
        user.name is Some && !crate::text::blank(user.name->0@) ==> goes_by(user) == Some(
            user.name->0@,
        ),
        (user.name is None || crate::text::blank(user.name->0@)) && user.username is Some ==> goes_by(
            user,
        ) == Some(user.username->0@),
        (user.name is None || crate::text::blank(user.name->0@)) && user.username is None ==> goes_by(
            user,
        ) is None,
{
    if let Some(name) = user.name {
        crate::text::law_white_space_alone_is_trimmed_to_nothing(name@);
    }
}

} // verus!
