//! What the pages need to know of the deployment they run in.

use crate::auth_ui::engine::CookiePolicy;
use vstd::prelude::*;

verus! {

/// The settings of the pages: where they live, what they are called, and how
/// the session cookie is written.
#[derive(Clone, Debug, PartialEq, Eq)]
pub struct UiState {
    pub cookie: CookiePolicy,
    /// Where "back to the app" goes.
    pub home: String,
    /// The name an authenticator app shows next to a two-factor entry.
    pub issuer: String,
    /// This server's public URL, for links that arrive by mail.
    pub base_url: String,
}

impl UiState {
    /// The settings that hold until others are given.
    pub fn new(cookie: CookiePolicy) -> (res: UiState)
        ensures
            res.cookie == cookie,
            res.home@ == "/"@,
            res.issuer@ == "architect-auth"@,
            res.base_url@ == "http://localhost:8080"@,
    {
        UiState {
            cookie,
            home: "/".to_owned(),
            issuer: "architect-auth".to_owned(),
            base_url: "http://localhost:8080".to_owned(),
        }
    }

    /// This server's public URL, used to build mailed links.
    pub fn base_url(self, base_url: String) -> (res: UiState)
        ensures
            res == (UiState { base_url, ..self }),
    {
        UiState { base_url, ..self }
    }

    /// The name an authenticator app shows for a two-factor entry.
    pub fn issuer(self, issuer: String) -> (res: UiState)
        ensures
            res == (UiState { issuer, ..self }),
    {
        UiState { issuer, ..self }
    }

    /// Where "back to the app" goes.
    pub fn home(self, home: String) -> (res: UiState)
        ensures
            res == (UiState { home, ..self }),
    {
        UiState { home, ..self }
    }
}

} // verus!
