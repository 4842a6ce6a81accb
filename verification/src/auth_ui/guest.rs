//! Trying something before making an account, and keeping it afterwards.
//!
//! A guest is a real account with the role `anonymous` and no address.
//! Upgrading attaches credentials to the account that already exists, so
//! everything the guest made stays where it is.

use crate::auth_ui::engine::{AuthUser, CookiePolicy, SessionBundle};
use crate::auth_ui::last_login::HintCookie;
use crate::auth_ui::login::{client_ip, signed_in_at};
use crate::auth_ui::orgs::fill;
use crate::auth_ui::page::{flash_to, just_go, safe_path, sign_in_first, Begin, Flash, Reply};
use crate::text::{same, trim};
use vstd::prelude::*;

verus! {

/// The role the engine gives a guest.
pub const ANONYMOUS_ROLE: &'static str = "anonymous";

pub open spec fn guest(user: AuthUser) -> bool {
    user.role matches Some(role) && role@ == ANONYMOUS_ROLE@
}

/// Is this a guest account?
pub fn is_guest(user: &AuthUser) -> (res: bool)
    ensures
        res == guest(*user),
{
    match &user.role {
        Some(role) => same(role.as_str(), ANONYMOUS_ROLE),
        None => false,
    }
}

/// Whether the session on a request belongs to a guest: never without one.
pub fn session_is_guest(session: &Result<AuthUser, String>) -> (res: bool)
    ensures
        res == (*session matches Ok(user) && guest(user)),
{
    match session {
        Ok(user) => is_guest(user),
        Err(_) => false,
    }
}

#[derive(Clone, Debug, PartialEq, Eq)]
pub struct UpgradeForm {
    pub email: String,
    pub password: String,
    pub name: String,
}

/// What is asked of the engine to turn a guest into an account.
#[derive(Clone, Debug, PartialEq, Eq)]
pub struct LinkAnonymousEmailPassword {
    pub session_token: String,
    pub email: String,
    pub password: String,
    pub name: Option<String>,
}

/// What is asked of the engine to make a guest.
#[derive(Clone, Debug, PartialEq, Eq)]
pub struct SignInAnonymous {
    pub ip_address: Option<String>,
    pub user_agent: Option<String>,
}

/// `POST /login/guest` — start without an account.
pub fn start(forwarded_for: Option<&str>, agent: Option<String>) -> (res: SignInAnonymous)
    ensures
        crate::text::opt_view(res.ip_address) == crate::auth_ui::login::forwarded(forwarded_for),
        res.user_agent == agent,
{
    SignInAnonymous { ip_address: client_ip(forwarded_for), user_agent: agent }
}

/// Once the engine has answered: on to where they were
/// going, signed in, or back to the sign-in page.
pub fn started(
    outcome: Result<SessionBundle, String>,
    return_to: Option<&str>,
    policy: &CookiePolicy,
    hint: &HintCookie,
    headers: &Vec<String>,
) -> (res: Reply)
    ensures
        match outcome {
            Ok(bundle) => crate::auth_ui::login::signs_in(
                res,
                bundle,
                crate::auth_ui::page::kept_path(crate::auth_ui::page::text_of(return_to)),
                *policy,
                *hint,
                crate::text::views(headers@),
            ),
            Err(e) => crate::auth_ui::page::plain_reply(
                res,
                crate::auth_ui::page::flashed("/login"@, crate::auth_ui::page::Said::Error(e@)),
            ),
        },
{
    match outcome {
        Ok(bundle) => signed_in_at(bundle, safe_path(return_to), policy, hint, headers),
        Err(e) => just_go(flash_to("/login", &Flash::Error(e))),
    }
}

/// `POST /account/upgrade` — turn a guest into an account.
pub fn upgrade(token: Option<String>, form: UpgradeForm) -> (res: Begin<LinkAnonymousEmailPassword>)
    ensures
        crate::auth_ui::page::begun(
            res,
            token,
            "/account/profile"@,
            |c: LinkAnonymousEmailPassword, t: Seq<char>|
                c.session_token@ == t && c.email@ == crate::text::trimmed(form.email@)
                    && c.password@ == form.password@ && crate::text::opt_view(c.name)
                    == crate::auth_ui::orgs::filled(form.name@),
        ),
{
    match token {
        Some(session_token) => Begin::Ask(
            LinkAnonymousEmailPassword {
                session_token,
                email: trim(form.email.as_str()),
                name: fill(form.name.as_str()),
                password: form.password,
            },
        ),
        None => Begin::Go(sign_in_first("/account/profile")),
    }
}

/// Upgrading issues a fresh session and ends the guest one, so the cookie is
/// replaced.
pub fn upgraded(
    outcome: Result<SessionBundle, String>,
    policy: &CookiePolicy,
    hint: &HintCookie,
    headers: &Vec<String>,
) -> (res: Reply)
    ensures
        match outcome {
            Ok(bundle) => crate::auth_ui::login::signs_in(
                res,
                bundle,
                "/account/profile?ok=Your%20account%20is%20saved."@,
                *policy,
                *hint,
                crate::text::views(headers@),
            ),
            Err(e) => crate::auth_ui::page::plain_reply(
                res,
                crate::auth_ui::page::flashed(
                    "/account/profile"@,
                    crate::auth_ui::page::Said::Error(e@),
                ),
            ),
        },
{
    match outcome {
        Ok(bundle) => signed_in_at(
            bundle,
            "/account/profile?ok=Your%20account%20is%20saved.".to_owned(),
            policy,
            hint,
            headers,
        ),
        Err(e) => just_go(flash_to("/account/profile", &Flash::Error(e))),
    }
}

/// A guest is whoever has the anonymous role, and nobody without a role is one.
pub proof fn law_only_the_anonymous_are_guests(user: AuthUser)
    ensures
        user.role is None ==> !guest(user),
        user.role is Some ==> (guest(user) <==> user.role->0@ == "anonymous"@),
{
}

} // verus!
