//! Two-factor authentication: switching it on and off, and the challenge
//! between a password and being signed in.

use crate::auth::percent::encode_component;
use crate::auth_ui::engine::AuthUser;
use crate::auth_ui::login::path_of;
use crate::auth_ui::page::{flash_to, settle, sign_in_first, with_session, Begin, Flash};
use crate::auth_ui::qr::svg;
use crate::auth_ui::views::flash_of;
use crate::ids::uuid_text;
use crate::text::{cat3, copy, trim};
use vstd::prelude::*;

verus! {

/// What the pages ask of the engine.
#[derive(Clone, Debug, PartialEq, Eq)]
pub enum FactorCommand {
    Enroll { session_token: String, account_label: String, issuer: String },
    Confirm { session_token: String, code: String },
    Disable { session_token: String, code: String },
    Verify { session_token: String, code: String },
}

/// On or off.
#[derive(Clone, Debug, PartialEq, Eq)]
pub struct StatusView {
    pub enabled: bool,
    pub sub: &'static str,
    pub flash: Option<Flash>,
}

/// A secret the engine made, and everything that goes with it.
#[derive(Clone, Debug, PartialEq, Eq)]
pub struct Enrollment {
    pub secret: String,
    pub otpauth_url: String,
    pub backup_codes: Vec<String>,
}

/// The one page that shows a secret.
#[derive(Clone, Debug, PartialEq, Eq)]
pub struct EnrollView {
    pub qr: String,
    pub secret: String,
    pub otpauth_url: String,
    pub backup_codes: Vec<String>,
}

/// `GET /account/two-factor`
pub fn page(token: Option<String>) -> (res: Begin<String>)
    ensures
        crate::auth_ui::page::begun(
            res,
            token,
            "/account/two-factor"@,
            |session: String, t: Seq<char>| session@ == t,
        ),
{
    with_session(token, "/account/two-factor")
}

/// On or off, in words; signing in without a session.
pub fn page_shown(
    session: &Result<AuthUser, String>,
    ok: &Option<String>,
    error: &Option<String>,
) -> (res: Result<StatusView, String>)
    ensures
        match *session {
            Ok(user) => res matches Ok(view) && view.enabled == user.two_factor_enabled
                && view.sub@ == (if user.two_factor_enabled {
                "On. Signing in asks for a code from your authenticator app."@
            } else {
                "Off. Anyone with your password can sign in as you."@
            }) && crate::auth_ui::page::flash_view(view.flash) == crate::auth_ui::views::flash_in(
                *ok,
                *error,
            ),
            Err(_) => res matches Err(location) && location@ == crate::auth_ui::page::to_sign_in(
                "/account/two-factor"@,
            ),
        },
{
    match session {
        Ok(user) => Ok(
            StatusView {
                enabled: user.two_factor_enabled,
                sub: if user.two_factor_enabled {
                    "On. Signing in asks for a code from your authenticator app."
                } else {
                    "Off. Anyone with your password can sign in as you."
                },
                flash: flash_of(ok, error),
            },
        ),
        Err(_) => Err(sign_in_first("/account/two-factor")),
    }
}

/// What an authenticator app shows beside the issuer: the address, or the id
/// of an account without one.
pub open spec fn account_label(user: AuthUser) -> Seq<char> {
    match user.email {
        Some(email) => email@,
        None => crate::ids::hyphenated(user.id),
    }
}

/// `POST /account/two-factor/enroll`, once the session was looked up.
pub fn enroll(token: String, session: &Result<AuthUser, String>, issuer: &str) -> (res: Begin<
    FactorCommand,
>)
    ensures
        match *session {
            Ok(user) => res matches Begin::Ask(
                FactorCommand::Enroll { session_token, account_label: label, issuer: shown },
            ) && session_token == token && label@ == account_label(user) && shown@ == issuer@,
            Err(_) => crate::auth_ui::page::sent_to(
                res,
                crate::auth_ui::page::to_sign_in("/account/two-factor"@),
            ),
        },
{
    match session {
        Ok(user) => Begin::Ask(
            FactorCommand::Enroll {
                session_token: token,
                account_label: match &user.email {
                    Some(email) => copy(email),
                    None => uuid_text(user.id),
                },
                issuer: issuer.to_owned(),
            },
        ),
        Err(_) => Begin::Go(sign_in_first("/account/two-factor")),
    }
}

/// The label on the drawing.
pub open spec fn scan_label() -> Seq<char> {
    "Scan with your authenticator app"@
}

/// The drawing of a URL, or nothing where it cannot be drawn.
pub open spec fn drawn_or_blank(url: Seq<char>) -> Seq<char> {
    match crate::auth_ui::qr::drawn(url, scan_label()) {
        Some(svg) => svg,
        None => Seq::empty(),
    }
}

/// The page with the secret comes straight from the reply: its content
/// cannot be fetched again. A URL that is too long to draw is shown without
/// a drawing.
pub fn enrolled(outcome: Result<Enrollment, String>) -> (res: Result<EnrollView, String>)
    ensures
        match outcome {
            Ok(made) => res matches Ok(view) && view.qr@ == drawn_or_blank(made.otpauth_url@)
                && view.secret@ == made.secret@ && view.otpauth_url@ == made.otpauth_url@
                && view.backup_codes == made.backup_codes,
            Err(e) => res matches Err(location) && location@ == crate::auth_ui::page::flashed(
                "/account/two-factor"@,
                crate::auth_ui::page::Said::Error(e@),
            ),
        },
{
    match outcome {
        Ok(made) => {
            let qr = match svg(made.otpauth_url.as_str(), "Scan with your authenticator app") {
                Ok(drawing) => drawing,
                Err(_) => {
                    let blank = String::new();
                    assert(blank@ =~= Seq::<char>::empty());
                    blank
                },
            };
            Ok(
                EnrollView {
                    qr,
                    secret: made.secret,
                    otpauth_url: made.otpauth_url,
                    backup_codes: made.backup_codes,
                },
            )
        },
        Err(e) => Err(flash_to("/account/two-factor", &Flash::Error(e))),
    }
}

/// `POST /account/two-factor/confirm` — a code from the app switches it on.
pub fn confirm(token: Option<String>, typed: &str) -> (res: Begin<FactorCommand>)
    ensures
        crate::auth_ui::page::begun(
            res,
            token,
            "/account/two-factor"@,
            |c: FactorCommand, t: Seq<char>|
                c matches FactorCommand::Confirm { session_token, code } && session_token@ == t
                    && code@ == crate::text::trimmed(typed@),
        ),
{
    match token {
        Some(session_token) => Begin::Ask(
            FactorCommand::Confirm { session_token, code: trim(typed) },
        ),
        None => Begin::Go(sign_in_first("/account/two-factor")),
    }
}

pub fn confirmed(outcome: &Result<(), String>) -> (res: String)
    ensures
        res@ == crate::auth_ui::page::settled(
            "/account/two-factor"@,
            "Two-factor authentication is on. Keep your backup codes safe."@,
            *outcome,
        ),
{
    settle(
        "/account/two-factor",
        "Two-factor authentication is on. Keep your backup codes safe.",
        outcome,
    )
}

/// `POST /account/two-factor/disable`
pub fn disable(token: Option<String>, typed: &str) -> (res: Begin<FactorCommand>)
    ensures
        crate::auth_ui::page::begun(
            res,
            token,
            "/account/two-factor"@,
            |c: FactorCommand, t: Seq<char>|
                c matches FactorCommand::Disable { session_token, code } && session_token@ == t
                    && code@ == crate::text::trimmed(typed@),
        ),
{
    match token {
        Some(session_token) => Begin::Ask(
            FactorCommand::Disable { session_token, code: trim(typed) },
        ),
        None => Begin::Go(sign_in_first("/account/two-factor")),
    }
}

pub fn disabled(outcome: &Result<(), String>) -> (res: String)
    ensures
        res@ == crate::auth_ui::page::settled(
            "/account/two-factor"@,
            "Two-factor authentication is off."@,
            *outcome,
        ),
{
    settle("/account/two-factor", "Two-factor authentication is off.", outcome)
}

// ---------------------------------------------------------------------------
// The sign-in challenge
// ---------------------------------------------------------------------------

/// The challenge.
#[derive(Clone, Debug, PartialEq, Eq)]
pub struct ChallengeView {
    pub return_to: String,
    pub error: Option<String>,
}

/// `GET /login/two-factor` — between the password and being signed in; only
/// a browser with a session that waits has anything to answer.
pub fn challenge(
    waiting: bool,
    return_to: Option<String>,
    error: Option<String>,
) -> (res: Result<ChallengeView, String>)
    ensures
        if waiting {
            res matches Ok(view) && view.return_to@ == (match return_to {
                Some(path) => path@,
                None => "/"@,
            }) && view.error == error
        } else {
            res matches Err(location) && location@ == "/login"@
        },
{
    if waiting {
        Ok(
            ChallengeView {
                return_to: match return_to {
                    Some(path) => path,
                    None => "/".to_owned(),
                },
                error,
            },
        )
    } else {
        Err("/login".to_owned())
    }
}

/// `POST /login/two-factor`
pub fn verify(token: Option<String>, typed: &str) -> (res: Begin<FactorCommand>)
    ensures
        match token {
            Some(t) => res matches Begin::Ask(FactorCommand::Verify { session_token, code })
                && session_token@ == t@ && code@ == crate::text::trimmed(typed@),
            None => crate::auth_ui::page::sent_to(res, "/login"@),
        },
{
    match token {
        Some(session_token) => Begin::Ask(
            FactorCommand::Verify { session_token, code: trim(typed) },
        ),
        None => Begin::Go("/login".to_owned()),
    }
}

/// On to where they were going, which is on this origin, or back to the
/// challenge with the words.
pub fn verified(return_to: &Option<String>, outcome: &Result<(), String>) -> (res: String)
    ensures
        res@ == match *outcome {
            Ok(_) => crate::auth_ui::login::path_in(*return_to),
            Err(e) => "/login/two-factor?return_to="@ + crate::auth_ui::page::as_value(
                crate::auth_ui::login::path_in(*return_to),
            ) + "&error="@ + crate::auth_ui::page::as_value(e@),
        },
{
    let back = path_of(return_to);
    match outcome {
        Ok(_) => back,
        Err(e) => {
            let encoded = encode_component(back.as_str());
            let words = encode_component(e.as_str());
            let mut url = cat3("/login/two-factor?return_to=", encoded.as_str(), "&error=");
            url.append(words.as_str());
            url
        },
    }
}

/// An authenticator shows an account by its address, or by its id where it has none, and
/// a picture is drawn of any address that fits into one.
pub proof fn law_an_authenticator_shows_the_address(user: AuthUser, url: Seq<char>)
    ensures
        user.email is Some ==> account_label(user) == user.email->0@,
        user.email is None ==> account_label(user) == crate::ids::hyphenated(user.id),
        url.len() > 7089 ==> drawn_or_blank(url).len() == 0,
        url.len() <= 7089 && crate::auth_ui::qr::symbol(url) is Some ==> drawn_or_blank(url)
            == crate::auth_ui::qr::drawing(crate::auth_ui::qr::symbol(url)->0, scan_label()),
        crate::auth_ui::qr::symbol(url) is None ==> drawn_or_blank(url).len() == 0,
{
}

} // verus!
