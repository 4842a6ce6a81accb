//! `/account/phone` — a number, once somebody has proved they hold it.
//!
//! The number is claimed first, unverified, and verified afterwards: a
//! number that nobody has claimed would be given a new account instead.

use crate::auth::percent::encode_component;
use crate::auth_ui::login::to_uppercase;
use crate::auth_ui::page::{flash_to, sign_in_first, with_session, Begin, Flash};
use crate::auth_ui::views::{flash_of, unwrap_or_blank};
use crate::text::{cat, cat3, copy, trim};
use vstd::prelude::*;

verus! {

/// What the page asks of the engine.
#[derive(Clone, Debug, PartialEq, Eq)]
pub enum PhoneCommand {
    Update { session_token: String, phone_number: String },
    SendOtp { phone_number: String },
    /// Never a sign-in from this page.
    VerifyOtp { phone_number: String, otp: String, create_session: bool },
}

#[derive(Clone, Debug, Default, PartialEq, Eq)]
pub struct PhoneQuery {
    pub ok: Option<String>,
    pub error: Option<String>,
    pub sent: Option<String>,
    pub phone_number: Option<String>,
}

/// The number on an account, as the engine tells it: none, or one that may
/// have been confirmed.
#[derive(Clone, Debug, PartialEq, Eq)]
pub struct Number {
    pub current: Option<String>,
    pub verified: bool,
}

/// The page.
#[derive(Clone, Debug, PartialEq, Eq)]
pub struct PhoneView {
    pub sub: String,
    pub sent: bool,
    pub pending: String,
    pub flash: Option<Flash>,
}

/// `GET /account/phone`
pub fn page(token: Option<String>) -> (res: Begin<String>)
    ensures
        crate::auth_ui::page::begun(
            res,
            token,
            "/account/phone"@,
            |session: String, t: Seq<char>| session@ == t,
        ),
{
    with_session(token, "/account/phone")
}

/// What is said of the number: one that was never confirmed is not passed
/// off as a way back in.
pub open spec fn standing(number: Number) -> Seq<char> {
    let current = crate::auth_ui::views::or_blank(number.current);
    if current.len() == 0 {
        "No phone number on this account."@
    } else if number.verified {
        "Currently "@ + current + ", confirmed."@
    } else {
        "Currently "@ + current + " — not confirmed yet."@
    }
}

/// The page for whoever the session belongs to; signing in without one.
pub fn page_shown(number: &Result<Number, String>, q: &PhoneQuery) -> (res: Result<
    PhoneView,
    String,
>)
    ensures
        match *number {
            Ok(n) => res matches Ok(view) && view.sub@ == standing(n) && view.sent
                == q.sent is Some && view.pending@ == crate::auth_ui::views::or_blank(
                q.phone_number,
            ) && crate::auth_ui::page::flash_view(view.flash) == crate::auth_ui::views::flash_in(
                q.ok,
                q.error,
            ),
            Err(_) => res matches Err(location) && location@ == crate::auth_ui::page::to_sign_in(
                "/account/phone"@,
            ),
        },
{
    match number {
        Ok(n) => {
            let current = unwrap_or_blank(&n.current);
            let sub = if current.as_str().unicode_len() == 0 {
                "No phone number on this account.".to_owned()
            } else if n.verified {
                cat3("Currently ", current.as_str(), ", confirmed.")
            } else {
                cat3("Currently ", current.as_str(), " — not confirmed yet.")
            };
            Ok(
                PhoneView {
                    sub,
                    sent: q.sent.is_some(),
                    pending: unwrap_or_blank(&q.phone_number),
                    flash: flash_of(&q.ok, &q.error),
                },
            )
        },
        Err(_) => Err(sign_in_first("/account/phone")),
    }
}

/// `POST /account/phone` — the number is claimed first.
pub fn send_code(token: Option<String>, typed: &str) -> (res: Begin<PhoneCommand>)
    ensures
        crate::auth_ui::page::begun(
            res,
            token,
            "/account/phone"@,
            |c: PhoneCommand, t: Seq<char>|
                c matches PhoneCommand::Update { session_token, phone_number } && session_token@
                    == t && phone_number@ == crate::text::trimmed(typed@),
        ),
{
    match token {
        Some(session_token) => Begin::Ask(
            PhoneCommand::Update { session_token, phone_number: trim(typed) },
        ),
        None => Begin::Go(sign_in_first("/account/phone")),
    }
}

/// Back to the page with the engine's words.
pub open spec fn refused(e: Seq<char>) -> Seq<char> {
    crate::auth_ui::page::flashed("/account/phone"@, crate::auth_ui::page::Said::Error(e))
}

/// A claimed number is sent a code.
pub fn claimed(typed: &str, outcome: &Result<(), String>) -> (res: Begin<PhoneCommand>)
    ensures
        match *outcome {
            Ok(_) => res matches Begin::Ask(PhoneCommand::SendOtp { phone_number }) && phone_number@
                == crate::text::trimmed(typed@),
            Err(e) => crate::auth_ui::page::sent_to(res, refused(e@)),
        },
{
    match outcome {
        Ok(_) => Begin::Ask(PhoneCommand::SendOtp { phone_number: trim(typed) }),
        Err(e) => Begin::Go(flash_to("/account/phone", &Flash::Error(copy(e)))),
    }
}

/// What is texted, and where the browser goes.
#[derive(Clone, Debug, PartialEq, Eq)]
pub struct Texting {
    /// To which number, and the code.
    pub text: Option<(String, String)>,
    pub location: String,
}

/// The code that was made is texted to the number, and the page asks for it.
pub fn code_sent(typed: &str, outcome: Result<String, String>) -> (res: Texting)
    ensures
        match outcome {
            Ok(code) => (res.text matches Some(m) && (m.0)@ == crate::text::trimmed(typed@)
                && (m.1)@ == code@) && res.location@ == "/account/phone?sent=1&phone_number="@
                + crate::auth_ui::page::as_value(crate::text::trimmed(typed@)),
            Err(e) => res.text is None && res.location@ == refused(e@),
        },
{
    match outcome {
        Ok(code) => {
            let number = trim(typed);
            let encoded = encode_component(number.as_str());
            Texting {
                location: cat("/account/phone?sent=1&phone_number=", encoded.as_str()),
                text: Some((number, code)),
            }
        },
        Err(e) => Texting { text: None, location: flash_to("/account/phone", &Flash::Error(e)) },
    }
}

/// `POST /account/phone/verify`
pub fn verify(signed_in: bool, number: &str, code: &str) -> (res: Begin<PhoneCommand>)
    ensures
        if signed_in {
            res matches Begin::Ask(PhoneCommand::VerifyOtp { phone_number, otp, create_session })
                && phone_number@ == crate::text::trimmed(number@) && otp@
                == crate::auth_ui::login::uppercase(crate::text::trimmed(code@)) && !create_session
        } else {
            crate::auth_ui::page::sent_to(
                res,
                crate::auth_ui::page::to_sign_in("/account/phone"@),
            )
        },
{
    if signed_in {
        Begin::Ask(
            PhoneCommand::VerifyOtp {
                phone_number: trim(number),
                otp: to_uppercase(trim(code).as_str()),
                create_session: false,
            },
        )
    } else {
        Begin::Go(sign_in_first("/account/phone"))
    }
}

/// Confirmed, or one message for every way a code can be wrong.
pub fn verified(outcome: &Result<(), String>) -> (res: String)
    ensures
        res@ == crate::auth_ui::page::flashed(
            "/account/phone"@,
            match *outcome {
                Ok(_) => crate::auth_ui::page::Said::Success("Phone number confirmed."@),
                Err(_) => crate::auth_ui::page::Said::Error(
                    "That code is wrong or has expired. Ask for another."@,
                ),
            },
        ),
{
    match outcome {
        Ok(_) => flash_to(
            "/account/phone",
            &Flash::Success("Phone number confirmed.".to_owned()),
        ),
        Err(_) => flash_to(
            "/account/phone",
            &Flash::Error("That code is wrong or has expired. Ask for another.".to_owned()),
        ),
    }
}

/// The number of an account is shown with whether it was confirmed, where there is one.
pub proof fn law_a_number_is_shown_with_its_standing(number: Number, other: Number)
    requires
        number.current is Some,
        number.current->0@.len() > 0,
    ensures
        crate::text::holds(standing(number), number.current->0@),
        number.verified ==> crate::text::ends(standing(number), ", confirmed."@),
        !number.verified ==> crate::text::ends(standing(number), "not confirmed yet."@),
        other.current is None || other.current->0@.len() == 0 ==> standing(other) == standing(
            Number { current: None, verified: false },
        ),
{
    let s = standing(number);
    let n = number.current->0@;
    reveal_strlit("Currently ");
    reveal_strlit(", confirmed.");
    reveal_strlit(" — not confirmed yet.");
    reveal_strlit("not confirmed yet.");
    assert(s.subrange(10, 10 + n.len() as int) =~= n);
    assert(crate::text::stands_at(s, n, 10));
    if number.verified {
        let tail = ", confirmed."@;
        assert(s.subrange(s.len() - tail.len(), s.len() as int) =~= tail);
    } else {
        let tail = "not confirmed yet."@;
        assert(s.subrange(s.len() - tail.len(), s.len() as int) =~= tail);
    }
}

/// A number that is refused leads back to the page, with the reason.
pub proof fn law_a_refusal_leads_back_with_the_reason(e: Seq<char>)
    ensures
        crate::auth_ui::page::carries(refused(e), "/account/phone"@, "error"@, e),
{
    crate::auth_ui::page::law_a_redirect_carries_what_it_says::<()>(
        "/account/phone"@,
        "error"@,
        e,
        Ok(()),
    );
}

} // verus!
