//! Passkeys: the list, adding one, and signing in with one.
//!
//! Adding and signing in go through a script, which is answered in JSON;
//! removing is a plain form, so that it works where the script cannot run.

use crate::auth::expiry::Moment;
use crate::auth_ui::dates::day_of;
use crate::auth_ui::engine::{CookiePolicy, SessionBundle};
use crate::auth_ui::last_login::HintCookie;
use crate::auth_ui::login::{client_ip, path_of, signed_in_at};
use crate::auth_ui::page::{settle, sign_in_first, with_session, Begin, Flash, Reply};
use crate::auth_ui::views::flash_of;
use crate::text::{copy, trim};
use vstd::prelude::*;

verus! {

/// A passkey, as the engine lists it.
#[derive(Clone, Debug, PartialEq, Eq)]
pub struct Passkey {
    pub credential_id: String,
    pub name: String,
    pub created_at: Moment,
    pub backed_up: bool,
}

#[derive(Clone, Debug, PartialEq, Eq)]
pub struct PasskeyRow {
    pub credential_id: String,
    pub name: String,
    pub added: String,
    pub backed_up: bool,
}

#[derive(Clone, Debug, PartialEq, Eq)]
pub struct PasskeysView {
    pub rows: Vec<PasskeyRow>,
    pub flash: Option<Flash>,
}

/// What the pages ask of the engine.
#[derive(Clone, Debug, PartialEq, Eq)]
pub enum PasskeyCommand {
    BeginRegistration { session_token: String },
    CompleteRegistration {
        session_token: String,
        handle: String,
        name: String,
        credential_json: String,
    },
    Delete { session_token: String, credential_id: String },
    BeginAuthentication { email: Option<String> },
    CompleteAuthentication {
        handle: String,
        credential_json: String,
        ip_address: Option<String>,
        user_agent: Option<String>,
    },
}

/// A challenge the engine made: the options, as JSON text, and its handle.
#[derive(Clone, Debug, PartialEq, Eq)]
pub struct PasskeyChallenge {
    pub options_json: String,
    pub handle: String,
}

/// What a script is answered with, under which status.
#[derive(Clone, Debug, PartialEq, Eq)]
pub enum PasskeyReply {
    /// 200, the options and the handle.
    Options { options: String, handle: String },
    /// 200, the name of the passkey that was added.
    Added { name: String },
    /// 400 or 401, in words.
    Refused { status: u16, error: String },
    /// 200, the location as JSON and the cookies.
    SignedIn(Reply),
}

/// `GET /account/passkeys`
pub fn page(token: Option<String>) -> (res: Begin<String>)
    ensures
        crate::auth_ui::page::begun(
            res,
            token,
            "/account/passkeys"@,
            |session: String, t: Seq<char>| session@ == t,
        ),
{
    with_session(token, "/account/passkeys")
}

pub open spec fn passkey_row(p: Passkey, row: PasskeyRow) -> bool {
    &&& row.credential_id@ == p.credential_id@
    &&& row.name@ == p.name@
    &&& row.added@ == crate::auth_ui::dates::utc_day(p.created_at.secs, p.created_at.nanos)
    &&& row.backed_up == p.backed_up
}

/// The list; signing in where it was refused.
pub fn page_listed(
    passkeys: Result<Vec<Passkey>, String>,
    ok: &Option<String>,
    error: &Option<String>,
) -> (res: Result<PasskeysView, String>)
    requires
        passkeys matches Ok(list) ==> forall|i: int|
            0 <= i < list@.len() ==> (#[trigger] list@[i]).created_at.valid(),
    ensures
        match passkeys {
            Ok(list) => res matches Ok(view) && view.rows@.len() == list@.len() && (forall|i: int|
                0 <= i < list@.len() ==> passkey_row(list@[i], #[trigger] view.rows@[i]))
                && crate::auth_ui::page::flash_view(view.flash) == crate::auth_ui::views::flash_in(
                *ok,
                *error,
            ),
            Err(_) => res matches Err(location) && location@ == crate::auth_ui::page::to_sign_in(
                "/account/passkeys"@,
            ),
        },
{
    let list = match passkeys {
        Ok(list) => list,
        Err(_) => return Err(sign_in_first("/account/passkeys")),
    };
    let mut rows: Vec<PasskeyRow> = Vec::new();
    let ghost all = list@;
    for p in it: list
        invariant
            it.seq() == all,
            rows@.len() == it.index(),
            forall|i: int| 0 <= i < all.len() ==> (#[trigger] all[i]).created_at.valid(),
            forall|j: int| 0 <= j < rows@.len() ==> passkey_row(all[j], #[trigger] rows@[j]),
    {
        assert(all[it.index() as int] == p);
        let added = day_of(p.created_at);
        rows.push(
            PasskeyRow {
                credential_id: p.credential_id,
                name: p.name,
                added,
                backed_up: p.backed_up,
            },
        );
    }
    Ok(PasskeysView { rows, flash: flash_of(ok, error) })
}

/// A script without a session is told so.
pub open spec fn sign_in_words(reply: PasskeyReply) -> bool {
    reply matches PasskeyReply::Refused { status, error } && status == 401 && error@
        == "Sign in first."@
}

fn say_sign_in() -> (res: PasskeyReply)
    ensures
        sign_in_words(res),
{
    PasskeyReply::Refused { status: 401, error: "Sign in first.".to_owned() }
}

/// What the script is handed of a challenge, or the words it was refused in.
pub open spec fn challenges(
    reply: PasskeyReply,
    outcome: Result<PasskeyChallenge, String>,
) -> bool {
    match outcome {
        Ok(challenge) => reply matches PasskeyReply::Options { options, handle } && options@
            == challenge.options_json@ && handle@ == challenge.handle@,
        Err(e) => reply matches PasskeyReply::Refused { status, error } && status == 400 && error@
            == e@,
    }
}

fn hand_over(outcome: Result<PasskeyChallenge, String>) -> (res: PasskeyReply)
    ensures
        challenges(res, outcome),
{
    match outcome {
        Ok(challenge) => PasskeyReply::Options {
            options: challenge.options_json,
            handle: challenge.handle,
        },
        Err(e) => PasskeyReply::Refused { status: 400, error: e },
    }
}

/// `POST /account/passkeys/begin` — the creation options are asked for, or
/// the script is told to sign in.
pub fn begin_registration(token: Option<String>) -> (res: Result<PasskeyCommand, PasskeyReply>)
    ensures
        match token {
            Some(t) => res matches Ok(PasskeyCommand::BeginRegistration { session_token })
                && session_token@ == t@,
            None => res matches Err(reply) && sign_in_words(reply),
        },
{
    match token {
        Some(session_token) => Ok(PasskeyCommand::BeginRegistration { session_token }),
        None => Err(say_sign_in()),
    }
}

pub fn registration_begun(outcome: Result<PasskeyChallenge, String>) -> (res: PasskeyReply)
    ensures
        challenges(res, outcome),
{
    hand_over(outcome)
}

/// What the script sends back of a new passkey, the credential as JSON text.
#[derive(Clone, Debug, PartialEq, Eq)]
pub struct FinishRegistration {
    pub handle: String,
    pub name: String,
    pub credential_json: String,
}

/// `POST /account/passkeys/complete`
pub fn complete_registration(token: Option<String>, body: FinishRegistration) -> (res: Result<
    PasskeyCommand,
    PasskeyReply,
>)
    ensures
        match token {
            Some(t) => res matches Ok(
                PasskeyCommand::CompleteRegistration {
                    session_token,
                    handle,
                    name,
                    credential_json,
                },
            ) && session_token@ == t@ && handle@ == body.handle@ && name@ == body.name@
                && credential_json@ == body.credential_json@,
            None => res matches Err(reply) && sign_in_words(reply),
        },
{
    match token {
        Some(session_token) => Ok(
            PasskeyCommand::CompleteRegistration {
                session_token,
                handle: body.handle,
                name: body.name,
                credential_json: body.credential_json,
            },
        ),
        None => Err(say_sign_in()),
    }
}

pub fn registration_completed(outcome: Result<String, String>) -> (res: PasskeyReply)
    ensures
        match outcome {
            Ok(added) => res matches PasskeyReply::Added { name } && name@ == added@,
            Err(e) => res matches PasskeyReply::Refused { status, error } && status == 400
                && error@ == e@,
        },
{
    match outcome {
        Ok(name) => PasskeyReply::Added { name },
        Err(e) => PasskeyReply::Refused { status: 400, error: e },
    }
}

/// `POST /account/passkeys/delete`
pub fn delete(token: Option<String>, credential: String) -> (res: Begin<PasskeyCommand>)
    ensures
        crate::auth_ui::page::begun(
            res,
            token,
            "/account/passkeys"@,
            |c: PasskeyCommand, t: Seq<char>|
                c matches PasskeyCommand::Delete { session_token, credential_id } && session_token@
                    == t && credential_id@ == credential@,
        ),
{
    match token {
        Some(session_token) => Begin::Ask(
            PasskeyCommand::Delete { session_token, credential_id: credential },
        ),
        None => Begin::Go(sign_in_first("/account/passkeys")),
    }
}

pub fn deleted(outcome: &Result<(), String>) -> (res: String)
    ensures
        res@ == crate::auth_ui::page::settled("/account/passkeys"@, "Passkey removed."@, *outcome),
{
    settle("/account/passkeys", "Passkey removed.", outcome)
}

/// `POST /login/passkey/begin`: no session is needed, and a blank address is
/// none.
pub fn begin_sign_in(email: Option<String>) -> (res: PasskeyCommand)
    ensures
        res matches PasskeyCommand::BeginAuthentication { email: asked } && crate::text::opt_view(
            asked,
        ) == match email {
            Some(e) if crate::text::trimmed(e@).len() > 0 => Some(e@),
            _ => None,
        },
{
    let asked = match email {
        Some(e) => if trim(e.as_str()).as_str().unicode_len() > 0 {
            Some(e)
        } else {
            None
        },
        None => None,
    };
    PasskeyCommand::BeginAuthentication { email: asked }
}

pub fn sign_in_begun(outcome: Result<PasskeyChallenge, String>) -> (res: PasskeyReply)
    ensures
        challenges(res, outcome),
{
    hand_over(outcome)
}

/// What the script sends back to sign in, the credential as JSON text.
#[derive(Clone, Debug, PartialEq, Eq)]
pub struct FinishSignIn {
    pub handle: String,
    pub credential_json: String,
    pub return_to: Option<String>,
}

/// `POST /login/passkey/complete`
pub fn complete_sign_in(
    body: &FinishSignIn,
    forwarded_for: Option<&str>,
    agent: Option<String>,
) -> (res: PasskeyCommand)
    ensures
        res matches PasskeyCommand::CompleteAuthentication {
            handle,
            credential_json,
            ip_address,
            user_agent,
        } && handle@ == body.handle@ && credential_json@ == body.credential_json@
            && crate::text::opt_view(ip_address) == crate::auth_ui::login::forwarded(forwarded_for)
            && user_agent == agent,
{
    PasskeyCommand::CompleteAuthentication {
        handle: copy(&body.handle),
        credential_json: copy(&body.credential_json),
        ip_address: client_ip(forwarded_for),
        user_agent: agent,
    }
}

/// A passkey is a second factor by construction, so there is no challenge to
/// go through.
pub fn sign_in_completed(
    body: &FinishSignIn,
    outcome: Result<SessionBundle, String>,
    policy: &CookiePolicy,
    hint: &HintCookie,
    headers: &Vec<String>,
) -> (res: PasskeyReply)
    ensures
        match outcome {
            Ok(bundle) => res matches PasskeyReply::SignedIn(reply)
                && crate::auth_ui::login::signs_in(
                reply,
                bundle,
                crate::auth_ui::login::path_in(body.return_to),
                *policy,
                *hint,
                crate::text::views(headers@),
            ),
            Err(e) => res matches PasskeyReply::Refused { status, error } && status == 401
                && error@ == e@,
        },
{
    match outcome {
        Ok(bundle) => PasskeyReply::SignedIn(
            signed_in_at(bundle, path_of(&body.return_to), policy, hint, headers),
        ),
        Err(e) => PasskeyReply::Refused { status: 401, error: e },
    }
}

/// A challenge is handed on as it came, and a refusal in its own words; whoever is not
/// signed in is told so, and not that the request was bad.
pub proof fn law_a_challenge_is_handed_on(
    reply: PasskeyReply,
    outcome: Result<PasskeyChallenge, String>,
    other: PasskeyReply,
)
    requires
        challenges(reply, outcome),
        sign_in_words(other),
    ensures
        outcome is Ok <==> reply is Options,
        outcome is Ok ==> reply->options@ == outcome->Ok_0.options_json@ && reply->Options_handle@
            == outcome->Ok_0.handle@,
        outcome is Err ==> reply is Refused && reply->status == 400 && reply->error@
            == outcome->Err_0@,
        other is Refused && other->status == 401,
{
}

/// A passkey is listed as it is, under the day it was added.
pub proof fn law_a_passkey_is_listed_as_it_is(p: Passkey, row: PasskeyRow)
    requires
        passkey_row(p, row),
    ensures
        row.credential_id@ == p.credential_id@,
        row.name@ == p.name@,
        row.backed_up == p.backed_up,
        row.added@ == crate::auth_ui::dates::utc_day(p.created_at.secs, p.created_at.nanos),
{
}

} // verus!
