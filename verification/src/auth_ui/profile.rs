//! `/account/profile` — name, username and avatar, the address, and the
//! password.

use crate::auth_ui::engine::AuthUser;
use crate::auth_ui::page::{flash_to, settle, sign_in_first, with_session, Begin, Flash};
use crate::auth_ui::views::{flash_of, unwrap_or_blank};
use crate::text::{cat, copy, same, trim};
use vstd::prelude::*;

verus! {

/// What the page asks of the engine.
#[derive(Clone, Debug, PartialEq, Eq)]
pub enum ProfileCommand {
    /// An empty text clears the field.
    UpdateProfile { session_token: String, name: String, image: String },
    UpdateUsername { session_token: String, username: String, display_username: String },
    ChangeEmail { session_token: String, new_email: String },
    ChangePassword { session_token: String, current_password: String, new_password: String },
}

#[derive(Clone, Debug, PartialEq, Eq)]
pub struct ProfileForm {
    pub name: String,
    pub username: String,
    pub image: String,
}

#[derive(Clone, Debug, PartialEq, Eq)]
pub struct PasswordForm {
    pub current_password: String,
    pub new_password: String,
    pub confirm_password: String,
}

/// The page.
#[derive(Clone, Debug, PartialEq, Eq)]
pub struct ProfileView {
    pub name: String,
    pub username: String,
    pub image: String,
    pub email: String,
    /// The address, and whether it was proved to reach anybody.
    pub email_line: String,
    pub flash: Option<Flash>,
}

/// `GET /account/profile`
pub fn page(token: Option<String>) -> (res: Begin<String>)
    ensures
        crate::auth_ui::page::begun(
            res,
            token,
            "/account/profile"@,
            |session: String, t: Seq<char>| session@ == t,
        ),
{
    with_session(token, "/account/profile")
}

pub open spec fn profiled(view: ProfileView, user: AuthUser) -> bool {
    &&& view.name@ == crate::auth_ui::views::or_blank(user.name)
    &&& view.username@ == crate::auth_ui::views::or_blank(user.username)
    &&& view.image@ == crate::auth_ui::views::or_blank(user.image)
    &&& view.email@ == crate::auth_ui::views::or_blank(user.email)
    &&& view.email_line@ == crate::auth_ui::views::or_blank(user.email) + if user.email_verified {
        " — verified."@
    } else {
        " — not verified yet."@
    }
}

/// The page for whoever the session belongs to; signing in without one.
pub fn page_shown(
    session: &Result<AuthUser, String>,
    ok: &Option<String>,
    error: &Option<String>,
) -> (res: Result<ProfileView, String>)
    ensures
        match *session {
            Ok(user) => res matches Ok(view) && profiled(view, user)
                && crate::auth_ui::page::flash_view(view.flash) == crate::auth_ui::views::flash_in(
                *ok,
                *error,
            ),
            Err(_) => res matches Err(location) && location@ == crate::auth_ui::page::to_sign_in(
                "/account/profile"@,
            ),
        },
{
    match session {
        Ok(user) => {
            let email = unwrap_or_blank(&user.email);
            let email_line = cat(
                email.as_str(),
                if user.email_verified {
                    " — verified."
                } else {
                    " — not verified yet."
                },
            );
            Ok(
                ProfileView {
                    name: unwrap_or_blank(&user.name),
                    username: unwrap_or_blank(&user.username),
                    image: unwrap_or_blank(&user.image),
                    email,
                    email_line,
                    flash: flash_of(ok, error),
                },
            )
        },
        Err(_) => Err(sign_in_first("/account/profile")),
    }
}

/// `POST /account/profile` — the name and the avatar first. An empty box
/// clears its field: every box is always submitted.
pub fn save(token: Option<String>, form: &ProfileForm) -> (res: Begin<ProfileCommand>)
    ensures
        crate::auth_ui::page::begun(
            res,
            token,
            "/account/profile"@,
            |c: ProfileCommand, t: Seq<char>|
                c matches ProfileCommand::UpdateProfile { session_token, name, image }
                    && session_token@ == t && name@ == crate::text::trimmed(form.name@) && image@
                    == crate::text::trimmed(form.image@),
        ),
{
    match token {
        Some(session_token) => Begin::Ask(
            ProfileCommand::UpdateProfile {
                session_token,
                name: trim(form.name.as_str()),
                image: trim(form.image.as_str()),
            },
        ),
        None => Begin::Go(sign_in_first("/account/profile")),
    }
}

/// What a profile that was saved says.
pub open spec fn profile_saved() -> Seq<char> {
    crate::auth_ui::page::flashed(
        "/account/profile"@,
        crate::auth_ui::page::Said::Success("Profile saved."@),
    )
}

/// The username is a command of its own, because it can collide with
/// somebody else's: it is asked for once the rest was saved, and only where
/// one was typed.
pub fn saved(
    token: String,
    form: &ProfileForm,
    outcome: &Result<(), String>,
) -> (res: Begin<ProfileCommand>)
    ensures
        match *outcome {
            Err(e) => crate::auth_ui::page::sent_to(
                res,
                crate::auth_ui::page::flashed(
                    "/account/profile"@,
                    crate::auth_ui::page::Said::Error(e@),
                ),
            ),
            Ok(_) => if crate::text::trimmed(form.username@).len() == 0 {
                crate::auth_ui::page::sent_to(res, profile_saved())
            } else {
                res matches Begin::Ask(
                    ProfileCommand::UpdateUsername { session_token, username, display_username },
                ) && session_token == token && username@ == crate::text::trimmed(form.username@)
                    && display_username@ == crate::text::trimmed(form.username@)
            },
        },
{
    if let Err(e) = outcome {
        return Begin::Go(flash_to("/account/profile", &Flash::Error(copy(e))));
    }
    let username = trim(form.username.as_str());
    if username.as_str().unicode_len() == 0 {
        return Begin::Go(
            flash_to("/account/profile", &Flash::Success("Profile saved.".to_owned())),
        );
    }
    let display_username = copy(&username);
    Begin::Ask(
        ProfileCommand::UpdateUsername { session_token: token, username, display_username },
    )
}

pub fn username_saved(outcome: &Result<(), String>) -> (res: String)
    ensures
        res@ == crate::auth_ui::page::settled("/account/profile"@, "Profile saved."@, *outcome),
{
    settle("/account/profile", "Profile saved.", outcome)
}

/// `POST /account/email`
pub fn change_email(token: Option<String>, typed: &str) -> (res: Begin<ProfileCommand>)
    ensures
        crate::auth_ui::page::begun(
            res,
            token,
            "/account/profile"@,
            |c: ProfileCommand, t: Seq<char>|
                c matches ProfileCommand::ChangeEmail { session_token, new_email } && session_token@
                    == t && new_email@ == crate::text::trimmed(typed@),
        ),
{
    match token {
        Some(session_token) => Begin::Ask(
            ProfileCommand::ChangeEmail { session_token, new_email: trim(typed) },
        ),
        None => Begin::Go(sign_in_first("/account/profile")),
    }
}

/// Not "your address is now": the change may wait on the new address being
/// verified.
pub fn email_changed(outcome: &Result<(), String>) -> (res: String)
    ensures
        res@ == crate::auth_ui::page::settled(
            "/account/profile"@,
            "Check the new address for a confirmation link."@,
            *outcome,
        ),
{
    settle("/account/profile", "Check the new address for a confirmation link.", outcome)
}

/// `POST /account/password`: a mistyped confirmation is a typo in the form,
/// and never reaches the engine.
pub fn change_password(token: Option<String>, form: PasswordForm) -> (res: Begin<ProfileCommand>)
    ensures
        if token is Some && form.new_password@ != form.confirm_password@ {
            crate::auth_ui::page::sent_to(
                res,
                crate::auth_ui::page::flashed(
                    "/account/profile"@,
                    crate::auth_ui::page::Said::Error("The new passwords do not match."@),
                ),
            )
        } else {
            crate::auth_ui::page::begun(
                res,
                token,
                "/account/profile"@,
                |c: ProfileCommand, t: Seq<char>|
                    c matches ProfileCommand::ChangePassword {
                        session_token,
                        current_password,
                        new_password,
                    } && session_token@ == t && current_password@ == form.current_password@
                        && new_password@ == form.new_password@,
            )
        },
{
    let session_token = match token {
        Some(t) => t,
        None => return Begin::Go(sign_in_first("/account/profile")),
    };
    if !same(form.new_password.as_str(), form.confirm_password.as_str()) {
        return Begin::Go(
            flash_to(
                "/account/profile",
                &Flash::Error("The new passwords do not match.".to_owned()),
            ),
        );
    }
    Begin::Ask(
        ProfileCommand::ChangePassword {
            session_token,
            current_password: form.current_password,
            new_password: form.new_password,
        },
    )
}

pub fn password_changed(outcome: &Result<(), String>) -> (res: String)
    ensures
        res@ == crate::auth_ui::page::settled("/account/profile"@, "Password changed."@, *outcome),
{
    settle("/account/profile", "Password changed.", outcome)
}

/// A profile shows what the account holds, field by field, and what is missing as nothing;
/// beside the address it tells whether it was verified.
pub proof fn law_a_profile_shows_what_the_account_holds(view: ProfileView, user: AuthUser)
    requires
        profiled(view, user),
    ensures
        user.name is Some ==> view.name@ == user.name->0@,
        user.username is Some ==> view.username@ == user.username->0@,
        user.image is Some ==> view.image@ == user.image->0@,
        user.email is Some ==> view.email@ == user.email->0@,
        user.name is None ==> view.name@.len() == 0,
        user.username is None ==> view.username@.len() == 0,
        user.image is None ==> view.image@.len() == 0,
        user.email is None ==> view.email@.len() == 0,
        crate::text::begins(view.email_line@, view.email@),
        user.email_verified ==> crate::text::ends(view.email_line@, " verified."@),
        !user.email_verified ==> crate::text::ends(view.email_line@, " not verified yet."@),
{
    let line = view.email_line@;
    assert(line.subrange(0, view.email@.len() as int) =~= view.email@);
    reveal_strlit(" — verified.");
    reveal_strlit(" — not verified yet.");
    reveal_strlit(" verified.");
    reveal_strlit(" not verified yet.");
    if user.email_verified {
        let tail = " verified."@;
        assert(line.subrange(line.len() - tail.len(), line.len() as int) =~= tail);
    } else {
        let tail = " not verified yet."@;
        assert(line.subrange(line.len() - tail.len(), line.len() as int) =~= tail);
    }
}

} // verus!
