//! Organizations: the list, one organization, and the two ways in.
//!
//! An invitation names an address and is accepted once; a link names nobody
//! and admits everyone who follows it. Both are opened by a secret in the
//! URL, and both can be looked at without a session.

use crate::auth::expiry::{in_days, Moment};
use crate::auth::percent::encode_component;
use crate::auth_ui::dates::{count, expires_after};
use crate::auth_ui::page::{flash_to, settle, sign_in_first, with_session, Begin, Flash};
use crate::auth_ui::slug::slugify;
use crate::ids::uuid_text;
use crate::text::{cat, cat3, copy, trim};
use vstd::prelude::*;

verus! {

/// How long an emailed invitation stays good for: long enough to survive a
/// holiday, short enough that a forwarded mailbox is not a standing key.
pub const INVITATION_DAYS: i64 = 14;

/// What the pages ask of the engine about organizations.
#[derive(Clone, Debug, PartialEq, Eq)]
pub enum OrgCommand {
    Create { session_token: String, name: String, slug: String },
    Get { session_token: String, organization_id: u128 },
    /// `logo` is what the logo becomes: nothing where it is cleared.
    Update {
        session_token: String,
        organization_id: u128,
        name: String,
        slug: String,
        logo: Option<String>,
    },
    Delete { session_token: String, organization_id: u128 },
    Leave { session_token: String, organization_id: u128 },
    SetMemberRole { session_token: String, organization_id: u128, user_id: u128, role: String },
    RemoveMember { session_token: String, organization_id: u128, user_id: u128 },
    CreateTeam { session_token: String, organization_id: u128, name: String },
    DeleteTeam { session_token: String, organization_id: u128, team_id: u128 },
    AddTeamMember { session_token: String, organization_id: u128, team_id: u128, user_id: u128 },
    RemoveTeamMember { session_token: String, organization_id: u128, team_id: u128, user_id: u128 },
    CreateInvitation {
        session_token: String,
        organization_id: u128,
        email: String,
        role: String,
        expires_at: Moment,
    },
    CancelInvitation { session_token: String, invitation_id: u128 },
    CreateInviteLink {
        session_token: String,
        organization_id: u128,
        role: String,
        label: Option<String>,
        expires_at: Option<Moment>,
        max_uses: Option<i32>,
    },
    RevokeInviteLink { session_token: String, link_id: u128 },
    LinkAgent { session_token: String, agent_email: String, max_role: String },
    UnlinkAgent { session_token: String, link_id: u128 },
    AcceptInvitation { session_token: String, invitation_id: u128, token: String },
    ClaimInvitation { session_token: String, invitation_id: u128 },
    RedeemInviteLink { session_token: String, token: String },
    RejectInvitation { invitation_id: u128, token: String },
}

#[derive(Clone, Debug, PartialEq, Eq)]
pub struct CreateOrgForm {
    pub name: String,
    pub slug: String,
}

#[derive(Clone, Debug, PartialEq, Eq)]
pub struct UpdateOrgForm {
    pub name: String,
    pub slug: String,
    pub logo: String,
}

#[derive(Clone, Debug, PartialEq, Eq)]
pub struct MemberForm {
    pub user_id: u128,
    pub role: String,
}

#[derive(Clone, Debug, PartialEq, Eq)]
pub struct TeamForm {
    pub name: String,
    pub team_id: Option<u128>,
    pub user_id: Option<u128>,
}

#[derive(Clone, Debug, PartialEq, Eq)]
pub struct InviteForm {
    pub email: String,
    pub role: String,
}

#[derive(Clone, Debug, PartialEq, Eq)]
pub struct LinkForm {
    pub role: String,
    pub label: String,
    pub max_uses: String,
    pub expires_days: String,
}

#[derive(Clone, Debug, PartialEq, Eq)]
pub struct LinkAgentForm {
    pub agent_email: String,
    pub max_role: String,
}

/// The page of one organization.
pub open spec fn org_path(id: u128) -> Seq<char> {
    "/orgs/"@ + crate::ids::hyphenated(id)
}

/// The page of one organization.
pub fn path_of(id: u128) -> (res: String)
    ensures
        res@ == org_path(id),
{
    let text = uuid_text(id);
    cat("/orgs/", text.as_str())
}

// ---------------------------------------------------------------------------
// The list
// ---------------------------------------------------------------------------

/// `GET /orgs` — the list is for somebody who is signed in.
pub fn index(token: Option<String>) -> (res: Begin<String>)
    ensures
        crate::auth_ui::page::begun(
            res,
            token,
            "/orgs"@,
            |session: String, t: Seq<char>| session@ == t,
        ),
{
    with_session(token, "/orgs")
}

/// `POST /account/agents/link`
pub fn link_agent(token: Option<String>, form: LinkAgentForm) -> (res: Begin<OrgCommand>)
    ensures
        crate::auth_ui::page::begun(
            res,
            token,
            "/orgs"@,
            |c: OrgCommand, t: Seq<char>|
                c matches OrgCommand::LinkAgent { session_token, agent_email, max_role }
                    && session_token@ == t && agent_email@ == form.agent_email@ && max_role@
                    == form.max_role@,
        ),
{
    match token {
        Some(session_token) => Begin::Ask(
            OrgCommand::LinkAgent {
                session_token,
                agent_email: form.agent_email,
                max_role: form.max_role,
            },
        ),
        None => Begin::Go(sign_in_first("/orgs")),
    }
}

pub fn agent_linked(outcome: &Result<(), String>) -> (res: String)
    ensures
        res@ == crate::auth_ui::page::settled("/orgs"@, "Agent linked."@, *outcome),
{
    settle("/orgs", "Agent linked.", outcome)
}

/// `POST /account/agents/unlink`
pub fn unlink_agent(token: Option<String>, link: u128) -> (res: Begin<OrgCommand>)
    ensures
        crate::auth_ui::page::begun(
            res,
            token,
            "/orgs"@,
            |c: OrgCommand, t: Seq<char>|
                c matches OrgCommand::UnlinkAgent { session_token, link_id } && session_token@ == t
                    && link_id == link,
        ),
{
    match token {
        Some(session_token) => Begin::Ask(
            OrgCommand::UnlinkAgent { session_token, link_id: link },
        ),
        None => Begin::Go(sign_in_first("/orgs")),
    }
}

pub fn agent_unlinked(outcome: &Result<(), String>) -> (res: String)
    ensures
        res@ == crate::auth_ui::page::settled("/orgs"@, "Agent removed."@, *outcome),
{
    settle("/orgs", "Agent removed.", outcome)
}

/// The slug a form asks for: the one typed, or one made from the name.
pub open spec fn slug_for(form: CreateOrgForm) -> Seq<char> {
    let typed = crate::text::trimmed(form.slug@);
    if typed.len() == 0 {
        crate::auth_ui::slug::slug(form.name@)
    } else {
        typed
    }
}

/// `POST /orgs`: an empty slug is derived from the name.
pub fn create(token: Option<String>, form: &CreateOrgForm) -> (res: Begin<OrgCommand>)
    ensures
        crate::auth_ui::page::begun(
            res,
            token,
            "/orgs"@,
            |c: OrgCommand, t: Seq<char>|
                c matches OrgCommand::Create { session_token, name, slug } && session_token@ == t
                    && name@ == crate::text::trimmed(form.name@) && slug@ == slug_for(*form),
        ),
{
    let session_token = match token {
        Some(t) => t,
        None => return Begin::Go(sign_in_first("/orgs")),
    };
    let typed = trim(form.slug.as_str());
    let slug = if typed.as_str().unicode_len() == 0 {
        slugify(form.name.as_str())
    } else {
        typed
    };
    Begin::Ask(OrgCommand::Create { session_token, name: trim(form.name.as_str()), slug })
}

/// On to the new organization, or back to the list with the refusal.
pub fn created(outcome: &Result<u128, String>) -> (res: String)
    ensures
        res@ == match *outcome {
            Ok(id) => org_path(id),
            Err(e) => crate::auth_ui::page::flashed(
                "/orgs"@,
                crate::auth_ui::page::Said::Error(e@),
            ),
        },
{
    match outcome {
        Ok(id) => path_of(*id),
        Err(e) => flash_to("/orgs", &Flash::Error(copy(e))),
    }
}

// ---------------------------------------------------------------------------
// One organization
// ---------------------------------------------------------------------------

/// `GET /orgs/{id}`
pub fn show(token: Option<String>, id: u128) -> (res: Begin<OrgCommand>)
    ensures
        crate::auth_ui::page::begun(
            res,
            token,
            org_path(id),
            |c: OrgCommand, t: Seq<char>|
                c matches OrgCommand::Get { session_token, organization_id } && session_token@ == t
                    && organization_id == id,
        ),
{
    match token {
        Some(session_token) => Begin::Ask(OrgCommand::Get { session_token, organization_id: id }),
        None => Begin::Go(sign_in_first(path_of(id).as_str())),
    }
}

/// `POST /orgs/{id}` — rename, re-slug, set the logo. An empty box clears
/// the logo rather than leaving the old one in place.
pub fn update(token: Option<String>, id: u128, form: &UpdateOrgForm) -> (res: Begin<OrgCommand>)
    ensures
        crate::auth_ui::page::begun(
            res,
            token,
            org_path(id),
            |c: OrgCommand, t: Seq<char>|
                c matches OrgCommand::Update { session_token, organization_id, name, slug, logo }
                    && session_token@ == t && organization_id == id && name@
                    == crate::text::trimmed(form.name@) && slug@ == crate::text::trimmed(form.slug@)
                    && crate::text::opt_view(logo) == filled(form.logo@),
        ),
{
    match token {
        Some(session_token) => Begin::Ask(
            OrgCommand::Update {
                session_token,
                organization_id: id,
                name: trim(form.name.as_str()),
                slug: trim(form.slug.as_str()),
                logo: fill(form.logo.as_str()),
            },
        ),
        None => Begin::Go(sign_in_first(path_of(id).as_str())),
    }
}

/// What a box holds, where it holds anything.
pub open spec fn filled(typed: Seq<char>) -> Option<Seq<char>> {
    let text = crate::text::trimmed(typed);
    if text.len() == 0 {
        None
    } else {
        Some(text)
    }
}

/// What a box holds, without the white space round it.
pub fn fill(typed: &str) -> (res: Option<String>)
    ensures
        crate::text::opt_view(res) == filled(typed@),
{
    let text = trim(typed);
    if text.as_str().unicode_len() == 0 {
        None
    } else {
        Some(text)
    }
}

pub fn updated(id: u128, outcome: &Result<(), String>) -> (res: String)
    ensures
        res@ == crate::auth_ui::page::settled(org_path(id), "Organization saved."@, *outcome),
{
    settle(path_of(id).as_str(), "Organization saved.", outcome)
}

/// `POST /orgs/{id}/delete`
pub fn delete(token: Option<String>, id: u128) -> (res: Begin<OrgCommand>)
    ensures
        crate::auth_ui::page::begun(
            res,
            token,
            org_path(id),
            |c: OrgCommand, t: Seq<char>|
                c matches OrgCommand::Delete { session_token, organization_id } && session_token@
                    == t && organization_id == id,
        ),
{
    match token {
        Some(session_token) => Begin::Ask(
            OrgCommand::Delete { session_token, organization_id: id },
        ),
        None => Begin::Go(sign_in_first(path_of(id).as_str())),
    }
}

/// What an organization that is gone says: on the list where it went, on
/// its own page where it did not.
pub open spec fn departed(id: u128, success: Seq<char>, outcome: Result<(), String>) -> Seq<char> {
    match outcome {
        Ok(_) => crate::auth_ui::page::flashed(
            "/orgs"@,
            crate::auth_ui::page::Said::Success(success),
        ),
        Err(e) => crate::auth_ui::page::flashed(
            org_path(id),
            crate::auth_ui::page::Said::Error(e@),
        ),
    }
}

fn depart(id: u128, success: &str, outcome: &Result<(), String>) -> (res: String)
    ensures
        res@ == departed(id, success@, *outcome),
{
    match outcome {
        Ok(_) => flash_to("/orgs", &Flash::Success(success.to_owned())),
        Err(e) => flash_to(path_of(id).as_str(), &Flash::Error(copy(e))),
    }
}

pub fn deleted(id: u128, outcome: &Result<(), String>) -> (res: String)
    ensures
        res@ == departed(id, "Organization deleted."@, *outcome),
{
    depart(id, "Organization deleted.", outcome)
}

/// `POST /orgs/{id}/leave`
pub fn leave(token: Option<String>, id: u128) -> (res: Begin<OrgCommand>)
    ensures
        crate::auth_ui::page::begun(
            res,
            token,
            org_path(id),
            |c: OrgCommand, t: Seq<char>|
                c matches OrgCommand::Leave { session_token, organization_id } && session_token@
                    == t && organization_id == id,
        ),
{
    match token {
        Some(session_token) => Begin::Ask(OrgCommand::Leave { session_token, organization_id: id }),
        None => Begin::Go(sign_in_first(path_of(id).as_str())),
    }
}

pub fn left(id: u128, outcome: &Result<(), String>) -> (res: String)
    ensures
        res@ == departed(id, "You have left the organization."@, *outcome),
{
    depart(id, "You have left the organization.", outcome)
}

/// `POST /orgs/{id}/members/role`
pub fn set_role(token: Option<String>, id: u128, form: MemberForm) -> (res: Begin<OrgCommand>)
    ensures
        crate::auth_ui::page::begun(
            res,
            token,
            org_path(id),
            |c: OrgCommand, t: Seq<char>|
                c matches OrgCommand::SetMemberRole {
                    session_token,
                    organization_id,
                    user_id,
                    role,
                } && session_token@ == t && organization_id == id && user_id == form.user_id
                    && role@ == form.role@,
        ),
{
    match token {
        Some(session_token) => Begin::Ask(
            OrgCommand::SetMemberRole {
                session_token,
                organization_id: id,
                user_id: form.user_id,
                role: form.role,
            },
        ),
        None => Begin::Go(sign_in_first(path_of(id).as_str())),
    }
}

pub fn role_set(id: u128, outcome: &Result<(), String>) -> (res: String)
    ensures
        res@ == crate::auth_ui::page::settled(org_path(id), "Role updated."@, *outcome),
{
    settle(path_of(id).as_str(), "Role updated.", outcome)
}

/// `POST /orgs/{id}/members/remove`
pub fn remove_member(token: Option<String>, id: u128, form: &MemberForm) -> (res: Begin<OrgCommand>)
    ensures
        crate::auth_ui::page::begun(
            res,
            token,
            org_path(id),
            |c: OrgCommand, t: Seq<char>|
                c matches OrgCommand::RemoveMember { session_token, organization_id, user_id }
                    && session_token@ == t && organization_id == id && user_id == form.user_id,
        ),
{
    match token {
        Some(session_token) => Begin::Ask(
            OrgCommand::RemoveMember {
                session_token,
                organization_id: id,
                user_id: form.user_id,
            },
        ),
        None => Begin::Go(sign_in_first(path_of(id).as_str())),
    }
}

pub fn member_removed(id: u128, outcome: &Result<(), String>) -> (res: String)
    ensures
        res@ == crate::auth_ui::page::settled(org_path(id), "Member removed."@, *outcome),
{
    settle(path_of(id).as_str(), "Member removed.", outcome)
}

// ---------------------------------------------------------------------------
// Teams
// ---------------------------------------------------------------------------

/// `POST /orgs/{id}/teams`
pub fn create_team(token: Option<String>, id: u128, form: &TeamForm) -> (res: Begin<OrgCommand>)
    ensures
        crate::auth_ui::page::begun(
            res,
            token,
            org_path(id),
            |c: OrgCommand, t: Seq<char>|
                c matches OrgCommand::CreateTeam { session_token, organization_id, name }
                    && session_token@ == t && organization_id == id && name@
                    == crate::text::trimmed(form.name@),
        ),
{
    match token {
        Some(session_token) => Begin::Ask(
            OrgCommand::CreateTeam {
                session_token,
                organization_id: id,
                name: trim(form.name.as_str()),
            },
        ),
        None => Begin::Go(sign_in_first(path_of(id).as_str())),
    }
}

pub fn team_created(id: u128, outcome: &Result<(), String>) -> (res: String)
    ensures
        res@ == crate::auth_ui::page::settled(org_path(id), "Team created."@, *outcome),
{
    settle(path_of(id).as_str(), "Team created.", outcome)
}

/// A handler that turns a form away with these words.
pub open spec fn turned_away(begin: Begin<OrgCommand>, id: u128, words: Seq<char>) -> bool {
    crate::auth_ui::page::sent_to(
        begin,
        crate::auth_ui::page::flashed(org_path(id), crate::auth_ui::page::Said::Error(words)),
    )
}

fn turn_away(id: u128, words: &str) -> (res: Begin<OrgCommand>)
    ensures
        turned_away(res, id, words@),
{
    Begin::Go(flash_to(path_of(id).as_str(), &Flash::Error(words.to_owned())))
}

/// `POST /orgs/{id}/teams/delete`
pub fn delete_team(token: Option<String>, id: u128, form: &TeamForm) -> (res: Begin<OrgCommand>)
    ensures
        match (token, form.team_id) {
            (Some(_), None) => turned_away(res, id, "No team was named."@),
            _ => crate::auth_ui::page::begun(
                res,
                token,
                org_path(id),
                |c: OrgCommand, t: Seq<char>|
                    c matches OrgCommand::DeleteTeam { session_token, organization_id, team_id }
                        && session_token@ == t && organization_id == id && form.team_id == Some(
                        team_id,
                    ),
            ),
        },
{
    let session_token = match token {
        Some(t) => t,
        None => return Begin::Go(sign_in_first(path_of(id).as_str())),
    };
    match form.team_id {
        Some(team_id) => Begin::Ask(
            OrgCommand::DeleteTeam { session_token, organization_id: id, team_id },
        ),
        None => turn_away(id, "No team was named."),
    }
}

pub fn team_deleted(id: u128, outcome: &Result<(), String>) -> (res: String)
    ensures
        res@ == crate::auth_ui::page::settled(org_path(id), "Team deleted."@, *outcome),
{
    settle(path_of(id).as_str(), "Team deleted.", outcome)
}

/// `POST /orgs/{id}/teams/members`
pub fn add_team_member(token: Option<String>, id: u128, form: &TeamForm) -> (res: Begin<OrgCommand>)
    ensures
        if token is Some && (form.team_id is None || form.user_id is None) {
            turned_away(res, id, "Pick a team and a person."@)
        } else {
            crate::auth_ui::page::begun(
                res,
                token,
                org_path(id),
                |c: OrgCommand, t: Seq<char>|
                    c matches OrgCommand::AddTeamMember {
                        session_token,
                        organization_id,
                        team_id,
                        user_id,
                    } && session_token@ == t && organization_id == id && form.team_id == Some(
                        team_id,
                    ) && form.user_id == Some(user_id),
            )
        },
{
    let session_token = match token {
        Some(t) => t,
        None => return Begin::Go(sign_in_first(path_of(id).as_str())),
    };
    match (form.team_id, form.user_id) {
        (Some(team_id), Some(user_id)) => Begin::Ask(
            OrgCommand::AddTeamMember { session_token, organization_id: id, team_id, user_id },
        ),
        _ => turn_away(id, "Pick a team and a person."),
    }
}

pub fn team_member_added(id: u128, outcome: &Result<(), String>) -> (res: String)
    ensures
        res@ == crate::auth_ui::page::settled(org_path(id), "Added to the team."@, *outcome),
{
    settle(path_of(id).as_str(), "Added to the team.", outcome)
}

/// `POST /orgs/{id}/teams/members/remove`
pub fn remove_team_member(token: Option<String>, id: u128, form: &TeamForm) -> (res: Begin<
    OrgCommand,
>)
    ensures
        if token is Some && (form.team_id is None || form.user_id is None) {
            turned_away(res, id, "Pick a team and a person."@)
        } else {
            crate::auth_ui::page::begun(
                res,
                token,
                org_path(id),
                |c: OrgCommand, t: Seq<char>|
                    c matches OrgCommand::RemoveTeamMember {
                        session_token,
                        organization_id,
                        team_id,
                        user_id,
                    } && session_token@ == t && organization_id == id && form.team_id == Some(
                        team_id,
                    ) && form.user_id == Some(user_id),
            )
        },
{
    let session_token = match token {
        Some(t) => t,
        None => return Begin::Go(sign_in_first(path_of(id).as_str())),
    };
    match (form.team_id, form.user_id) {
        (Some(team_id), Some(user_id)) => Begin::Ask(
            OrgCommand::RemoveTeamMember { session_token, organization_id: id, team_id, user_id },
        ),
        _ => turn_away(id, "Pick a team and a person."),
    }
}

pub fn team_member_removed(id: u128, outcome: &Result<(), String>) -> (res: String)
    ensures
        res@ == crate::auth_ui::page::settled(org_path(id), "Removed from the team."@, *outcome),
{
    settle(path_of(id).as_str(), "Removed from the team.", outcome)
}

// ---------------------------------------------------------------------------
// Invitations
// ---------------------------------------------------------------------------

/// `POST /orgs/{id}/invitations`
pub fn invite(token: Option<String>, id: u128, form: &InviteForm) -> (res: Begin<OrgCommand>)
    ensures
        crate::auth_ui::page::begun(
            res,
            token,
            org_path(id),
            |c: OrgCommand, t: Seq<char>|
                c matches OrgCommand::CreateInvitation {
                    session_token,
                    organization_id,
                    email,
                    role,
                    expires_at,
                } && session_token@ == t && organization_id == id && email@
                    == crate::text::trimmed(form.email@) && role@ == form.role@
                    && crate::auth::expiry::due_in(expires_at, INVITATION_DAYS as int),
        ),
{
    match token {
        Some(session_token) => Begin::Ask(
            OrgCommand::CreateInvitation {
                session_token,
                organization_id: id,
                email: trim(form.email.as_str()),
                role: copy(&form.role),
                expires_at: in_days(INVITATION_DAYS),
            },
        ),
        None => Begin::Go(sign_in_first(path_of(id).as_str())),
    }
}

/// An invitation the engine made: its id, and the secret that opens it.
#[derive(Clone, Debug, PartialEq, Eq)]
pub struct MintedInvitation {
    pub id: u128,
    pub token: String,
}

/// Where a fresh secret is shown once: on the organization's page, in a
/// parameter of its own.
pub open spec fn minted_at(id: u128, url: Seq<char>) -> Seq<char> {
    org_path(id) + "?token="@ + crate::auth_ui::page::as_value(url)
}

fn at_minted(id: u128, url: &str) -> (res: String)
    ensures
        res@ == minted_at(id, url@),
{
    let path = path_of(id);
    let encoded = encode_component(url);
    cat3(path.as_str(), "?token=", encoded.as_str())
}

/// The URL an invitation is opened with.
pub open spec fn invitation_url(invitation: MintedInvitation) -> Seq<char> {
    "/invite/"@ + crate::ids::hyphenated(invitation.id) + "?token="@ + invitation.token@
}

/// The token goes back in the redirect, so that the page can show the link
/// to copy: it is not stored anywhere legible.
pub fn invited(id: u128, outcome: &Result<MintedInvitation, String>) -> (res: String)
    ensures
        res@ == match *outcome {
            Ok(made) => crate::auth_ui::page::flashed(
                minted_at(id, invitation_url(made)),
                crate::auth_ui::page::Said::Success("Invitation created."@),
            ),
            Err(e) => crate::auth_ui::page::flashed(
                org_path(id),
                crate::auth_ui::page::Said::Error(e@),
            ),
        },
{
    match outcome {
        Ok(made) => {
            let text = uuid_text(made.id);
            let mut url = cat3("/invite/", text.as_str(), "?token=");
            url.append(made.token.as_str());
            let at = at_minted(id, url.as_str());
            flash_to(at.as_str(), &Flash::Success("Invitation created.".to_owned()))
        },
        Err(e) => flash_to(path_of(id).as_str(), &Flash::Error(copy(e))),
    }
}

/// `POST /orgs/{id}/invitations/cancel`
pub fn cancel_invitation(token: Option<String>, id: u128, invitation: u128) -> (res: Begin<
    OrgCommand,
>)
    ensures
        crate::auth_ui::page::begun(
            res,
            token,
            org_path(id),
            |c: OrgCommand, t: Seq<char>|
                c matches OrgCommand::CancelInvitation { session_token, invitation_id }
                    && session_token@ == t && invitation_id == invitation,
        ),
{
    match token {
        Some(session_token) => Begin::Ask(
            OrgCommand::CancelInvitation { session_token, invitation_id: invitation },
        ),
        None => Begin::Go(sign_in_first(path_of(id).as_str())),
    }
}

pub fn invitation_cancelled(id: u128, outcome: &Result<(), String>) -> (res: String)
    ensures
        res@ == crate::auth_ui::page::settled(org_path(id), "Invitation cancelled."@, *outcome),
{
    settle(path_of(id).as_str(), "Invitation cancelled.", outcome)
}

// ---------------------------------------------------------------------------
// Invite links
// ---------------------------------------------------------------------------

/// `POST /orgs/{id}/links`: blank is "no limit" for the uses and the days.
pub fn create_link(token: Option<String>, id: u128, form: &LinkForm) -> (res: Begin<OrgCommand>)
    ensures
        crate::auth_ui::page::begun(
            res,
            token,
            org_path(id),
            |c: OrgCommand, t: Seq<char>|
                c matches OrgCommand::CreateInviteLink {
                    session_token,
                    organization_id,
                    role,
                    label,
                    expires_at,
                    max_uses,
                } && session_token@ == t && organization_id == id && role@ == form.role@
                    && crate::text::opt_view(label) == filled(form.label@)
                    && crate::auth_ui::dates::deadline(form.expires_days@, expires_at) && (
                match max_uses {
                    Some(n) => crate::auth_ui::dates::positive(form.max_uses@, i32::MAX as int)
                        == Some(n as int),
                    None => crate::auth_ui::dates::positive(form.max_uses@, i32::MAX as int)
                        is None,
                }),
        ),
{
    let session_token = match token {
        Some(t) => t,
        None => return Begin::Go(sign_in_first(path_of(id).as_str())),
    };
    let max_uses = count(form.max_uses.as_str());
    let expires_at = expires_after(form.expires_days.as_str());
    Begin::Ask(
        OrgCommand::CreateInviteLink {
            session_token,
            organization_id: id,
            role: copy(&form.role),
            label: fill(form.label.as_str()),
            expires_at,
            max_uses,
        },
    )
}

/// The secret of a fresh link goes back in the redirect, once.
pub fn link_created(id: u128, outcome: &Result<String, String>) -> (res: String)
    ensures
        res@ == match *outcome {
            Ok(secret) => crate::auth_ui::page::flashed(
                minted_at(id, "/join?token="@ + secret@),
                crate::auth_ui::page::Said::Success("Invite link created."@),
            ),
            Err(e) => crate::auth_ui::page::flashed(
                org_path(id),
                crate::auth_ui::page::Said::Error(e@),
            ),
        },
{
    match outcome {
        Ok(secret) => {
            let url = cat("/join?token=", secret.as_str());
            let at = at_minted(id, url.as_str());
            flash_to(at.as_str(), &Flash::Success("Invite link created.".to_owned()))
        },
        Err(e) => flash_to(path_of(id).as_str(), &Flash::Error(copy(e))),
    }
}

/// `POST /orgs/{id}/links/revoke`
pub fn revoke_link(token: Option<String>, id: u128, link: u128) -> (res: Begin<OrgCommand>)
    ensures
        crate::auth_ui::page::begun(
            res,
            token,
            org_path(id),
            |c: OrgCommand, t: Seq<char>|
                c matches OrgCommand::RevokeInviteLink { session_token, link_id } && session_token@
                    == t && link_id == link,
        ),
{
    match token {
        Some(session_token) => Begin::Ask(
            OrgCommand::RevokeInviteLink { session_token, link_id: link },
        ),
        None => Begin::Go(sign_in_first(path_of(id).as_str())),
    }
}

pub fn link_revoked(id: u128, outcome: &Result<(), String>) -> (res: String)
    ensures
        res@ == crate::auth_ui::page::settled(org_path(id), "Link revoked."@, *outcome),
{
    settle(path_of(id).as_str(), "Link revoked.", outcome)
}

// ---------------------------------------------------------------------------
// Coming in
// ---------------------------------------------------------------------------

/// Where an invitation's answer goes back to: its own page where it came
/// from a link, and the list where it came from the account page, which has
/// no link to carry.
pub open spec fn invitation_back(id: u128, token: Seq<char>) -> Seq<char> {
    if token.len() == 0 {
        "/orgs"@
    } else {
        "/invite/"@ + crate::ids::hyphenated(id) + "?token="@ + crate::auth_ui::page::as_value(
            token,
        )
    }
}

fn back_to_invitation(id: u128, token: &str) -> (res: String)
    ensures
        res@ == invitation_back(id, token@),
{
    if token.unicode_len() == 0 {
        "/orgs".to_owned()
    } else {
        let text = uuid_text(id);
        let encoded = encode_component(token);
        let mut back = cat3("/invite/", text.as_str(), "?token=");
        back.append(encoded.as_str());
        back
    }
}

/// `POST /invite/{id}/accept`: with a token the link is the proof; without
/// one, the address of whoever is signed in.
pub fn accept_invitation(session: Option<String>, id: u128, secret: &str) -> (res: Begin<
    OrgCommand,
>)
    ensures
        crate::auth_ui::page::begun(
            res,
            session,
            invitation_back(id, secret@),
            |c: OrgCommand, t: Seq<char>|
                if secret@.len() == 0 {
                    c matches OrgCommand::ClaimInvitation { session_token, invitation_id }
                        && session_token@ == t && invitation_id == id
                } else {
                    c matches OrgCommand::AcceptInvitation { session_token, invitation_id, token }
                        && session_token@ == t && invitation_id == id && token@ == secret@
                },
        ),
{
    let session_token = match session {
        Some(t) => t,
        None => {
            let back = back_to_invitation(id, secret);
            return Begin::Go(sign_in_first(back.as_str()));
        },
    };
    if secret.unicode_len() == 0 {
        Begin::Ask(OrgCommand::ClaimInvitation { session_token, invitation_id: id })
    } else {
        Begin::Ask(
            OrgCommand::AcceptInvitation {
                session_token,
                invitation_id: id,
                token: secret.to_owned(),
            },
        )
    }
}

pub fn invitation_accepted(id: u128, secret: &str, outcome: &Result<(), String>) -> (res: String)
    ensures
        res@ == match *outcome {
            Ok(_) => crate::auth_ui::page::flashed(
                "/orgs"@,
                crate::auth_ui::page::Said::Success("You have joined."@),
            ),
            Err(e) => crate::auth_ui::page::flashed(
                invitation_back(id, secret@),
                crate::auth_ui::page::Said::Error(e@),
            ),
        },
{
    match outcome {
        Ok(_) => flash_to("/orgs", &Flash::Success("You have joined.".to_owned())),
        Err(e) => {
            let back = back_to_invitation(id, secret);
            flash_to(back.as_str(), &Flash::Error(copy(e)))
        },
    }
}

/// `POST /invite/{id}/reject`: no session is needed. Whoever holds the token
/// is who the invitation was for.
pub fn reject_invitation(id: u128, secret: &str) -> (res: OrgCommand)
    ensures
        res matches OrgCommand::RejectInvitation { invitation_id, token } && invitation_id == id
            && token@ == secret@,
{
    OrgCommand::RejectInvitation { invitation_id: id, token: secret.to_owned() }
}

/// The page an invite link lands on.
pub open spec fn join_path(token: Seq<char>) -> Seq<char> {
    "/join?token="@ + crate::auth_ui::page::as_value(token)
}

fn path_to_join(token: &str) -> (res: String)
    ensures
        res@ == join_path(token@),
{
    let encoded = encode_component(token);
    cat("/join?token=", encoded.as_str())
}

/// `POST /join`
pub fn join(session: Option<String>, secret: &str) -> (res: Begin<OrgCommand>)
    ensures
        crate::auth_ui::page::begun(
            res,
            session,
            join_path(secret@),
            |c: OrgCommand, t: Seq<char>|
                c matches OrgCommand::RedeemInviteLink { session_token, token } && session_token@
                    == t && token@ == secret@,
        ),
{
    match session {
        Some(session_token) => Begin::Ask(
            OrgCommand::RedeemInviteLink { session_token, token: secret.to_owned() },
        ),
        None => {
            let back = path_to_join(secret);
            Begin::Go(sign_in_first(back.as_str()))
        },
    }
}

/// On to the organization that was joined, or back to the link's page.
pub fn joined(secret: &str, outcome: &Result<u128, String>) -> (res: String)
    ensures
        res@ == match *outcome {
            Ok(organization) => crate::auth_ui::page::flashed(
                org_path(organization),
                crate::auth_ui::page::Said::Success("You have joined."@),
            ),
            Err(e) => crate::auth_ui::page::flashed(
                join_path(secret@),
                crate::auth_ui::page::Said::Error(e@),
            ),
        },
{
    match outcome {
        Ok(organization) => flash_to(
            path_of(*organization).as_str(),
            &Flash::Success("You have joined.".to_owned()),
        ),
        Err(e) => {
            let back = path_to_join(secret);
            flash_to(back.as_str(), &Flash::Error(copy(e)))
        },
    }
}

/// What is typed counts without the white space around it, and as nothing where there is
/// nothing else; a slug that is not typed is made of the name.
pub proof fn law_what_is_left_blank_is_left_out(
    form: CreateOrgForm,
    a: Seq<char>,
    text: Seq<char>,
    b: Seq<char>,
)
    requires
        crate::text::blank(a),
        crate::text::blank(b),
        crate::text::trim_free(text),
    ensures
        text.len() > 0 ==> filled(a + text + b) == Some(text),
        text.len() == 0 ==> filled(a + text + b) is None,
        form.slug@ == a + text + b && text.len() > 0 ==> slug_for(form) == text,
        form.slug@ == a + text + b && text.len() == 0 ==> slug_for(form)
            == crate::auth_ui::slug::slug(form.name@),
{
    crate::text::law_trimming_takes_the_white_space_around(a, text, b);
}

proof fn lemma_a_path_holds_no_query(front: Seq<char>, id: u128)
    requires
        !front.contains('?'),
    ensures
        !(front + crate::ids::hyphenated(id)).contains('?'),
{
    let s = front + crate::ids::hyphenated(id);
    crate::ids::law_an_id_is_written_in_five_groups(id);
    assert forall|i: int| 0 <= i < s.len() implies s[i] != '?' by {
        if i < front.len() {
            assert(s[i] == front[i]);
            assert(front.contains(front[i]));
        } else {
            assert(s[i] == crate::ids::hyphenated(id)[i - front.len()]);
        }
    }
}

/// Every organization has a page of its own.
pub proof fn law_every_organization_has_its_own_page(a: u128, b: u128)
    requires
        org_path(a) == org_path(b),
    ensures
        a == b,
{
    let n = "/orgs/"@.len() as int;
    assert(org_path(a).skip(n) =~= crate::ids::hyphenated(a));
    assert(org_path(b).skip(n) =~= crate::ids::hyphenated(b));
    crate::ids::law_ids_are_told_apart(a, b);
}

/// Leaving an organization, or deleting it, leads to the list of those that are left; where
/// it fails, back to the organization with the reason.
pub proof fn law_who_is_gone_goes_to_the_list(
    id: u128,
    success: Seq<char>,
    outcome: Result<(), String>,
)
    ensures
        outcome is Ok ==> crate::auth_ui::page::carries(
            departed(id, success, outcome),
            "/orgs"@,
            "ok"@,
            success,
        ),
        outcome is Err ==> crate::auth_ui::page::carries(
            departed(id, success, outcome),
            "/orgs/"@ + crate::ids::hyphenated(id),
            "error"@,
            outcome->Err_0@,
        ),
{
    crate::auth_ui::page::law_a_redirect_carries_what_it_says::<()>(
        "/orgs"@,
        "ok"@,
        success,
        Ok(()),
    );
    if let Err(e) = outcome {
        crate::auth_ui::page::law_a_redirect_carries_what_it_says::<()>(
            org_path(id),
            "error"@,
            e@,
            Ok(()),
        );
    }
}

/// What was minted is shown on the organization's page, and reads as it was minted; an
/// invitation and a link lead back to themselves with their secret, an invitation without
/// one to the list.
pub proof fn law_a_secret_is_carried_whole(
    id: u128,
    url: Seq<char>,
    token: Seq<char>,
    invitation: MintedInvitation,
)
    ensures
        crate::auth_ui::page::carries(
            minted_at(id, url),
            "/orgs/"@ + crate::ids::hyphenated(id),
            "token"@,
            url,
        ),
        token.len() > 0 ==> crate::auth_ui::page::carries(
            invitation_back(id, token),
            "/invite/"@ + crate::ids::hyphenated(id),
            "token"@,
            token,
        ),
        token.len() == 0 ==> invitation_back(id, token) == "/orgs"@,
        crate::auth_ui::page::carries(join_path(token), "/join"@, "token"@, token),
        invitation_url(invitation) == "/invite/"@ + crate::ids::hyphenated(invitation.id) + seq![
            '?',
        ] + "token"@ + seq!['='] + invitation.token@,
{
    crate::auth_ui::page::law_a_value_is_read_back(url);
    crate::auth_ui::page::law_a_value_is_read_back(token);
    reveal_strlit("/orgs/");
    reveal_strlit("/invite/");
    reveal_strlit("/join");
    reveal_strlit("token");
    reveal_strlit("?token=");
    reveal_strlit("/join?token=");
    assert("?token="@ =~= seq!['?'] + "token"@ + seq!['=']);
    assert(!"/orgs/"@.contains('?'));
    assert(!"/invite/"@.contains('?'));
    assert(!"/join"@.contains('?'));
    lemma_a_path_holds_no_query("/orgs/"@, id);
    lemma_a_path_holds_no_query("/invite/"@, id);
    assert(minted_at(id, url) =~= "/orgs/"@ + crate::ids::hyphenated(id) + seq!['?'] + "token"@
        + seq!['='] + crate::auth_ui::page::as_value(url));
    let v = crate::auth_ui::page::as_value(token);
    assert(join_path(token) =~= "/join"@ + seq!['?'] + "token"@ + seq!['='] + v);
    if token.len() > 0 {
        assert(invitation_back(id, token) =~= "/invite/"@ + crate::ids::hyphenated(id) + seq!['?']
            + "token"@ + seq!['='] + v);
    }
    assert(invitation_url(invitation) =~= "/invite/"@ + crate::ids::hyphenated(invitation.id)
        + seq!['?'] + "token"@ + seq!['='] + invitation.token@);
}

/// An invitation that is due after the usual time is due two weeks after it was made, or
/// at the end of time.
pub proof fn law_an_invitation_lasts_two_weeks(at: crate::auth::expiry::Moment)
    requires
        crate::auth::expiry::due_in(at, INVITATION_DAYS as int),
    ensures
        at == crate::auth::expiry::latest() || exists|now: crate::auth::expiry::Moment| #[trigger]
            crate::auth::expiry::told(now) && at.secs == now.secs + 1_209_600,
{
    let now = choose|now: crate::auth::expiry::Moment|
        crate::auth::expiry::told(now) && at == #[trigger] crate::auth::expiry::moment_after(
            now,
            crate::auth::expiry::days_in_seconds(INVITATION_DAYS as int),
        );
    assert(crate::auth::expiry::told(now));
}

/// Whoever is turned away comes back to the organization, with the reason, and nothing is
/// asked for.
pub proof fn law_who_is_turned_away_is_told_why(begin: Begin<OrgCommand>, id: u128, words: Seq<char>)
    requires
        turned_away(begin, id, words),
    ensures
        begin is Go,
        crate::auth_ui::page::carries(
            begin->Go_0@,
            "/orgs/"@ + crate::ids::hyphenated(id),
            "error"@,
            words,
        ),
{
    crate::auth_ui::page::law_a_redirect_carries_what_it_says::<()>(
        org_path(id),
        "error"@,
        words,
        Ok(()),
    );
}

} // verus!
