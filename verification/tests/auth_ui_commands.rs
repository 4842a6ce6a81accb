//! What the pages ask of the engine, and where its answer leads.

use architect::auth_ui::orgs::{
    agent_linked, agent_unlinked, cancel_invitation, create_team, invitation_cancelled, leave,
    left, link_agent, link_revoked, member_removed, remove_member, remove_team_member, revoke_link,
    set_role, team_created, team_deleted, team_member_added, team_member_removed, unlink_agent,
    updated, LinkAgentForm, MemberForm, OrgCommand, TeamForm,
};
use architect::auth_ui::page::Begin;
use architect::auth_ui::passkeys::{
    begin_registration, complete_registration, complete_sign_in, registration_begun,
    registration_completed, sign_in_begun, FinishRegistration, FinishSignIn, PasskeyChallenge,
    PasskeyCommand, PasskeyReply,
};
use architect::auth_ui::profile::{
    change_email, change_password, email_changed, password_changed, username_saved, PasswordForm,
    ProfileCommand,
};
use architect::auth_ui::sessions::{others_revoked, revoke, revoked, SessionCommand};
use architect::auth_ui::{api_keys, device, guest, login, orgs};

const ORG: u128 = 7;
const PATH: &str = "/orgs/00000000-0000-0000-0000-000000000007";

fn signed() -> Option<String> {
    Some("t".to_owned())
}

fn refused() -> Result<(), String> {
    Err("not now".to_owned())
}

fn said(path: &str, words: &str) -> String {
    format!("{path}?ok={words}")
}

fn failed(path: &str) -> String {
    format!("{path}?error=not%20now")
}

#[test]
fn an_agent_is_linked_and_unlinked() {
    let form = LinkAgentForm {
        agent_email: "bot@x".into(),
        max_role: "member".into(),
    };
    assert_eq!(
        link_agent(signed(), form.clone()),
        Begin::Ask(OrgCommand::LinkAgent {
            session_token: "t".into(),
            agent_email: "bot@x".into(),
            max_role: "member".into(),
        })
    );
    assert_eq!(
        link_agent(None, form),
        Begin::Go("/login?return_to=%2Forgs".into())
    );
    assert_eq!(agent_linked(&Ok(())), said("/orgs", "Agent%20linked."));
    assert_eq!(agent_linked(&refused()), failed("/orgs"));
    assert_eq!(
        unlink_agent(signed(), 3),
        Begin::Ask(OrgCommand::UnlinkAgent {
            session_token: "t".into(),
            link_id: 3,
        })
    );
    assert_eq!(agent_unlinked(&Ok(())), said("/orgs", "Agent%20removed."));
    assert_eq!(agent_unlinked(&refused()), failed("/orgs"));
}

#[test]
fn members_are_given_roles_and_removed() {
    let form = MemberForm {
        user_id: 9,
        role: "admin".into(),
    };
    assert_eq!(
        set_role(signed(), ORG, form.clone()),
        Begin::Ask(OrgCommand::SetMemberRole {
            session_token: "t".into(),
            organization_id: ORG,
            user_id: 9,
            role: "admin".into(),
        })
    );
    assert_eq!(
        remove_member(signed(), ORG, &form),
        Begin::Ask(OrgCommand::RemoveMember {
            session_token: "t".into(),
            organization_id: ORG,
            user_id: 9,
        })
    );
    assert_eq!(member_removed(ORG, &Ok(())), said(PATH, "Member%20removed."));
    assert_eq!(member_removed(ORG, &refused()), failed(PATH));
    assert_eq!(updated(ORG, &Ok(())), said(PATH, "Organization%20saved."));
    assert_eq!(
        leave(signed(), ORG),
        Begin::Ask(OrgCommand::Leave {
            session_token: "t".into(),
            organization_id: ORG,
        })
    );
    assert_eq!(
        left(ORG, &Ok(())),
        said("/orgs", "You%20have%20left%20the%20organization.")
    );
    assert_eq!(left(ORG, &refused()), failed(PATH));
}

#[test]
fn a_team_is_made_and_people_leave_it() {
    let form = TeamForm {
        name: " Mastering ".into(),
        team_id: Some(4),
        user_id: Some(9),
    };
    assert_eq!(
        create_team(signed(), ORG, &form),
        Begin::Ask(OrgCommand::CreateTeam {
            session_token: "t".into(),
            organization_id: ORG,
            name: "Mastering".into(),
        })
    );
    assert_eq!(
        remove_team_member(signed(), ORG, &form),
        Begin::Ask(OrgCommand::RemoveTeamMember {
            session_token: "t".into(),
            organization_id: ORG,
            team_id: 4,
            user_id: 9,
        })
    );
    let nobody = TeamForm {
        name: String::new(),
        team_id: Some(4),
        user_id: None,
    };
    assert_eq!(
        remove_team_member(signed(), ORG, &nobody),
        Begin::Go(format!("{PATH}?error=Pick%20a%20team%20and%20a%20person."))
    );
    assert_eq!(team_created(ORG, &Ok(())), said(PATH, "Team%20created."));
    assert_eq!(team_deleted(ORG, &Ok(())), said(PATH, "Team%20deleted."));
    assert_eq!(
        team_member_added(ORG, &Ok(())),
        said(PATH, "Added%20to%20the%20team.")
    );
    assert_eq!(
        team_member_removed(ORG, &Ok(())),
        said(PATH, "Removed%20from%20the%20team.")
    );
    assert_eq!(team_member_removed(ORG, &refused()), failed(PATH));
}

#[test]
fn invitations_are_cancelled_and_links_revoked() {
    assert_eq!(
        cancel_invitation(signed(), ORG, 5),
        Begin::Ask(OrgCommand::CancelInvitation {
            session_token: "t".into(),
            invitation_id: 5,
        })
    );
    assert_eq!(
        invitation_cancelled(ORG, &Ok(())),
        said(PATH, "Invitation%20cancelled.")
    );
    assert_eq!(
        revoke_link(signed(), ORG, 6),
        Begin::Ask(OrgCommand::RevokeInviteLink {
            session_token: "t".into(),
            link_id: 6,
        })
    );
    assert_eq!(link_revoked(ORG, &Ok(())), said(PATH, "Link%20revoked."));
    assert_eq!(link_revoked(ORG, &refused()), failed(PATH));
}

#[test]
fn an_address_and_a_password_are_changed() {
    let path = "/account/profile";
    assert_eq!(
        change_email(signed(), " new@x "),
        Begin::Ask(ProfileCommand::ChangeEmail {
            session_token: "t".into(),
            new_email: "new@x".into(),
        })
    );
    assert_eq!(
        email_changed(&Ok(())),
        said(path, "Check%20the%20new%20address%20for%20a%20confirmation%20link.")
    );
    assert_eq!(email_changed(&refused()), failed(path));
    let form = PasswordForm {
        current_password: " old ".into(),
        new_password: " new ".into(),
        confirm_password: " new ".into(),
    };
    assert_eq!(
        change_password(signed(), form),
        Begin::Ask(ProfileCommand::ChangePassword {
            session_token: "t".into(),
            current_password: " old ".into(),
            new_password: " new ".into(),
        })
    );
    assert_eq!(password_changed(&Ok(())), said(path, "Password%20changed."));
    assert_eq!(password_changed(&refused()), failed(path));
    assert_eq!(username_saved(&Ok(())), said(path, "Profile%20saved."));
    assert_eq!(username_saved(&refused()), failed(path));
}

#[test]
fn a_session_is_ended_by_its_id() {
    let path = "/account/sessions";
    assert_eq!(
        revoke(signed(), 8),
        Begin::Ask(SessionCommand::Revoke {
            session_token: "t".into(),
            session_id: 8,
        })
    );
    assert_eq!(revoked(&Ok(())), said(path, "Signed%20that%20session%20out."));
    assert_eq!(revoked(&refused()), failed(path));
    assert_eq!(
        others_revoked(&Ok(())),
        said(path, "Signed%20out%20everywhere%20except%20this%20browser.")
    );
}

#[test]
fn a_key_is_revoked_or_deleted() {
    let path = "/account/api-keys";
    assert_eq!(
        api_keys::revoke(signed(), 2),
        Begin::Ask(api_keys::KeyCommand::Revoke {
            session_token: "t".into(),
            api_key_id: 2,
        })
    );
    assert_eq!(
        api_keys::revoked(&Ok(())),
        said(path, "Key%20revoked.%20It%20will%20no%20longer%20authenticate.")
    );
    assert_eq!(
        api_keys::delete(signed(), 2),
        Begin::Ask(api_keys::KeyCommand::Delete {
            session_token: "t".into(),
            api_key_id: 2,
        })
    );
    assert_eq!(api_keys::deleted(&Ok(())), said(path, "Key%20deleted."));
    assert_eq!(api_keys::deleted(&refused()), failed(path));
}

#[test]
fn a_passkey_is_registered_in_two_steps() {
    assert_eq!(
        begin_registration(signed()),
        Ok(PasskeyCommand::BeginRegistration {
            session_token: "t".into(),
        })
    );
    let challenge = PasskeyChallenge {
        options_json: "{}".into(),
        handle: "h".into(),
    };
    let options = PasskeyReply::Options {
        options: "{}".into(),
        handle: "h".into(),
    };
    assert_eq!(registration_begun(Ok(challenge.clone())), options);
    assert_eq!(sign_in_begun(Ok(challenge)), options);
    let bad = PasskeyReply::Refused {
        status: 400,
        error: "no".into(),
    };
    assert_eq!(registration_begun(Err("no".into())), bad);
    assert_eq!(sign_in_begun(Err("no".into())), bad);

    let body = FinishRegistration {
        handle: "h".into(),
        name: "Phone".into(),
        credential_json: "{\"id\":1}".into(),
    };
    assert_eq!(
        complete_registration(signed(), body.clone()),
        Ok(PasskeyCommand::CompleteRegistration {
            session_token: "t".into(),
            handle: "h".into(),
            name: "Phone".into(),
            credential_json: "{\"id\":1}".into(),
        })
    );
    assert_eq!(
        complete_registration(None, body),
        Err(PasskeyReply::Refused {
            status: 401,
            error: "Sign in first.".into(),
        })
    );
    assert_eq!(
        registration_completed(Ok("Phone".into())),
        PasskeyReply::Added { name: "Phone".into() }
    );
    assert_eq!(registration_completed(Err("no".into())), bad);
}

#[test]
fn a_passkey_sign_in_says_where_it_comes_from() {
    let body = FinishSignIn {
        handle: "h".into(),
        credential_json: "{}".into(),
        return_to: None,
    };
    assert_eq!(
        complete_sign_in(&body, Some(" 1.2.3.4 , 5.6.7.8"), Some("agent".into())),
        PasskeyCommand::CompleteAuthentication {
            handle: "h".into(),
            credential_json: "{}".into(),
            ip_address: Some("1.2.3.4".into()),
            user_agent: Some("agent".into()),
        }
    );
}

#[test]
fn a_refused_device_is_refused_whatever_the_engine_said() {
    assert_eq!(device::deny("wdjb-mjht"), "WDJBMJHT");
    assert_eq!(device::denied(Ok(())), device::DevicePage::Refused);
    assert_eq!(
        device::denied(Err("gone".into())),
        device::DevicePage::Refused
    );
}

#[test]
fn a_link_page_says_what_was_sent() {
    let asked = login::link_page(login::LoginQuery::default());
    assert!(!asked.sent);
    assert_eq!(asked.sub, "We will email you a link that signs you in.");
    assert_eq!(asked.return_to, "/");
    let sent = login::link_page(login::LoginQuery {
        email: Some("a@x".into()),
        sent: Some("1".into()),
        error: None,
        return_to: Some("/orgs".into()),
    });
    assert!(sent.sent);
    assert_eq!(
        sent.sub,
        "If a@x has an account, a sign-in link is on its way."
    );
    assert_eq!(sent.return_to, "/orgs");
}

#[test]
fn the_list_is_for_somebody_who_is_signed_in() {
    assert_eq!(orgs::index(signed()), Begin::Ask("t".into()));
    assert_eq!(
        orgs::index(None),
        Begin::Go("/login?return_to=%2Forgs".into())
    );
}

#[test]
fn a_guest_starts_from_somewhere() {
    assert_eq!(
        guest::start(Some("9.9.9.9"), None),
        guest::SignInAnonymous {
            ip_address: Some("9.9.9.9".into()),
            user_agent: None,
        }
    );
    assert_eq!(guest::start(Some(" , 1.1.1.1"), None).ip_address, None);
}
