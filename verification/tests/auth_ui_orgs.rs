use architect::auth::expiry::Moment;
use architect::auth_ui::orgs::{
    accept_invitation, add_team_member, create, create_link, created, delete_team, deleted, invite,
    invitation_accepted, invited, join, joined, link_created, reject_invitation, role_set, show,
    update, CreateOrgForm, InviteForm, LinkForm, MintedInvitation, OrgCommand, TeamForm,
    UpdateOrgForm,
};
use architect::auth_ui::page::Begin;
use architect::auth_ui::views::{
    display_name, index_page, invitation_page, join_page, role_choices, show_page, DoorPage,
    Invitation, InviteLink, LinkedAgent, MyInvitation, OrgBundle, OrgMember, OrgQuery, OrgReplies,
    Organization, Preview, Team,
};

const ID: u128 = 7;
const PATH: &str = "/orgs/00000000-0000-0000-0000-000000000007";

fn signed() -> Option<String> {
    Some("t".to_owned())
}

#[test]
fn an_empty_slug_is_made_from_the_name() {
    let slug_of = |name: &str, slug: &str| {
        match create(signed(), &CreateOrgForm { name: name.into(), slug: slug.into() }) {
            Begin::Ask(OrgCommand::Create { slug, .. }) => slug,
            other => panic!("{other:?}"),
        }
    };
    assert_eq!(slug_of("Acme Records, Inc.", " "), "acme-records-inc");
    assert_eq!(slug_of("Acme", " mine "), "mine");
    assert_eq!(created(&Ok(ID)), PATH);
    assert_eq!(created(&Err("taken".into())), "/orgs?error=taken");
}

#[test]
fn nobody_gets_past_without_a_session() {
    let encoded = "/login?return_to=%2Forgs%2F00000000-0000-0000-0000-000000000007";
    assert_eq!(show(None, ID), Begin::Go(encoded.into()));
    assert_eq!(
        show(signed(), ID),
        Begin::Ask(OrgCommand::Get { session_token: "t".into(), organization_id: ID })
    );
    assert_eq!(
        join(None, "a&b"),
        Begin::Go("/login?return_to=%2Fjoin%3Ftoken%3Da%2526b".into())
    );
}

#[test]
fn emptying_the_logo_clears_it() {
    let form = UpdateOrgForm { name: " A ".into(), slug: " a ".into(), logo: "  ".into() };
    assert_eq!(
        update(signed(), ID, &form),
        Begin::Ask(OrgCommand::Update {
            session_token: "t".into(),
            organization_id: ID,
            name: "A".into(),
            slug: "a".into(),
            logo: None,
        })
    );
    assert_eq!(role_set(ID, &Ok(())), format!("{PATH}?ok=Role%20updated."));
    assert_eq!(deleted(ID, &Ok(())), "/orgs?ok=Organization%20deleted.");
    assert_eq!(deleted(ID, &Err("no".into())), format!("{PATH}?error=no"));
}

#[test]
fn a_team_and_a_person_have_to_be_named() {
    let none = TeamForm { name: String::new(), team_id: None, user_id: Some(1) };
    assert_eq!(
        delete_team(signed(), ID, &none),
        Begin::Go(format!("{PATH}?error=No%20team%20was%20named."))
    );
    assert_eq!(
        add_team_member(signed(), ID, &none),
        Begin::Go(format!("{PATH}?error=Pick%20a%20team%20and%20a%20person."))
    );
    let both = TeamForm { team_id: Some(2), ..none };
    assert_eq!(
        add_team_member(signed(), ID, &both),
        Begin::Ask(OrgCommand::AddTeamMember {
            session_token: "t".into(),
            organization_id: ID,
            team_id: 2,
            user_id: 1,
        })
    );
}

#[test]
fn a_fresh_secret_rides_back_once() {
    assert_eq!(
        invited(ID, &Ok(MintedInvitation { id: 1, token: "s3".into() })),
        format!(
            "{PATH}?token=%2Finvite%2F00000000-0000-0000-0000-000000000001%3Ftoken%3Ds3&ok=Invitation%20created."
        )
    );
    assert_eq!(
        link_created(ID, &Ok("s3".into())),
        format!("{PATH}?token=%2Fjoin%3Ftoken%3Ds3&ok=Invite%20link%20created.")
    );
    match invite(signed(), ID, &InviteForm { email: " a@b.c ".into(), role: "member".into() }) {
        Begin::Ask(OrgCommand::CreateInvitation { email, expires_at, .. }) => {
            assert_eq!(email, "a@b.c");
            let now = chrono::Utc::now().timestamp();
            assert!((expires_at.secs - now - 14 * 86_400).abs() < 60);
        }
        other => panic!("{other:?}"),
    }
}

#[test]
fn a_link_without_a_number_has_no_limit() {
    let form = |max: &str, days: &str| LinkForm {
        role: "member".into(),
        label: " ".into(),
        max_uses: max.into(),
        expires_days: days.into(),
    };
    match create_link(signed(), ID, &form("", " ")) {
        Begin::Ask(OrgCommand::CreateInviteLink { label, expires_at, max_uses, .. }) => {
            assert_eq!((label, expires_at, max_uses), (None, None, None));
        }
        other => panic!("{other:?}"),
    }
    match create_link(signed(), ID, &form(" 5 ", "2")) {
        Begin::Ask(OrgCommand::CreateInviteLink { expires_at, max_uses, .. }) => {
            assert!(expires_at.is_some());
            assert_eq!(max_uses, Some(5));
        }
        other => panic!("{other:?}"),
    }
}

#[test]
fn an_invitation_is_accepted_by_its_secret_or_by_the_address() {
    assert_eq!(
        accept_invitation(signed(), 1, ""),
        Begin::Ask(OrgCommand::ClaimInvitation { session_token: "t".into(), invitation_id: 1 })
    );
    assert!(matches!(
        accept_invitation(signed(), 1, "s"),
        Begin::Ask(OrgCommand::AcceptInvitation { .. })
    ));
    assert_eq!(
        invitation_accepted(1, "s", &Err("no".into())),
        "/invite/00000000-0000-0000-0000-000000000001?token=s&error=no"
    );
    assert_eq!(invitation_accepted(1, "", &Err("no".into())), "/orgs?error=no");
    assert_eq!(invitation_accepted(1, "s", &Ok(())), "/orgs?ok=You%20have%20joined.");
    assert_eq!(joined("s", &Ok(ID)), format!("{PATH}?ok=You%20have%20joined."));
    assert_eq!(joined("s", &Err("no".into())), "/join?token=s&error=no");
    assert_eq!(
        reject_invitation(1, "s"),
        OrgCommand::RejectInvitation { invitation_id: 1, token: "s".into() }
    );
}

fn member(user_id: u128, name: Option<&str>) -> OrgMember {
    OrgMember {
        user_id,
        role: "member".into(),
        name: name.map(str::to_owned),
        username: None,
        email: Some(format!("m{user_id}@x")),
    }
}

fn org(role: &str) -> OrgBundle {
    OrgBundle {
        organization: Organization { id: ID, name: "Acme".into(), slug: "acme".into(), logo: None },
        role: role.into(),
    }
}

fn replies() -> OrgReplies {
    OrgReplies {
        members: Ok(vec![member(1, Some("Ada")), member(2, Some("  "))]),
        teams: Ok(vec![
            Team { id: 1, name: "Mastering".into(), members: Ok(vec![2, 9, 1]) },
            Team { id: 2, name: "Empty".into(), members: Err("down".into()) },
        ]),
        invitations: Ok(vec![
            Invitation {
                id: 1,
                email: "x@y".into(),
                role: "member".into(),
                status: "pending".into(),
                expires_at: Moment { secs: 86_400, nanos: 0 },
            },
            Invitation {
                id: 2,
                email: "x@y".into(),
                role: "member".into(),
                status: "accepted".into(),
                expires_at: Moment { secs: 0, nanos: 0 },
            },
        ]),
        links: Ok(vec![
            InviteLink {
                id: 1,
                label: None,
                role: "member".into(),
                uses: 3,
                uses_remaining: None,
                usable: true,
            },
            InviteLink {
                id: 2,
                label: Some("Launch".into()),
                role: "member".into(),
                uses: 5,
                uses_remaining: Some(0),
                usable: false,
            },
        ]),
    }
}

#[test]
fn an_owner_is_offered_everything() {
    let view = show_page(ID, Ok(org("owner")), replies(), OrgQuery::default()).unwrap();
    assert!(view.is_owner && view.can_invite);
    assert_eq!(view.teams[0].members, vec!["m2@x".to_owned(), "Ada".to_owned()]);
    assert_eq!(view.links[0].label, "Invite link");
    assert_eq!(view.links[0].remaining, "unlimited");
    assert_eq!(view.links[1].remaining, "0");
    assert_eq!(view.invitations[0].expires, "1970-01-02");
    let page = view.lay_out();
    assert_eq!(page.blurb, "/acme · you are owner");
    assert!(page.members[0].removable);
    assert!(page.members[0].roles.as_ref().unwrap()[2].selected);
    assert_eq!(page.teams[0].people.as_deref(), Some("m2@x, Ada"));
    assert_eq!(page.teams[1].people, None);
    assert_eq!(page.teams[0].addable.as_ref().unwrap().len(), 2);
    let invite = page.invite.unwrap();
    assert!(invite.invitations[0].cancellable && !invite.invitations[1].cancellable);
    assert!(invite.links[0].revocable && invite.links[1].closed);
    assert!(page.settings.is_some() && page.deletable && page.team_form);
}

#[test]
fn a_member_is_offered_nothing_but_to_read() {
    let page =
        show_page(ID, Ok(org("member")), replies(), OrgQuery::default()).unwrap().lay_out();
    assert!(page.members.iter().all(|m| m.roles.is_none() && !m.removable));
    assert!(page.teams.iter().all(|t| t.addable.is_none() && !t.deletable));
    assert!(page.invite.is_none() && page.settings.is_none());
    assert!(!page.deletable && !page.team_form);
    let admin = show_page(ID, Ok(org("admin")), replies(), OrgQuery::default()).unwrap().lay_out();
    assert!(admin.invite.is_some() && admin.settings.is_none() && !admin.deletable);
}

#[test]
fn an_organization_that_is_not_yours_sends_you_to_the_list() {
    let none = OrgReplies {
        members: Err("no".into()),
        teams: Err("no".into()),
        invitations: Err("no".into()),
        links: Err("no".into()),
    };
    assert_eq!(
        show_page(ID, Err("no".into()), none, OrgQuery::default()),
        Err("/orgs?error=That%20organization%20is%20not%20available%20to%20you.".to_owned())
    );
}

#[test]
fn the_best_name_is_shown() {
    assert_eq!(display_name(&member(1, Some("Ada"))), "Ada");
    assert_eq!(display_name(&member(1, Some(" "))), "m1@x");
    let bare = OrgMember { email: None, ..member(1, None) };
    assert_eq!(display_name(&bare), "00000000-0000-0000-0000-000000000001");
    let named = OrgMember { username: Some("ada".into()), ..member(1, None) };
    assert_eq!(display_name(&named), "ada");
    let blank = OrgMember { username: Some(String::new()), ..member(1, None) };
    assert_eq!(display_name(&blank), "m1@x");
    let nothing = OrgMember { email: Some("  ".into()), ..blank };
    assert_eq!(display_name(&nothing), "00000000-0000-0000-0000-000000000001");
    let choices = role_choices("admin");
    assert_eq!(choices.iter().filter(|c| c.selected).count(), 1);
    assert_eq!(choices[1].label, "Admin — manage members, teams and invitations");
}

#[test]
fn the_list_shows_what_waits_and_who_acts() {
    let view = index_page(
        Ok(vec![org("owner")]),
        Ok(vec![MyInvitation {
            id: 1,
            organization_id: 2,
            organization_name: None,
            role: "member".into(),
        }]),
        Ok(vec![LinkedAgent {
            id: 3,
            agent_user_id: 4,
            agent_email: None,
            agent_name: Some("bot".into()),
            max_role: "member".into(),
        }]),
        &None,
        &Some("careful".into()),
    )
    .unwrap();
    assert_eq!(view.rows[0].slug, "acme");
    assert_eq!(view.invitations[0].organization, "00000000-0000-0000-0000-000000000002");
    assert_eq!(view.agents[0].who, "bot");
    assert!(view.flash.is_some());
    let partly = index_page(Ok(vec![]), Err("x".into()), Err("x".into()), &None, &None).unwrap();
    assert!(partly.invitations.is_empty() && partly.agents.is_empty());
    assert_eq!(
        index_page(Err("x".into()), Ok(vec![]), Ok(vec![]), &None, &None),
        Err("/login?return_to=%2Forgs".to_owned())
    );
}

#[test]
fn a_door_says_what_it_opens_or_nothing() {
    let preview = Preview {
        organization_name: "Acme".into(),
        role: "member".into(),
        email: Some("a@b".into()),
    };
    match invitation_page(Ok(preview.clone()), false, None) {
        DoorPage::Open { heading, sub, hint, button, .. } => {
            assert_eq!(heading, "Join Acme");
            assert_eq!(sub, "Invited as member, to a@b.");
            assert!(hint);
            assert_eq!(button, "Sign in and accept");
        }
        DoorPage::DeadEnd => panic!("closed"),
    }
    match join_page(Ok(preview), true, None) {
        DoorPage::Open { sub, hint, button, .. } => {
            assert_eq!(sub, "You will join as member.");
            assert!(!hint);
            assert_eq!(button, "Join Acme");
        }
        DoorPage::DeadEnd => panic!("closed"),
    }
    assert_eq!(join_page(Err("used".into()), true, None), DoorPage::DeadEnd);
    assert_eq!(invitation_page(Err("expired".into()), true, None), DoorPage::DeadEnd);
}
