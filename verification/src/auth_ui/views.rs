//! What the organization pages show: the engine's records reduced to rows,
//! and the rows with the controls that the reader's role allows.

use crate::auth::expiry::Moment;
use crate::auth_ui::dates::day_of;
use crate::auth_ui::page::{flash_to, sign_in_first, Flash};
use crate::ids::uuid_text;
use crate::text::{cat, cat3, copy, join, same, signed_decimal_of, trim};
use vstd::prelude::*;

verus! {

// ---------------------------------------------------------------------------
// What the engine tells
// ---------------------------------------------------------------------------

#[derive(Clone, Debug, PartialEq, Eq)]
pub struct Organization {
    pub id: u128,
    pub name: String,
    pub slug: String,
    pub logo: Option<String>,
}

/// An organization, and the reader's role in it.
#[derive(Clone, Debug, PartialEq, Eq)]
pub struct OrgBundle {
    pub organization: Organization,
    pub role: String,
}

#[derive(Clone, Debug, PartialEq, Eq)]
pub struct OrgMember {
    pub user_id: u128,
    pub role: String,
    pub name: Option<String>,
    pub username: Option<String>,
    pub email: Option<String>,
}

/// A team, and what the engine answered about who is in it.
#[derive(Debug, PartialEq, Eq)]
pub struct Team {
    pub id: u128,
    pub name: String,
    pub members: Result<Vec<u128>, String>,
}

#[derive(Clone, Debug, PartialEq, Eq)]
pub struct Invitation {
    pub id: u128,
    pub email: String,
    pub role: String,
    pub status: String,
    pub expires_at: Moment,
}

/// A link, with how many uses are left and whether it still opens, as the
/// engine tells it at the time of the request.
#[derive(Clone, Debug, PartialEq, Eq)]
pub struct InviteLink {
    pub id: u128,
    pub label: Option<String>,
    pub role: String,
    pub uses: i32,
    pub uses_remaining: Option<i32>,
    pub usable: bool,
}

/// An invitation that waits for the reader. The organization's name is
/// missing where it could not be looked up.
#[derive(Clone, Debug, PartialEq, Eq)]
pub struct MyInvitation {
    pub id: u128,
    pub organization_id: u128,
    pub organization_name: Option<String>,
    pub role: String,
}

#[derive(Clone, Debug, PartialEq, Eq)]
pub struct LinkedAgent {
    pub id: u128,
    pub agent_user_id: u128,
    pub agent_email: Option<String>,
    pub agent_name: Option<String>,
    pub max_role: String,
}

// ---------------------------------------------------------------------------
// Rows
// ---------------------------------------------------------------------------

#[derive(Clone, Debug, PartialEq, Eq)]
pub struct OrgRow {
    pub id: u128,
    pub name: String,
    pub slug: String,
    pub role: String,
}

#[derive(Clone, Debug, PartialEq, Eq)]
pub struct MemberRow {
    pub user_id: u128,
    pub name: String,
    pub email: String,
    pub role: String,
}

#[derive(Clone, Debug, PartialEq, Eq)]
pub struct TeamRow {
    pub id: u128,
    pub name: String,
    pub members: Vec<String>,
}

#[derive(Clone, Debug, PartialEq, Eq)]
pub struct InvitationRow {
    pub id: u128,
    pub email: String,
    pub role: String,
    pub status: String,
    pub expires: String,
}

#[derive(Clone, Debug, PartialEq, Eq)]
pub struct LinkRow {
    pub id: u128,
    pub label: String,
    pub role: String,
    pub used: i32,
    pub remaining: String,
    pub usable: bool,
}

#[derive(Clone, Debug, PartialEq, Eq)]
pub struct MyInvitationRow {
    pub id: u128,
    pub organization: String,
    pub role: String,
}

#[derive(Clone, Debug, PartialEq, Eq)]
pub struct AgentRow {
    pub id: u128,
    pub who: String,
    pub cap: String,
}

/// What a list that could not be read shows: nothing.
pub open spec fn or_nothing<T>(reply: Result<Vec<T>, String>) -> Seq<T> {
    match reply {
        Ok(list) => list@,
        Err(_) => Seq::empty(),
    }
}

fn or_empty<T>(reply: Result<Vec<T>, String>) -> (res: Vec<T>)
    ensures
        res@ == or_nothing(reply),
{
    match reply {
        Ok(list) => list,
        Err(_) => Vec::new(),
    }
}

/// The text, or an empty one where there is none.
pub open spec fn or_blank(o: Option<String>) -> Seq<char> {
    match o {
        Some(s) => s@,
        None => Seq::empty(),
    }
}

/// The text, or an empty one where there is none.
pub fn unwrap_or_blank(o: &Option<String>) -> (res: String)
    ensures
        res@ == or_blank(*o),
{
    match o {
        Some(s) => copy(s),
        None => {
            let blank = String::new();
            assert(blank@ =~= Seq::<char>::empty());
            blank
        },
    }
}

/// Whether there is a text, and it is more than white space.
pub open spec fn says_something(o: Option<String>) -> bool {
    o is Some && crate::text::trimmed(o->0@).len() > 0
}

fn is_something(o: &Option<String>) -> (res: bool)
    ensures
        res == says_something(*o),
{
    match o {
        Some(s) => trim(s.as_str()).as_str().unicode_len() > 0,
        None => false,
    }
}

/// The best name there is for somebody, never an empty cell: of their name,
/// their username and their address the first that is more than white space,
/// else their id.
pub open spec fn shown_name(m: OrgMember) -> Seq<char> {
    if says_something(m.name) {
        m.name->0@
    } else if says_something(m.username) {
        m.username->0@
    } else if says_something(m.email) {
        m.email->0@
    } else {
        crate::ids::hyphenated(m.user_id)
    }
}

/// The best name we have for somebody.
pub fn display_name(member: &OrgMember) -> (res: String)
    ensures
        res@ == shown_name(*member),
        res@.len() > 0,
{
    if is_something(&member.name) {
        unwrap_or_blank(&member.name)
    } else if is_something(&member.username) {
        unwrap_or_blank(&member.username)
    } else if is_something(&member.email) {
        unwrap_or_blank(&member.email)
    } else {
        uuid_text(member.user_id)
    }
}

/// The first member with this id, from place `from` on.
pub open spec fn member_with(members: Seq<OrgMember>, id: u128, from: int) -> Option<OrgMember>
    decreases members.len() - from,
{
    if from >= members.len() {
        None
    } else if members[from].user_id == id {
        Some(members[from])
    } else {
        member_with(members, id, from + 1)
    }
}

fn name_of(members: &Vec<OrgMember>, id: u128) -> (res: Option<String>)
    ensures
        crate::text::opt_view(res) == match member_with(members@, id, 0) {
            Some(m) => Some(shown_name(m)),
            None => None,
        },
{
    let mut i: usize = 0;
    while i < members.len()
        invariant
            i <= members@.len(),
            member_with(members@, id, 0) == member_with(members@, id, i as int),
        decreases members@.len() - i,
    {
        if members[i].user_id == id {
            return Some(display_name(&members[i]));
        }
        i = i + 1;
    }
    None
}

/// The names of those who are members, in the order of their ids. An id
/// nobody has is passed over.
pub open spec fn names_of(ids: Seq<u128>, members: Seq<OrgMember>) -> Seq<Seq<char>>
    decreases ids.len(),
{
    if ids.len() == 0 {
        Seq::empty()
    } else {
        let before = names_of(ids.drop_last(), members);
        match member_with(members, ids.last(), 0) {
            Some(m) => before.push(shown_name(m)),
            None => before,
        }
    }
}

fn names_in(ids: &Vec<u128>, members: &Vec<OrgMember>) -> (res: Vec<String>)
    ensures
        crate::text::views(res@) == names_of(ids@, members@),
{
    let mut names: Vec<String> = Vec::new();
    assert(crate::text::views(names@) =~= names_of(ids@.take(0), members@));
    for i in 0..ids.len()
        invariant
            crate::text::views(names@) == names_of(ids@.take(i as int), members@),
    {
        proof {
            assert(ids@.take(i + 1).drop_last() =~= ids@.take(i as int));
        }
        if let Some(name) = name_of(members, ids[i]) {
            let ghost before = names@;
            names.push(name);
            assert(crate::text::views(names@) =~= crate::text::views(before).push(name@));
        }
    }
    assert(ids@.take(ids@.len() as int) =~= ids@);
    names
}

// ---------------------------------------------------------------------------
// One organization
// ---------------------------------------------------------------------------

/// The page's query.
#[derive(Clone, Debug, Default, PartialEq, Eq)]
pub struct OrgQuery {
    pub ok: Option<String>,
    pub error: Option<String>,
    /// Set once, after something was minted: the only time its secret is
    /// legible.
    pub token: Option<String>,
}

/// What the engine answered about one organization.
#[derive(Debug, PartialEq, Eq)]
pub struct OrgReplies {
    pub members: Result<Vec<OrgMember>, String>,
    pub teams: Result<Vec<Team>, String>,
    pub invitations: Result<Vec<Invitation>, String>,
    pub links: Result<Vec<InviteLink>, String>,
}

/// One organization, reduced to what its page shows.
#[derive(Clone, Debug, PartialEq, Eq)]
pub struct OrgView {
    pub id: u128,
    pub name: String,
    pub slug: String,
    pub logo: String,
    pub my_role: String,
    pub is_owner: bool,
    pub can_invite: bool,
    pub members: Vec<MemberRow>,
    pub teams: Vec<TeamRow>,
    pub invitations: Vec<InvitationRow>,
    pub links: Vec<LinkRow>,
    pub minted: Option<String>,
    pub flash: Option<Flash>,
}

pub open spec fn member_row(m: OrgMember, row: MemberRow) -> bool {
    &&& row.user_id == m.user_id
    &&& row.name@ == shown_name(m)
    &&& row.email@ == or_blank(m.email)
    &&& row.role@ == m.role@
}

pub open spec fn team_row(team: Team, members: Seq<OrgMember>, row: TeamRow) -> bool {
    &&& row.id == team.id
    &&& row.name@ == team.name@
    &&& crate::text::views(row.members@) == names_of(or_nothing(team.members), members)
}

pub open spec fn invitation_row(i: Invitation, row: InvitationRow) -> bool {
    &&& row.id == i.id
    &&& row.email@ == i.email@
    &&& row.role@ == i.role@
    &&& row.status@ == i.status@
    &&& row.expires@ == crate::auth_ui::dates::utc_day(i.expires_at.secs, i.expires_at.nanos)
}

pub open spec fn link_row(link: InviteLink, row: LinkRow) -> bool {
    &&& row.id == link.id
    &&& row.label@ == match link.label {
        Some(l) => l@,
        None => "Invite link"@,
    }
    &&& row.role@ == link.role@
    &&& row.used == link.uses
    &&& row.remaining@ == match link.uses_remaining {
        Some(n) => crate::text::signed_decimal(n as int),
        None => "unlimited"@,
    }
    &&& row.usable == link.usable
}

fn member_rows(members: &Vec<OrgMember>) -> (res: Vec<MemberRow>)
    ensures
        res@.len() == members@.len(),
        forall|i: int| 0 <= i < res@.len() ==> member_row(members@[i], #[trigger] res@[i]),
{
    let mut rows: Vec<MemberRow> = Vec::new();
    for i in 0..members.len()
        invariant
            rows@.len() == i,
            forall|j: int| 0 <= j < i ==> member_row(members@[j], #[trigger] rows@[j]),
    {
        let m = &members[i];
        rows.push(
            MemberRow {
                user_id: m.user_id,
                name: display_name(m),
                email: unwrap_or_blank(&m.email),
                role: copy(&m.role),
            },
        );
    }
    rows
}

fn team_rows(teams: Vec<Team>, members: &Vec<OrgMember>) -> (res: Vec<TeamRow>)
    ensures
        res@.len() == teams@.len(),
        forall|i: int|
            0 <= i < res@.len() ==> team_row(teams@[i], members@, #[trigger] res@[i]),
{
    let mut rows: Vec<TeamRow> = Vec::new();
    let ghost all = teams@;
    for team in it: teams
        invariant
            it.seq() == all,
            rows@.len() == it.index(),
            forall|j: int| 0 <= j < rows@.len() ==> team_row(all[j], members@, #[trigger] rows@[j]),
    {
        let ids = or_empty(team.members);
        rows.push(TeamRow { id: team.id, name: team.name, members: names_in(&ids, members) });
    }
    rows
}

fn invitation_rows(invitations: Vec<Invitation>) -> (res: Vec<InvitationRow>)
    requires
        forall|i: int| 0 <= i < invitations@.len() ==> (#[trigger] invitations@[i]).expires_at.valid(),
    ensures
        res@.len() == invitations@.len(),
        forall|i: int| 0 <= i < res@.len() ==> invitation_row(invitations@[i], #[trigger] res@[i]),
{
    let mut rows: Vec<InvitationRow> = Vec::new();
    let ghost all = invitations@;
    for invitation in it: invitations
        invariant
            it.seq() == all,
            rows@.len() == it.index(),
            forall|i: int| 0 <= i < all.len() ==> (#[trigger] all[i]).expires_at.valid(),
            forall|j: int| 0 <= j < rows@.len() ==> invitation_row(all[j], #[trigger] rows@[j]),
    {
        assert(all[it.index() as int] == invitation);
        rows.push(
            InvitationRow {
                id: invitation.id,
                email: invitation.email,
                role: invitation.role,
                status: invitation.status,
                expires: day_of(invitation.expires_at),
            },
        );
    }
    rows
}

fn link_rows(links: Vec<InviteLink>) -> (res: Vec<LinkRow>)
    ensures
        res@.len() == links@.len(),
        forall|i: int| 0 <= i < res@.len() ==> link_row(links@[i], #[trigger] res@[i]),
{
    let mut rows: Vec<LinkRow> = Vec::new();
    let ghost all = links@;
    for link in it: links
        invariant
            it.seq() == all,
            rows@.len() == it.index(),
            forall|j: int| 0 <= j < rows@.len() ==> link_row(all[j], #[trigger] rows@[j]),
    {
        rows.push(
            LinkRow {
                id: link.id,
                label: match link.label {
                    Some(label) => label,
                    None => "Invite link".to_owned(),
                },
                role: link.role,
                used: link.uses,
                remaining: match link.uses_remaining {
                    Some(n) => signed_decimal_of(n as i64),
                    None => "unlimited".to_owned(),
                },
                usable: link.usable,
            },
        );
    }
    rows
}

/// The roles that manage an organization's people.
pub open spec fn manages(role: Seq<char>) -> bool {
    role == "owner"@ || role == "admin"@
}

/// Everything about one organization, row by row.
pub open spec fn shows(
    view: OrgView,
    id: u128,
    bundle: OrgBundle,
    replies: OrgReplies,
    q: OrgQuery,
) -> bool {
    let members = or_nothing(replies.members);
    let teams = or_nothing(replies.teams);
    let invitations = or_nothing(replies.invitations);
    let links = or_nothing(replies.links);
    &&& view.id == id
    &&& view.name@ == bundle.organization.name@
    &&& view.slug@ == bundle.organization.slug@
    &&& view.logo@ == or_blank(bundle.organization.logo)
    &&& view.my_role@ == bundle.role@
    &&& view.is_owner == (bundle.role@ == "owner"@)
    &&& view.can_invite == manages(bundle.role@)
    &&& view.members@.len() == members.len()
    &&& forall|i: int| 0 <= i < members.len() ==> member_row(members[i], #[trigger] view.members@[i])
    &&& view.teams@.len() == teams.len()
    &&& forall|i: int|
        0 <= i < teams.len() ==> team_row(teams[i], members, #[trigger] view.teams@[i])
    &&& view.invitations@.len() == invitations.len()
    &&& forall|i: int|
        0 <= i < invitations.len() ==> invitation_row(
            invitations[i],
            #[trigger] view.invitations@[i],
        )
    &&& view.links@.len() == links.len()
    &&& forall|i: int| 0 <= i < links.len() ==> link_row(links[i], #[trigger] view.links@[i])
    &&& crate::text::opt_view(view.minted) == crate::text::opt_view(q.token)
    &&& crate::auth_ui::page::flash_view(view.flash) == flash_in(q.ok, q.error)
}

/// The flash that two optional parameters make.
pub open spec fn flash_in(ok: Option<String>, error: Option<String>) -> Option<
    crate::auth_ui::page::Said,
> {
    match error {
        Some(e) if e@.len() > 0 => Some(crate::auth_ui::page::Said::Error(e@)),
        _ => match ok {
            Some(o) if o@.len() > 0 => Some(crate::auth_ui::page::Said::Success(o@)),
            _ => None,
        },
    }
}

/// The flash that two optional parameters make.
pub fn flash_of(ok: &Option<String>, error: &Option<String>) -> (res: Option<Flash>)
    ensures
        crate::auth_ui::page::flash_view(res) == flash_in(*ok, *error),
{
    let ok = match ok {
        Some(o) => Some(o.as_str()),
        None => None,
    };
    let error = match error {
        Some(e) => Some(e.as_str()),
        None => None,
    };
    Flash::from_query(ok, error)
}

/// `GET /orgs/{id}`, once the engine has answered. An organization that the
/// reader may not see sends them to the list; a list that could not be read
/// is empty.
pub fn show_page(
    id: u128,
    bundle: Result<OrgBundle, String>,
    replies: OrgReplies,
    q: OrgQuery,
) -> (res: Result<OrgView, String>)
    requires
        forall|i: int|
            0 <= i < or_nothing(replies.invitations).len() ==> (#[trigger] or_nothing(
                replies.invitations,
            )[i]).expires_at.valid(),
    ensures
        match bundle {
            Ok(b) => res matches Ok(view) && shows(view, id, b, replies, q),
            Err(_) => res matches Err(location) && location@ == crate::auth_ui::page::flashed(
                "/orgs"@,
                crate::auth_ui::page::Said::Error("That organization is not available to you."@),
            ),
        },
{
    let bundle = match bundle {
        Ok(b) => b,
        Err(_) => {
            return Err(
                flash_to(
                    "/orgs",
                    &Flash::Error("That organization is not available to you.".to_owned()),
                ),
            );
        },
    };
    let members = or_empty(replies.members);
    let teams = team_rows(or_empty(replies.teams), &members);
    let invitations = invitation_rows(or_empty(replies.invitations));
    let links = link_rows(or_empty(replies.links));
    let is_owner = same(bundle.role.as_str(), "owner");
    let can_invite = is_owner || same(bundle.role.as_str(), "admin");
    Ok(
        OrgView {
            id,
            logo: unwrap_or_blank(&bundle.organization.logo),
            name: bundle.organization.name,
            slug: bundle.organization.slug,
            my_role: bundle.role,
            is_owner,
            can_invite,
            members: member_rows(&members),
            teams,
            invitations,
            links,
            flash: flash_of(&q.ok, &q.error),
            minted: q.token,
        },
    )
}

// ---------------------------------------------------------------------------
// The page of one organization, with its controls
// ---------------------------------------------------------------------------

/// One role a person can be given.
#[derive(Clone, Debug, PartialEq, Eq)]
pub struct Choice {
    pub value: &'static str,
    pub label: &'static str,
    pub selected: bool,
}

/// The roles that are offered, in order, with this one chosen.
pub open spec fn offered(current: Seq<char>) -> Seq<(Seq<char>, Seq<char>, bool)> {
    seq![
        ("owner"@, "Owner — full control, including deleting"@, current == "owner"@),
        ("admin"@, "Admin — manage members, teams and invitations"@, current == "admin"@),
        ("member"@, "Member — read access"@, current == "member"@),
    ]
}

pub open spec fn choices_view(choices: Seq<Choice>) -> Seq<(Seq<char>, Seq<char>, bool)> {
    choices.map_values(|c: Choice| (c.value@, c.label@, c.selected))
}

/// The three roles the default permissions know, with this one chosen.
pub fn role_choices(current: &str) -> (res: Vec<Choice>)
    ensures
        choices_view(res@) == offered(current@),
{
    let list = vec![
        Choice {
            value: "owner",
            label: "Owner — full control, including deleting",
            selected: same(current, "owner"),
        },
        Choice {
            value: "admin",
            label: "Admin — manage members, teams and invitations",
            selected: same(current, "admin"),
        },
        Choice {
            value: "member",
            label: "Member — read access",
            selected: same(current, "member"),
        },
    ];
    assert(choices_view(list@) =~= offered(current@));
    list
}

/// A member, with the controls beside them.
#[derive(Clone, Debug, PartialEq, Eq)]
pub struct MemberLine {
    pub row: MemberRow,
    /// The role picker; the role stands as a tag where it is missing.
    pub roles: Option<Vec<Choice>>,
    pub removable: bool,
}

#[derive(Clone, Debug, PartialEq, Eq)]
pub struct Person {
    pub user_id: u128,
    pub name: String,
}

/// A team, with the controls beside it.
#[derive(Clone, Debug, PartialEq, Eq)]
pub struct TeamLine {
    pub row: TeamRow,
    /// Who is in it, in one line; missing where nobody is.
    pub people: Option<String>,
    pub deletable: bool,
    /// Who can be added to it.
    pub addable: Option<Vec<Person>>,
}

#[derive(Clone, Debug, PartialEq, Eq)]
pub struct InvitationLine {
    pub row: InvitationRow,
    pub cancellable: bool,
}

#[derive(Clone, Debug, PartialEq, Eq)]
pub struct LinkLine {
    pub row: LinkRow,
    pub closed: bool,
    pub revocable: bool,
}

/// The part of the page that brings people in.
#[derive(Clone, Debug, PartialEq, Eq)]
pub struct InvitePanel {
    pub roles: Vec<Choice>,
    pub invitations: Vec<InvitationLine>,
    pub links: Vec<LinkLine>,
}

#[derive(Clone, Debug, PartialEq, Eq)]
pub struct SettingsForm {
    pub name: String,
    pub slug: String,
    pub logo: String,
}

/// The page of one organization: what is shown, and what may be done.
#[derive(Clone, Debug, PartialEq, Eq)]
pub struct OrgPage {
    pub id: u128,
    pub heading: String,
    pub blurb: String,
    pub minted: Option<String>,
    pub flash: Option<Flash>,
    pub members: Vec<MemberLine>,
    pub teams: Vec<TeamLine>,
    pub team_form: bool,
    pub invite: Option<InvitePanel>,
    pub settings: Option<SettingsForm>,
    pub deletable: bool,
}

pub open spec fn member_line(row: MemberRow, manager: bool, line: MemberLine) -> bool {
    &&& line.row == row
    &&& line.removable == manager
    &&& match line.roles {
        Some(choices) => manager && choices_view(choices@) == offered(row.role@),
        None => !manager,
    }
}

/// The people a team can be given: the members, in order.
pub open spec fn everybody(members: Seq<MemberRow>, people: Seq<Person>) -> bool {
    &&& people.len() == members.len()
    &&& forall|i: int|
        0 <= i < people.len() ==> (#[trigger] people[i]).user_id == members[i].user_id
            && people[i].name@ == members[i].name@
}

pub open spec fn team_line(
    row: TeamRow,
    members: Seq<MemberRow>,
    manager: bool,
    line: TeamLine,
) -> bool {
    &&& line.row == row
    &&& line.deletable == manager
    &&& crate::text::opt_view(line.people) == if row.members@.len() == 0 {
        None
    } else {
        Some(crate::text::joined(crate::text::views(row.members@), ", "@))
    }
    &&& match line.addable {
        Some(people) => manager && everybody(members, people@),
        None => !manager,
    }
}

pub open spec fn invite_panel(view: OrgView, panel: InvitePanel) -> bool {
    &&& choices_view(panel.roles@) == offered("member"@)
    &&& panel.invitations@.len() == view.invitations@.len()
    &&& forall|i: int|
        0 <= i < panel.invitations@.len() ==> (#[trigger] panel.invitations@[i]).row
            == view.invitations@[i] && panel.invitations@[i].cancellable == (
        view.invitations@[i].status@ == "pending"@)
    &&& panel.links@.len() == view.links@.len()
    &&& forall|i: int|
        0 <= i < panel.links@.len() ==> (#[trigger] panel.links@[i]).row == view.links@[i]
            && panel.links@[i].closed == !view.links@[i].usable && panel.links@[i].revocable
            == view.links@[i].usable
}

/// What the page of an organization offers: people are managed by those who
/// may invite, and the organization itself by its owners.
pub open spec fn offers(view: OrgView, page: OrgPage) -> bool {
    &&& page.id == view.id
    &&& page.heading@ == view.name@
    &&& page.blurb@ == "/"@ + view.slug@ + " · you are "@ + view.my_role@
    &&& page.minted == view.minted
    &&& page.flash == view.flash
    &&& page.members@.len() == view.members@.len()
    &&& forall|i: int|
        0 <= i < page.members@.len() ==> member_line(
            view.members@[i],
            view.can_invite,
            #[trigger] page.members@[i],
        )
    &&& page.teams@.len() == view.teams@.len()
    &&& forall|i: int|
        0 <= i < page.teams@.len() ==> team_line(
            view.teams@[i],
            view.members@,
            view.can_invite,
            #[trigger] page.teams@[i],
        )
    &&& page.team_form == view.can_invite
    &&& match page.invite {
        Some(panel) => view.can_invite && invite_panel(view, panel),
        None => !view.can_invite,
    }
    &&& match page.settings {
        Some(form) => view.is_owner && form.name@ == view.name@ && form.slug@ == view.slug@
            && form.logo@ == view.logo@,
        None => !view.is_owner,
    }
    &&& page.deletable == view.is_owner
}

fn people_of(members: &Vec<MemberRow>) -> (res: Vec<Person>)
    ensures
        everybody(members@, res@),
{
    let mut people: Vec<Person> = Vec::new();
    for i in 0..members.len()
        invariant
            people@.len() == i,
            forall|j: int|
                0 <= j < i ==> (#[trigger] people@[j]).user_id == members@[j].user_id
                    && people@[j].name@ == members@[j].name@,
    {
        people.push(Person { user_id: members[i].user_id, name: copy(&members[i].name) });
    }
    people
}

fn team_lines(teams: Vec<TeamRow>, members: &Vec<MemberRow>, manager: bool) -> (res: Vec<TeamLine>)
    ensures
        res@.len() == teams@.len(),
        forall|i: int|
            0 <= i < res@.len() ==> team_line(teams@[i], members@, manager, #[trigger] res@[i]),
{
    let mut lines: Vec<TeamLine> = Vec::new();
    let ghost all = teams@;
    for row in it: teams
        invariant
            it.seq() == all,
            lines@.len() == it.index(),
            forall|j: int|
                0 <= j < lines@.len() ==> team_line(
                    all[j],
                    members@,
                    manager,
                    #[trigger] lines@[j],
                ),
    {
        let people = if row.members.len() == 0 {
            None
        } else {
            Some(join(&row.members, ", "))
        };
        let addable = if manager {
            Some(people_of(members))
        } else {
            None
        };
        lines.push(TeamLine { row, people, deletable: manager, addable });
    }
    lines
}

fn member_lines(members: Vec<MemberRow>, manager: bool) -> (res: Vec<MemberLine>)
    ensures
        res@.len() == members@.len(),
        forall|i: int|
            0 <= i < res@.len() ==> member_line(members@[i], manager, #[trigger] res@[i]),
{
    let mut lines: Vec<MemberLine> = Vec::new();
    let ghost all = members@;
    for row in it: members
        invariant
            it.seq() == all,
            lines@.len() == it.index(),
            forall|j: int|
                0 <= j < lines@.len() ==> member_line(all[j], manager, #[trigger] lines@[j]),
    {
        let roles = if manager {
            Some(role_choices(row.role.as_str()))
        } else {
            None
        };
        lines.push(MemberLine { row, roles, removable: manager });
    }
    lines
}

fn invitation_lines(invitations: Vec<InvitationRow>) -> (res: Vec<InvitationLine>)
    ensures
        res@.len() == invitations@.len(),
        forall|i: int|
            0 <= i < res@.len() ==> (#[trigger] res@[i]).row == invitations@[i]
                && res@[i].cancellable == (invitations@[i].status@ == "pending"@),
{
    let mut lines: Vec<InvitationLine> = Vec::new();
    let ghost all = invitations@;
    for row in it: invitations
        invariant
            it.seq() == all,
            lines@.len() == it.index(),
            forall|j: int|
                0 <= j < lines@.len() ==> (#[trigger] lines@[j]).row == all[j]
                    && lines@[j].cancellable == (all[j].status@ == "pending"@),
    {
        let cancellable = same(row.status.as_str(), "pending");
        lines.push(InvitationLine { row, cancellable });
    }
    lines
}

fn link_lines(links: Vec<LinkRow>) -> (res: Vec<LinkLine>)
    ensures
        res@.len() == links@.len(),
        forall|i: int|
            0 <= i < res@.len() ==> (#[trigger] res@[i]).row == links@[i] && res@[i].closed
                == !links@[i].usable && res@[i].revocable == links@[i].usable,
{
    let mut lines: Vec<LinkLine> = Vec::new();
    let ghost all = links@;
    for row in it: links
        invariant
            it.seq() == all,
            lines@.len() == it.index(),
            forall|j: int|
                0 <= j < lines@.len() ==> (#[trigger] lines@[j]).row == all[j] && lines@[j].closed
                    == !all[j].usable && lines@[j].revocable == all[j].usable,
    {
        let usable = row.usable;
        lines.push(LinkLine { row, closed: !usable, revocable: usable });
    }
    lines
}

impl OrgView {
    /// The page of this organization, with the controls that the reader's
    /// role allows.
    pub fn lay_out(self) -> (res: OrgPage)
        ensures
            offers(self, res),
    {
        let slug_line = cat3("/", self.slug.as_str(), " · you are ");
        let blurb = cat(slug_line.as_str(), self.my_role.as_str());
        let heading = copy(&self.name);
        let teams = team_lines(self.teams, &self.members, self.can_invite);
        let members = member_lines(self.members, self.can_invite);
        let invite = if self.can_invite {
            Some(
                InvitePanel {
                    roles: role_choices("member"),
                    invitations: invitation_lines(self.invitations),
                    links: link_lines(self.links),
                },
            )
        } else {
            None
        };
        let settings = if self.is_owner {
            Some(SettingsForm { name: self.name, slug: self.slug, logo: self.logo })
        } else {
            None
        };
        OrgPage {
            id: self.id,
            heading,
            blurb,
            minted: self.minted,
            flash: self.flash,
            members,
            teams,
            team_form: self.can_invite,
            invite,
            settings,
            deletable: self.is_owner,
        }
    }
}

/// Somebody who is neither an owner nor an admin is offered nothing but to
/// read and to leave: no role picker, no removal, no team or invitation
/// form, no settings, no deletion.
pub proof fn law_only_managers_are_offered_controls(
    view: OrgView,
    page: OrgPage,
    id: u128,
    bundle: OrgBundle,
    replies: OrgReplies,
    q: OrgQuery,
)
    requires
        shows(view, id, bundle, replies, q),
        offers(view, page),
        !manages(bundle.role@),
    ensures
        forall|i: int|
            0 <= i < page.members@.len() ==> (#[trigger] page.members@[i]).roles is None
                && !page.members@[i].removable,
        forall|i: int|
            0 <= i < page.teams@.len() ==> (#[trigger] page.teams@[i]).addable is None
                && !page.teams@[i].deletable,
        !page.team_form,
        page.invite is None,
        page.settings is None,
        !page.deletable,
{
    assert forall|i: int| 0 <= i < page.members@.len() implies (
    #[trigger] page.members@[i]).roles is None && !page.members@[i].removable by {
        assert(member_line(view.members@[i], false, page.members@[i]));
    }
    assert forall|i: int| 0 <= i < page.teams@.len() implies (#[trigger] page.teams@[i]).addable
        is None && !page.teams@[i].deletable by {
        assert(team_line(view.teams@[i], view.members@, false, page.teams@[i]));
    }
}

// ---------------------------------------------------------------------------
// The list of organizations
// ---------------------------------------------------------------------------

/// The list, the invitations that wait, and the agents that act for the
/// reader.
#[derive(Clone, Debug, PartialEq, Eq)]
pub struct OrgsView {
    pub rows: Vec<OrgRow>,
    pub invitations: Vec<MyInvitationRow>,
    pub agents: Vec<AgentRow>,
    pub flash: Option<Flash>,
}

pub open spec fn org_row(b: OrgBundle, row: OrgRow) -> bool {
    &&& row.id == b.organization.id
    &&& row.name@ == b.organization.name@
    &&& row.slug@ == b.organization.slug@
    &&& row.role@ == b.role@
}

/// The organization's name, or its id where it could not be looked up.
pub open spec fn my_invitation_row(i: MyInvitation, row: MyInvitationRow) -> bool {
    &&& row.id == i.id
    &&& row.organization@ == match i.organization_name {
        Some(name) => name@,
        None => crate::ids::hyphenated(i.organization_id),
    }
    &&& row.role@ == i.role@
}

/// The agent's address, else its name, else its id.
pub open spec fn agent_row(a: LinkedAgent, row: AgentRow) -> bool {
    &&& row.id == a.id
    &&& row.who@ == match (a.agent_email, a.agent_name) {
        (Some(email), _) => email@,
        (None, Some(name)) => name@,
        (None, None) => crate::ids::hyphenated(a.agent_user_id),
    }
    &&& row.cap@ == a.max_role@
}

fn org_rows(bundles: Vec<OrgBundle>) -> (res: Vec<OrgRow>)
    ensures
        res@.len() == bundles@.len(),
        forall|i: int| 0 <= i < res@.len() ==> org_row(bundles@[i], #[trigger] res@[i]),
{
    let mut rows: Vec<OrgRow> = Vec::new();
    let ghost all = bundles@;
    for bundle in it: bundles
        invariant
            it.seq() == all,
            rows@.len() == it.index(),
            forall|j: int| 0 <= j < rows@.len() ==> org_row(all[j], #[trigger] rows@[j]),
    {
        rows.push(
            OrgRow {
                id: bundle.organization.id,
                name: bundle.organization.name,
                slug: bundle.organization.slug,
                role: bundle.role,
            },
        );
    }
    rows
}

/// The invitations that wait for the reader, named where possible; a list
/// that could not be read is empty.
pub fn pending_invitations(reply: Result<Vec<MyInvitation>, String>) -> (res: Vec<MyInvitationRow>)
    ensures
        res@.len() == or_nothing(reply).len(),
        forall|i: int|
            0 <= i < res@.len() ==> my_invitation_row(or_nothing(reply)[i], #[trigger] res@[i]),
{
    let list = or_empty(reply);
    let mut rows: Vec<MyInvitationRow> = Vec::new();
    let ghost all = list@;
    for invitation in it: list
        invariant
            it.seq() == all,
            rows@.len() == it.index(),
            forall|j: int| 0 <= j < rows@.len() ==> my_invitation_row(all[j], #[trigger] rows@[j]),
    {
        let organization = match invitation.organization_name {
            Some(name) => name,
            None => uuid_text(invitation.organization_id),
        };
        rows.push(MyInvitationRow { id: invitation.id, organization, role: invitation.role });
    }
    rows
}

/// The agents this account has linked; a list that could not be read is
/// empty.
pub fn linked_agents(reply: Result<Vec<LinkedAgent>, String>) -> (res: Vec<AgentRow>)
    ensures
        res@.len() == or_nothing(reply).len(),
        forall|i: int| 0 <= i < res@.len() ==> agent_row(or_nothing(reply)[i], #[trigger] res@[i]),
{
    let list = or_empty(reply);
    let mut rows: Vec<AgentRow> = Vec::new();
    let ghost all = list@;
    for agent in it: list
        invariant
            it.seq() == all,
            rows@.len() == it.index(),
            forall|j: int| 0 <= j < rows@.len() ==> agent_row(all[j], #[trigger] rows@[j]),
    {
        let who = match (agent.agent_email, agent.agent_name) {
            (Some(email), _) => email,
            (None, Some(name)) => name,
            (None, None) => uuid_text(agent.agent_user_id),
        };
        rows.push(AgentRow { id: agent.id, who, cap: agent.max_role });
    }
    rows
}

/// `GET /orgs`, once the engine has answered: without a list, signing in.
/// What waits and who acts are best effort, and empty where they could not
/// be read.
pub fn index_page(
    organizations: Result<Vec<OrgBundle>, String>,
    invitations: Result<Vec<MyInvitation>, String>,
    agents: Result<Vec<LinkedAgent>, String>,
    ok: &Option<String>,
    error: &Option<String>,
) -> (res: Result<OrgsView, String>)
    ensures
        match organizations {
            Ok(list) => res matches Ok(view) && view.rows@.len() == list@.len() && (forall|i: int|
                0 <= i < list@.len() ==> org_row(list@[i], #[trigger] view.rows@[i]))
                && view.invitations@.len() == or_nothing(invitations).len() && (forall|i: int|
                0 <= i < view.invitations@.len() ==> my_invitation_row(
                    or_nothing(invitations)[i],
                    #[trigger] view.invitations@[i],
                )) && view.agents@.len() == or_nothing(agents).len() && (forall|i: int|
                0 <= i < view.agents@.len() ==> agent_row(
                    or_nothing(agents)[i],
                    #[trigger] view.agents@[i],
                )) && crate::auth_ui::page::flash_view(view.flash) == flash_in(*ok, *error),
            Err(_) => res matches Err(location) && location@ == crate::auth_ui::page::to_sign_in(
                "/orgs"@,
            ),
        },
{
    let list = match organizations {
        Ok(list) => list,
        Err(_) => return Err(sign_in_first("/orgs")),
    };
    Ok(
        OrgsView {
            rows: org_rows(list),
            invitations: pending_invitations(invitations),
            agents: linked_agents(agents),
            flash: flash_of(ok, error),
        },
    )
}

// ---------------------------------------------------------------------------
// Coming in
// ---------------------------------------------------------------------------

/// What an invitation or a link says before it is taken.
#[derive(Clone, Debug, PartialEq, Eq)]
pub struct Preview {
    pub organization_name: String,
    pub role: String,
    /// To whom an invitation is addressed; a link names nobody.
    pub email: Option<String>,
}

/// The page that an invitation or a link opens.
#[derive(Clone, Debug, PartialEq, Eq)]
pub enum DoorPage {
    /// A bad, spent, revoked or expired secret: one page for all four, which
    /// names none of them.
    DeadEnd,
    Open { heading: String, sub: String, hint: bool, button: String, error: Option<String> },
}

/// `GET /invite/{id}`, once the engine has answered.
pub fn invitation_page(
    preview: Result<Preview, String>,
    signed_in: bool,
    error: Option<String>,
) -> (res: DoorPage)
    ensures
        match preview {
            Ok(p) => res matches DoorPage::Open { heading, sub, hint, button, error: shown }
                && heading@ == "Join "@ + p.organization_name@ && sub@ == "Invited as "@ + p.role@
                + ", to "@ + or_blank(p.email) + "."@ && hint == !signed_in && button@ == (
            if signed_in {
                "Accept invitation"@
            } else {
                "Sign in and accept"@
            }) && shown == error,
            Err(_) => res == DoorPage::DeadEnd,
        },
{
    match preview {
        Ok(p) => {
            let email = unwrap_or_blank(&p.email);
            let mut sub = cat3("Invited as ", p.role.as_str(), ", to ");
            sub.append(email.as_str());
            sub.append(".");
            DoorPage::Open {
                heading: cat("Join ", p.organization_name.as_str()),
                sub,
                hint: !signed_in,
                button: (if signed_in {
                    "Accept invitation"
                } else {
                    "Sign in and accept"
                }).to_owned(),
                error,
            }
        },
        Err(_) => DoorPage::DeadEnd,
    }
}

/// `GET /join?token=…`, once the engine has answered.
pub fn join_page(
    preview: Result<Preview, String>,
    signed_in: bool,
    error: Option<String>,
) -> (res: DoorPage)
    ensures
        match preview {
            Ok(p) => res matches DoorPage::Open { heading, sub, hint, button, error: shown }
                && heading@ == "Join "@ + p.organization_name@ && sub@ == "You will join as "@
                + p.role@ + "."@ && hint == !signed_in && button@ == (if signed_in {
                "Join "@ + p.organization_name@
            } else {
                "Sign in and join"@
            }) && shown == error,
            Err(_) => res == DoorPage::DeadEnd,
        },
{
    match preview {
        Ok(p) => {
            let heading = cat("Join ", p.organization_name.as_str());
            let button = if signed_in {
                copy(&heading)
            } else {
                "Sign in and join".to_owned()
            };
            DoorPage::Open {
                heading,
                sub: cat3("You will join as ", p.role.as_str(), "."),
                hint: !signed_in,
                button,
                error,
            }
        },
        Err(_) => DoorPage::DeadEnd,
    }
}

/// A member is shown by their name, else their username, else their address, whichever
/// is the first to show anything, and else by their id.
pub proof fn law_a_member_is_shown_by_the_first_that_shows(m: OrgMember)
    ensures
        ({
            let name = m.name is Some && !crate::text::blank(m.name->0@);
            let username = m.username is Some && !crate::text::blank(m.username->0@);
            let email = m.email is Some && !crate::text::blank(m.email->0@);
            &&& name ==> shown_name(m) == m.name->0@
            &&& !name && username ==> shown_name(m) == m.username->0@
            &&& !name && !username && email ==> shown_name(m) == m.email->0@
            &&& !name && !username && !email ==> shown_name(m) == crate::ids::hyphenated(m.user_id)
        }),
{
    if let Some(s) = m.name {
        crate::text::law_white_space_alone_is_trimmed_to_nothing(s@);
    }
    if let Some(s) = m.username {
        crate::text::law_white_space_alone_is_trimmed_to_nothing(s@);
    }
    if let Some(s) = m.email {
        crate::text::law_white_space_alone_is_trimmed_to_nothing(s@);
    }
}

proof fn lemma_member_with(members: Seq<OrgMember>, id: u128, from: int, at: int)
    requires
        0 <= from <= at < members.len(),
        members[at].user_id == id,
        forall|i: int| from <= i < at ==> (#[trigger] members[i]).user_id != id,
    ensures
        member_with(members, id, from) == Some(members[at]),
    decreases at - from,
{
    if from < at {
        lemma_member_with(members, id, from + 1, at);
    }
}

proof fn lemma_no_member_with(members: Seq<OrgMember>, id: u128, from: int)
    requires
        0 <= from,
        forall|i: int| from <= i < members.len() ==> (#[trigger] members[i]).user_id != id,
    ensures
        member_with(members, id, from) is None,
    decreases members.len() - from,
{
    if from < members.len() {
        lemma_no_member_with(members, id, from + 1);
    }
}

/// A team names its people in their order, each as the first member of that id is shown,
/// and passes over whoever is no member.
pub proof fn law_a_team_names_its_members(
    a: Seq<u128>,
    b: Seq<u128>,
    members: Seq<OrgMember>,
    id: u128,
    at: int,
)
    ensures
        names_of(a + b, members) == names_of(a, members) + names_of(b, members),
        0 <= at < members.len() && members[at].user_id == id && (forall|i: int|
            0 <= i < at ==> (#[trigger] members[i]).user_id != id) ==> names_of(seq![id], members)
            == seq![shown_name(members[at])],
        (forall|i: int| 0 <= i < members.len() ==> (#[trigger] members[i]).user_id != id)
            ==> names_of(seq![id], members) == Seq::<Seq<char>>::empty(),
    decreases b.len(),
{
    reveal_with_fuel(names_of, 2);
    assert(seq![id].drop_last() =~= Seq::<u128>::empty());
    if 0 <= at < members.len() && members[at].user_id == id && (forall|i: int|
        0 <= i < at ==> (#[trigger] members[i]).user_id != id) {
        lemma_member_with(members, id, 0, at);
        assert(names_of(seq![id], members) =~= seq![shown_name(members[at])]);
    }
    if forall|i: int| 0 <= i < members.len() ==> (#[trigger] members[i]).user_id != id {
        lemma_no_member_with(members, id, 0);
    }
    if b.len() == 0 {
        assert(a + b =~= a);
        assert(names_of(a, members) + names_of(b, members) =~= names_of(a, members));
    } else {
        law_a_team_names_its_members(a, b.drop_last(), members, id, at);
        assert((a + b).drop_last() =~= a + b.drop_last());
        assert((a + b).last() == b.last());
        assert(names_of(a + b, members) =~= names_of(a, members) + names_of(b, members));
    }
}

/// Of the roles on offer exactly the present one is chosen; owners and admins manage, and
/// no other role does.
pub proof fn law_the_present_role_is_chosen(current: Seq<char>, role: Seq<char>)
    ensures
        forall|i: int|
            0 <= i < offered(current).len() ==> ((#[trigger] offered(current)[i]).2 <==> offered(
                current,
            )[i].0 == current),
        forall|i: int|
            0 <= i < offered(current).len() ==> (manages((#[trigger] offered(current)[i]).0) <==> i
                < 2),
        manages(role) ==> role == "owner"@ || role == "admin"@,
{
    reveal_strlit("owner");
    reveal_strlit("admin");
    reveal_strlit("member");
    assert("member"@.len() == 6);
    assert("owner"@.len() == 5);
    assert("admin"@.len() == 5);
}

/// An error is told before a success, and an empty one is none.
pub proof fn law_an_error_is_told_before_a_success(ok: Option<String>, error: Option<String>)
    ensures
        error is Some && error->0@.len() > 0 ==> flash_in(ok, error) == Some(
            crate::auth_ui::page::Said::Error(error->0@),
        ),
        (error is None || error->0@.len() == 0) && ok is Some && ok->0@.len() > 0 ==> flash_in(
            ok,
            error,
        ) == Some(crate::auth_ui::page::Said::Success(ok->0@)),
        (error is None || error->0@.len() == 0) && (ok is None || ok->0@.len() == 0) ==> flash_in(
            ok,
            error,
        ) is None,
{
}

/// A link is listed as it is: by its label, with the uses left as a number where they are
/// counted and in words where not.
pub proof fn law_a_link_is_listed_as_it_is(link: InviteLink, row: LinkRow)
    requires
        link_row(link, row),
    ensures
        row.id == link.id,
        link.label is Some ==> row.label@ == link.label->0@,
        row.role@ == link.role@,
        row.used == link.uses,
        row.usable == link.usable,
        link.uses_remaining is Some && link.uses_remaining->0 >= 0 ==> crate::text::number(
            row.remaining@,
        ) == Some(link.uses_remaining->0 as u64),
        link.uses_remaining is None ==> crate::text::number(row.remaining@) is None,
{
    if let Some(n) = link.uses_remaining {
        if n >= 0 {
            crate::text::law_numbers_are_written_in_tens(n as nat, 0);
            crate::text::law_numbers_are_read_back(n as u64);
        }
    } else {
        reveal_strlit("unlimited");
        assert(row.remaining@[0] == 'u');
        crate::text::law_only_numbers_are_read(0, row.remaining@, 0);
    }
}

/// An agent is known by its address, else its name, else its id; an invitation by the
/// organization's name, else its id.
pub proof fn law_agents_and_invitations_are_told_by_the_best_known(
    a: LinkedAgent,
    agent: AgentRow,
    i: MyInvitation,
    invitation: MyInvitationRow,
)
    requires
        agent_row(a, agent),
        my_invitation_row(i, invitation),
    ensures
        agent.id == a.id,
        a.agent_email is Some ==> agent.who@ == a.agent_email->0@,
        a.agent_email is None && a.agent_name is Some ==> agent.who@ == a.agent_name->0@,
        a.agent_email is None && a.agent_name is None ==> agent.who@ == crate::ids::hyphenated(
            a.agent_user_id,
        ),
        agent.cap@ == a.max_role@,
        invitation.id == i.id,
        i.organization_name is Some ==> invitation.organization@ == i.organization_name->0@,
        i.organization_name is None ==> invitation.organization@ == crate::ids::hyphenated(
            i.organization_id,
        ),
        invitation.role@ == i.role@,
{
}

/// Everything about an organization is shown, in the order it came in: what could not be
/// had is shown as nothing.
pub proof fn law_everything_that_came_is_shown(
    view: OrgView,
    id: u128,
    bundle: OrgBundle,
    replies: OrgReplies,
    q: OrgQuery,
    page: OrgPage,
)
    requires
        shows(view, id, bundle, replies, q),
        offers(view, page),
    ensures
        page.id == id,
        page.heading@ == bundle.organization.name@,
        replies.members is Err ==> page.members@.len() == 0,
        replies.members is Ok ==> page.members@.len() == replies.members->Ok_0@.len() && forall|i: int|
            0 <= i < page.members@.len() ==> (#[trigger] page.members@[i]).row.user_id
                == replies.members->Ok_0@[i].user_id,
        replies.teams is Ok ==> page.teams@.len() == replies.teams->Ok_0@.len() && forall|i: int|
            0 <= i < page.teams@.len() ==> (#[trigger] page.teams@[i]).row.id
                == replies.teams->Ok_0@[i].id,
        bundle.role@ == "owner"@ ==> page.deletable && page.settings is Some && page.invite is Some,
        bundle.role@ == "admin"@ ==> !page.deletable && page.settings is None && page.invite is Some,
        page.invite is Some && replies.links is Ok ==> forall|i: int|
            0 <= i < page.invite->0.links@.len() ==> ((#[trigger] page.invite->0.links@[i]).revocable
                <==> replies.links->Ok_0@[i].usable),
        page.invite is Some && replies.invitations is Ok ==> forall|i: int|
            0 <= i < page.invite->0.invitations@.len() ==> ((
            #[trigger] page.invite->0.invitations@[i]).cancellable
                <==> replies.invitations->Ok_0@[i].status@ == "pending"@),
{
    reveal_strlit("owner");
    reveal_strlit("admin");
    assert("owner"@[0] != "admin"@[0]);
    assert forall|i: int| 0 <= i < page.members@.len() implies (
    #[trigger] page.members@[i]).row.user_id == or_nothing(replies.members)[i].user_id by {
        assert(member_row(or_nothing(replies.members)[i], view.members@[i]));
    }
    assert forall|i: int| 0 <= i < page.teams@.len() implies (#[trigger] page.teams@[i]).row.id
        == or_nothing(replies.teams)[i].id by {
        assert(team_row(or_nothing(replies.teams)[i], or_nothing(replies.members), view.teams@[i]));
    }
    if let Some(panel) = page.invite {
        assert forall|i: int| 0 <= i < panel.links@.len() implies ((
        #[trigger] panel.links@[i]).revocable <==> or_nothing(replies.links)[i].usable) by {
            assert(link_row(or_nothing(replies.links)[i], view.links@[i]));
        }
        assert forall|i: int| 0 <= i < panel.invitations@.len() implies ((
        #[trigger] panel.invitations@[i]).cancellable <==> or_nothing(replies.invitations)[i].status@
            == "pending"@) by {
            assert(invitation_row(or_nothing(replies.invitations)[i], view.invitations@[i]));
        }
    }
}

/// A team tells its people in one line, in their order, and whoever manages may add any
/// member, in the order of the members.
pub proof fn law_a_team_tells_its_people(
    row: TeamRow,
    members: Seq<MemberRow>,
    manager: bool,
    line: TeamLine,
)
    requires
        team_line(row, members, manager, line),
    ensures
        row.members@.len() == 0 ==> line.people is None,
        row.members@.len() == 1 ==> line.people is Some && line.people->0@ == row.members@[0]@,
        row.members@.len() == 2 ==> line.people is Some && line.people->0@ == row.members@[0]@ + seq![
            ',',
            ' ',
        ] + row.members@[1]@,
        manager <==> line.addable is Some,
        manager ==> line.addable->0@.len() == members.len() && forall|i: int|
            0 <= i < members.len() ==> (#[trigger] line.addable->0@[i]).user_id == members[i].user_id
                && line.addable->0@[i].name@ == members[i].name@,
        manager <==> line.deletable,
{
    let names = crate::text::views(row.members@);
    reveal_strlit(", ");
    assert(", "@ =~= seq![',', ' ']);
    if row.members@.len() == 1 {
        assert(names[0] == row.members@[0]@);
    }
    if row.members@.len() == 2 {
        assert(names[0] == row.members@[0]@);
        assert(names.last() == row.members@[1]@);
        assert(names.drop_last()[0] == names[0]);
        reveal_with_fuel(crate::text::joined, 2);
    }
}

/// An organization is listed as it is, with the role one has in it.
pub proof fn law_an_organization_is_listed_as_it_is(b: OrgBundle, row: OrgRow)
    requires
        org_row(b, row),
    ensures
        row.id == b.organization.id,
        row.name@ == b.organization.name@,
        row.slug@ == b.organization.slug@,
        row.role@ == b.role@,
{
}

} // verus!
