//! The settings application: a rail, and a working surface.
//!
//! The rail shows standing, not routes: who somebody is, which organizations
//! they are in and as what, and the server itself for its administrators.

use crate::auth_ui::engine::AuthUser;
use crate::auth_ui::guest::is_guest;
use crate::auth_ui::views::{unwrap_or_blank, OrgBundle};
use crate::ids::uuid_text;
use crate::text::{cat, copy, same};
use vstd::prelude::*;

verus! {

/// One organization, as the rail shows it.
#[derive(Clone, Debug, PartialEq, Eq)]
pub struct NavOrg {
    pub id: String,
    pub name: String,
    pub role: String,
}

/// Everything the rail needs.
#[derive(Clone, Debug, Default, PartialEq, Eq)]
pub struct Nav {
    /// The path being rendered, so one item can mark itself current.
    pub current: String,
    pub name: String,
    pub email: String,
    pub is_admin: bool,
    pub is_guest: bool,
    pub orgs: Vec<NavOrg>,
}

/// The name on the rail: what somebody goes by, or a stand-in where that is
/// nothing.
pub open spec fn rail_name(user: AuthUser) -> Seq<char> {
    match crate::auth_ui::engine::goes_by(user) {
        Some(name) => name,
        None => if crate::auth_ui::guest::guest(user) {
            "Guest"@
        } else {
            "Unnamed"@
        },
    }
}

pub open spec fn nav_org(b: OrgBundle, org: NavOrg) -> bool {
    &&& org.id@ == crate::ids::hyphenated(b.organization.id)
    &&& org.name@ == b.organization.name@
    &&& org.role@ == b.role@
}

/// What the rail holds for somebody, on one page.
pub open spec fn stands(nav: Nav, user: AuthUser, orgs: Seq<OrgBundle>, current: Seq<char>) -> bool {
    &&& nav.current@ == current
    &&& nav.name@ == rail_name(user)
    &&& nav.email@ == crate::auth_ui::views::or_blank(user.email)
    &&& nav.is_admin == (user.role matches Some(role) && role@ == "admin"@)
    &&& nav.is_guest == crate::auth_ui::guest::guest(user)
    &&& nav.orgs@.len() == orgs.len()
    &&& forall|i: int| 0 <= i < orgs.len() ==> nav_org(orgs[i], #[trigger] nav.orgs@[i])
}

impl Nav {
    /// The rail for the signed-in person; none without a session. A list of
    /// organizations that could not be read is empty.
    pub fn build(
        session: Result<AuthUser, String>,
        orgs: Result<Vec<OrgBundle>, String>,
        current: &str,
    ) -> (res: Option<Nav>)
        ensures
            match session {
                Ok(user) => res matches Some(nav) && stands(
                    nav,
                    user,
                    crate::auth_ui::views::or_nothing(orgs),
                    current@,
                ),
                Err(_) => res is None,
            },
    {
        let user = match session {
            Ok(user) => user,
            Err(_) => return None,
        };
        let list = match orgs {
            Ok(list) => list,
            Err(_) => Vec::new(),
        };
        let ghost all = list@;
        assert(all == crate::auth_ui::views::or_nothing(orgs));
        let mut shown: Vec<NavOrg> = Vec::new();
        for bundle in it: list
            invariant
                it.seq() == all,
                shown@.len() == it.index(),
                forall|j: int| 0 <= j < shown@.len() ==> nav_org(all[j], #[trigger] shown@[j]),
        {
            shown.push(
                NavOrg {
                    id: uuid_text(bundle.organization.id),
                    name: bundle.organization.name,
                    role: bundle.role,
                },
            );
        }
        let guest = is_guest(&user);
        let name = match user.known_name() {
            Some(name) => name,
            None => (if guest {
                "Guest"
            } else {
                "Unnamed"
            }).to_owned(),
        };
        let is_admin = match &user.role {
            Some(role) => same(role.as_str(), "admin"),
            None => false,
        };
        Some(
            Nav {
                current: current.to_owned(),
                name,
                email: unwrap_or_blank(&user.email),
                is_admin,
                is_guest: guest,
                orgs: shown,
            },
        )
    }
}

/// One link of the rail.
#[derive(Clone, Debug, PartialEq, Eq)]
pub struct RailLink {
    pub href: String,
    pub label: String,
    pub active: bool,
}

/// One organization's link, with the role beside it.
#[derive(Clone, Debug, PartialEq, Eq)]
pub struct OrgLink {
    pub href: String,
    pub name: String,
    pub role: String,
    pub active: bool,
}

/// The rail, link by link.
#[derive(Clone, Debug, PartialEq, Eq)]
pub struct Rail {
    pub name: String,
    /// The line beneath the name.
    pub standing: Option<String>,
    pub account: Vec<RailLink>,
    pub orgs: Vec<OrgLink>,
    pub all_orgs: RailLink,
    pub switch: RailLink,
    pub server: Option<RailLink>,
}

/// The account pages, in the order somebody works down them.
pub open spec fn account_pages() -> Seq<(Seq<char>, Seq<char>)> {
    seq![
        ("/account/profile"@, "Profile"@),
        ("/account"@, "Linked accounts"@),
        ("/account/passkeys"@, "Passkeys"@),
        ("/account/two-factor"@, "Two-factor"@),
        ("/account/phone"@, "Phone"@),
        ("/account/sessions"@, "Sessions"@),
        ("/account/api-keys"@, "API keys"@),
    ]
}

/// A link, lit up on its own page and no other: `/account` does not light up
/// on the pages beneath it.
pub open spec fn link_for(
    link: RailLink,
    href: Seq<char>,
    label: Seq<char>,
    current: Seq<char>,
) -> bool {
    &&& link.href@ == href
    &&& link.label@ == label
    &&& link.active == (current == href)
}

fn link(href: &str, label: &str, current: &str) -> (res: RailLink)
    ensures
        link_for(res, href@, label@, current@),
{
    RailLink { href: href.to_owned(), label: label.to_owned(), active: same(current, href) }
}

fn account_links(current: &str) -> (res: Vec<RailLink>)
    ensures
        res@.len() == account_pages().len(),
        forall|i: int|
            0 <= i < res@.len() ==> link_for(
                #[trigger] res@[i],
                account_pages()[i].0,
                account_pages()[i].1,
                current@,
            ),
{
    vec![
        link("/account/profile", "Profile", current),
        link("/account", "Linked accounts", current),
        link("/account/passkeys", "Passkeys", current),
        link("/account/two-factor", "Two-factor", current),
        link("/account/phone", "Phone", current),
        link("/account/sessions", "Sessions", current),
        link("/account/api-keys", "API keys", current),
    ]
}

pub open spec fn org_link(org: NavOrg, current: Seq<char>, link: OrgLink) -> bool {
    &&& link.href@ == "/orgs/"@ + org.id@
    &&& link.name@ == org.name@
    &&& link.role@ == org.role@
    &&& link.active == (current == "/orgs/"@ + org.id@)
}

/// What the rail shows.
pub open spec fn railed(nav: Nav, rail: Rail) -> bool {
    &&& rail.name@ == nav.name@
    &&& crate::text::opt_view(rail.standing) == if nav.is_guest {
        Some("Not saved yet"@)
    } else if nav.email@.len() > 0 {
        Some(nav.email@)
    } else {
        None
    }
    &&& rail.account@.len() == account_pages().len()
    &&& forall|i: int|
        0 <= i < rail.account@.len() ==> link_for(
            #[trigger] rail.account@[i],
            account_pages()[i].0,
            account_pages()[i].1,
            nav.current@,
        )
    &&& rail.orgs@.len() == nav.orgs@.len()
    &&& forall|i: int|
        0 <= i < rail.orgs@.len() ==> org_link(
            nav.orgs@[i],
            nav.current@,
            #[trigger] rail.orgs@[i],
        )
    &&& link_for(
        rail.all_orgs,
        "/orgs"@,
        if nav.orgs@.len() == 0 {
            "Make one"@
        } else {
            "All organizations"@
        },
        nav.current@,
    )
    &&& link_for(rail.switch, "/account/switch"@, "Switch account"@, nav.current@)
    &&& match rail.server {
        Some(link) => nav.is_admin && link_for(link, "/admin/users"@, "Users"@, nav.current@),
        None => !nav.is_admin,
    }
}

impl Nav {
    /// The rail, link by link: the account pages, the organizations with the
    /// role in each, and the server for an administrator.
    pub fn rail(&self) -> (res: Rail)
        ensures
            railed(*self, res),
    {
        let current = self.current.as_str();
        let mut orgs: Vec<OrgLink> = Vec::new();
        for i in 0..self.orgs.len()
            invariant
                current@ == self.current@,
                orgs@.len() == i,
                forall|j: int|
                    0 <= j < i ==> org_link(self.orgs@[j], current@, #[trigger] orgs@[j]),
        {
            let org = &self.orgs[i];
            let href = cat("/orgs/", org.id.as_str());
            let active = same(current, href.as_str());
            orgs.push(OrgLink { href, name: copy(&org.name), role: copy(&org.role), active });
        }
        let standing = if self.is_guest {
            Some("Not saved yet".to_owned())
        } else if self.email.as_str().unicode_len() > 0 {
            Some(copy(&self.email))
        } else {
            None
        };
        Rail {
            name: copy(&self.name),
            standing,
            account: account_links(current),
            orgs,
            all_orgs: link(
                "/orgs",
                if self.orgs.len() == 0 {
                    "Make one"
                } else {
                    "All organizations"
                },
                current,
            ),
            switch: link("/account/switch", "Switch account", current),
            server: if self.is_admin {
                Some(link("/admin/users", "Users", current))
            } else {
                None
            },
        }
    }
}

/// At most one link of the account pages is lit up at a time.
pub proof fn law_at_most_one_page_is_current(nav: Nav, rail: Rail, i: int, j: int)
    requires
        railed(nav, rail),
        0 <= i < j < rail.account@.len(),
    ensures
        !(rail.account@[i].active && rail.account@[j].active),
{
    reveal_strlit("/account/profile");
    reveal_strlit("/account");
    reveal_strlit("/account/passkeys");
    reveal_strlit("/account/two-factor");
    reveal_strlit("/account/phone");
    reveal_strlit("/account/sessions");
    reveal_strlit("/account/api-keys");
    let pages = account_pages();
    assert(link_for(rail.account@[i], pages[i].0, pages[i].1, nav.current@));
    assert(link_for(rail.account@[j], pages[j].0, pages[j].1, nav.current@));
    if pages[i].0 == pages[j].0 {
        assert(pages[0].0[9] == 'p' && pages[0].0[10] == 'r');
        assert(pages[1].0.len() == 8);
        assert(pages[2].0[9] == 'p' && pages[2].0[10] == 'a');
        assert(pages[3].0[9] == 't');
        assert(pages[4].0[9] == 'p' && pages[4].0[10] == 'h');
        assert(pages[5].0[9] == 's');
        assert(pages[6].0[9] == 'a');
    }
}

/// The rail shows an account by the name it goes by; one without any is a guest's or has
/// no name.
pub proof fn law_the_rail_shows_the_name(user: AuthUser)
    ensures
        user.name is Some && !crate::text::blank(user.name->0@) ==> rail_name(user) == user.name->0@,
        user.name is None && user.username is Some ==> rail_name(user) == user.username->0@,
        user.name is None && user.username is None && user.role is Some && user.role->0@
            == "anonymous"@ ==> rail_name(user) == "Guest"@,
        user.name is None && user.username is None && user.role is None ==> rail_name(user)
            == "Unnamed"@,
{
    crate::auth_ui::engine::law_a_name_that_shows_comes_first(user);
    crate::auth_ui::guest::law_only_the_anonymous_are_guests(user);
}

/// The rail leads to every organization there is, in order, and to the server's pages for
/// admins alone; a guest is told that nothing is saved, anyone else their address.
pub proof fn law_the_rail_leads_where_the_account_may_go(
    nav: Nav,
    rail: Rail,
    user: AuthUser,
    orgs: Seq<OrgBundle>,
    current: Seq<char>,
)
    requires
        stands(nav, user, orgs, current),
        railed(nav, rail),
    ensures
        rail.orgs@.len() == orgs.len(),
        forall|i: int|
            0 <= i < orgs.len() ==> (#[trigger] rail.orgs@[i]).href@ == crate::auth_ui::orgs::org_path(
                orgs[i].organization.id,
            ) && rail.orgs@[i].name@ == orgs[i].organization.name@ && rail.orgs@[i].role@
                == orgs[i].role@ && (rail.orgs@[i].active <==> current == rail.orgs@[i].href@),
        rail.server is Some <==> user.role is Some && user.role->0@ == "admin"@,
        forall|i: int|
            0 <= i < rail.account@.len() ==> ((#[trigger] rail.account@[i]).active <==> current
                == rail.account@[i].href@),
        rail.switch.active <==> current == rail.switch.href@,
        rail.all_orgs.active <==> current == rail.all_orgs.href@,
        user.role is None && user.email is Some && user.email->0@.len() > 0 ==> rail.standing is Some
            && rail.standing->0@ == user.email->0@,
        user.role is None && user.email is None ==> rail.standing is None,
        crate::auth_ui::guest::guest(user) ==> rail.standing is Some && (user.email is Some
            ==> rail.standing->0@ == "Not saved yet"@),
{
    assert forall|i: int| 0 <= i < orgs.len() implies (#[trigger] rail.orgs@[i]).href@
        == crate::auth_ui::orgs::org_path(orgs[i].organization.id) && rail.orgs@[i].name@
        == orgs[i].organization.name@ && rail.orgs@[i].role@ == orgs[i].role@ && (
    rail.orgs@[i].active <==> current == rail.orgs@[i].href@) by {
        assert(nav_org(orgs[i], nav.orgs@[i]));
        assert(org_link(nav.orgs@[i], nav.current@, rail.orgs@[i]));
    }
    crate::auth_ui::guest::law_only_the_anonymous_are_guests(user);
}

} // verus!
