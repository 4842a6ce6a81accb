//! `/admin/users` — the operator's screen.
//!
//! Every request is checked on its own: an administrator who is demoted
//! stops being one on their next click. Impersonation replaces the
//! operator's session cookie and parks their own token beside it; stopping
//! puts it back.

use crate::auth::expiry::Moment;
use crate::auth_ui::cookies::cookie;
use crate::auth_ui::dates::day_of;
use crate::auth_ui::engine::{AuthUser, CookiePolicy, SessionInfo};
use crate::auth_ui::orgs::fill;
use crate::auth_ui::page::{flash_to, just_go, settle, sign_in_first, with_session, Begin, Flash, Reply};
use crate::auth_ui::views::{flash_of, unwrap_or_blank};
use crate::text::{cat, cat3, copy, decimal_of, same};
use vstd::prelude::*;

verus! {

/// How many people a page shows: the list is read to find one person.
pub const PAGE_SIZE: usize = 25;

/// What the operator's screen asks of the engine.
#[derive(Clone, Debug, PartialEq, Eq)]
pub enum AdminCommand {
    ListUsers { session_token: String, offset: usize, limit: usize },
    /// No role is what an ordinary account has.
    SetUserRole { session_token: String, user_id: u128, role: Option<String> },
    BanUser {
        session_token: String,
        user_id: u128,
        reason: Option<String>,
        expires_at: Option<Moment>,
    },
    UnbanUser { session_token: String, user_id: u128 },
    RemoveUser { session_token: String, user_id: u128 },
    ImpersonateUser { session_token: String, user_id: u128 },
    StopImpersonating { session_token: String },
}

#[derive(Clone, Debug, Default, PartialEq, Eq)]
pub struct UsersQuery {
    pub offset: Option<usize>,
    pub ok: Option<String>,
    pub error: Option<String>,
}

#[derive(Clone, Debug, PartialEq, Eq)]
pub struct UserForm {
    pub user_id: u128,
    pub role: Option<String>,
    pub reason: Option<String>,
}

/// A page of accounts, and how many there are in all.
#[derive(Clone, Debug, PartialEq, Eq)]
pub struct ListedUsers {
    pub users: Vec<AuthUser>,
    pub total: usize,
}

#[derive(Clone, Debug, PartialEq, Eq)]
pub struct UserRow {
    pub id: u128,
    pub email: String,
    pub name: String,
    pub role: String,
    pub banned: bool,
    pub ban_reason: String,
    pub two_factor: bool,
    pub verified: bool,
    pub created: String,
    pub is_you: bool,
}

/// The accounts on one page of the list.
#[derive(Clone, Debug, PartialEq, Eq)]
pub struct UsersView {
    pub rows: Vec<UserRow>,
    pub total: usize,
    pub offset: usize,
    pub impersonating: bool,
    pub flash: Option<Flash>,
}

/// `GET /admin/users`: signing in first, or the session to check.
pub fn users(token: Option<String>) -> (res: Begin<String>)
    ensures
        crate::auth_ui::page::begun(
            res,
            token,
            "/admin/users"@,
            |session: String, t: Seq<char>| session@ == t,
        ),
{
    with_session(token, "/admin/users")
}

/// Where a page of the list begins.
pub open spec fn first_shown(q: UsersQuery) -> usize {
    match q.offset {
        Some(offset) => offset,
        None => 0,
    }
}

/// What is listed once the engine has said whether this is an administrator;
/// nothing where it is not, and the page is forbidden.
pub fn users_authorized(
    token: String,
    authorized: &Result<AuthUser, String>,
    q: &UsersQuery,
) -> (res: Option<AdminCommand>)
    ensures
        match *authorized {
            Ok(_) => res matches Some(AdminCommand::ListUsers { session_token, offset, limit })
                && session_token == token && offset == first_shown(*q) && limit == PAGE_SIZE,
            Err(_) => res is None,
        },
{
    match authorized {
        Ok(_) => Some(
            AdminCommand::ListUsers {
                session_token: token,
                offset: match q.offset {
                    Some(offset) => offset,
                    None => 0,
                },
                limit: PAGE_SIZE,
            },
        ),
        Err(_) => None,
    }
}

pub open spec fn user_row(user: AuthUser, you: u128, row: UserRow) -> bool {
    &&& row.id == user.id
    &&& row.email@ == crate::auth_ui::views::or_blank(user.email)
    &&& row.name@ == match crate::auth_ui::engine::goes_by(user) {
        Some(name) => name,
        None => Seq::empty(),
    }
    &&& row.role@ == match user.role {
        Some(role) => role@,
        None => "user"@,
    }
    &&& row.banned == user.banned
    &&& row.ban_reason@ == crate::auth_ui::views::or_blank(user.ban_reason)
    &&& row.two_factor == user.two_factor_enabled
    &&& row.verified == user.email_verified
    &&& row.created@ == crate::auth_ui::dates::utc_day(user.created_at.secs, user.created_at.nanos)
    &&& row.is_you == (user.id == you)
}

fn user_rows(users: &Vec<AuthUser>, you: u128) -> (res: Vec<UserRow>)
    requires
        forall|i: int| 0 <= i < users@.len() ==> (#[trigger] users@[i]).created_at.valid(),
    ensures
        res@.len() == users@.len(),
        forall|i: int| 0 <= i < res@.len() ==> user_row(users@[i], you, #[trigger] res@[i]),
{
    let mut rows: Vec<UserRow> = Vec::new();
    for i in 0..users.len()
        invariant
            rows@.len() == i,
            forall|j: int| 0 <= j < users@.len() ==> (#[trigger] users@[j]).created_at.valid(),
            forall|j: int| 0 <= j < i ==> user_row(users@[j], you, #[trigger] rows@[j]),
    {
        let user = &users[i];
        let known = user.known_name();
        rows.push(
            UserRow {
                id: user.id,
                email: unwrap_or_blank(&user.email),
                name: unwrap_or_blank(&known),
                role: match &user.role {
                    Some(role) => copy(role),
                    None => "user".to_owned(),
                },
                banned: user.banned,
                ban_reason: unwrap_or_blank(&user.ban_reason),
                two_factor: user.two_factor_enabled,
                verified: user.email_verified,
                created: day_of(user.created_at),
                is_you: user.id == you,
            },
        );
    }
    rows
}

/// What the list shows once the engine has answered; nothing where the list
/// was refused, and the page is forbidden.
pub fn users_page(
    you: u128,
    listed: Result<ListedUsers, String>,
    session: &Result<SessionInfo, String>,
    q: &UsersQuery,
) -> (res: Option<UsersView>)
    requires
        listed matches Ok(l) ==> forall|i: int|
            0 <= i < l.users@.len() ==> (#[trigger] l.users@[i]).created_at.valid(),
    ensures
        match listed {
            Ok(l) => res matches Some(view) && view.rows@.len() == l.users@.len() && (forall|i: int|
                0 <= i < l.users@.len() ==> user_row(l.users@[i], you, #[trigger] view.rows@[i]))
                && view.total == l.total && view.offset == first_shown(*q) && view.impersonating
                == (*session matches Ok(s) && s.impersonated_by is Some)
                && crate::auth_ui::page::flash_view(view.flash) == crate::auth_ui::views::flash_in(
                q.ok,
                q.error,
            ),
            Err(_) => res is None,
        },
{
    match listed {
        Ok(l) => Some(
            UsersView {
                rows: user_rows(&l.users, you),
                total: l.total,
                offset: match q.offset {
                    Some(offset) => offset,
                    None => 0,
                },
                impersonating: match session {
                    Ok(s) => s.impersonated_by.is_some(),
                    Err(_) => false,
                },
                flash: flash_of(&q.ok, &q.error),
            },
        ),
        Err(_) => None,
    }
}

// ---------------------------------------------------------------------------
// The list, with its controls
// ---------------------------------------------------------------------------

/// An account, with the controls beside it.
#[derive(Clone, Debug, PartialEq, Eq)]
pub struct UserLine {
    pub row: UserRow,
    /// Whether the person is shown by name, with the address beneath.
    pub named: bool,
    pub is_admin: bool,
    /// Why the account is banned, where that was said.
    pub reason: Option<String>,
    pub unverified: bool,
    pub unbannable: bool,
    pub bannable: bool,
    pub impersonable: bool,
    pub deletable: bool,
}

/// A page of the list.
#[derive(Clone, Debug, PartialEq, Eq)]
pub struct UsersPage {
    pub sub: String,
    pub flash: Option<Flash>,
    pub impersonating: bool,
    pub lines: Vec<UserLine>,
    pub previous: Option<String>,
    pub next: Option<String>,
}

pub open spec fn user_line(row: UserRow, line: UserLine) -> bool {
    &&& line.row == row
    &&& line.named == (row.name@.len() > 0)
    &&& line.is_admin == (row.role@ == "admin"@)
    &&& crate::text::opt_view(line.reason) == if row.banned && row.ban_reason@.len() > 0 {
        Some(row.ban_reason@)
    } else {
        None
    }
    &&& line.unverified == !row.verified
    &&& line.unbannable == row.banned
    &&& line.bannable == (!row.banned && !row.is_you)
    &&& line.impersonable == !row.is_you
    &&& line.deletable == !row.is_you
}

/// The list from an offset on.
pub open spec fn page_from(offset: int) -> Seq<char> {
    "/admin/users?offset="@ + crate::text::decimal(offset as nat)
}

/// Where the page before begins, where there is one.
pub open spec fn page_before(offset: int) -> Option<int> {
    if offset == 0 {
        None
    } else if offset < PAGE_SIZE {
        Some(0)
    } else {
        Some(offset - PAGE_SIZE)
    }
}

/// Where the page after begins, where anybody is left to show.
pub open spec fn page_after(offset: int, shown: int, total: int) -> Option<int> {
    if offset + shown < total {
        Some(if offset + PAGE_SIZE > usize::MAX {
            usize::MAX as int
        } else {
            offset + PAGE_SIZE
        })
    } else {
        None
    }
}

pub open spec fn link_to(from: Option<int>) -> Option<Seq<char>> {
    match from {
        Some(offset) => Some(page_from(offset)),
        None => None,
    }
}

fn link_from(offset: usize) -> (res: String)
    ensures
        res@ == page_from(offset as int),
{
    let text = decimal_of(offset as u64);
    cat("/admin/users?offset=", text.as_str())
}

fn user_lines(rows: Vec<UserRow>) -> (res: Vec<UserLine>)
    ensures
        res@.len() == rows@.len(),
        forall|i: int| 0 <= i < res@.len() ==> user_line(rows@[i], #[trigger] res@[i]),
{
    let mut lines: Vec<UserLine> = Vec::new();
    let ghost all = rows@;
    for row in it: rows
        invariant
            it.seq() == all,
            lines@.len() == it.index(),
            forall|j: int| 0 <= j < lines@.len() ==> user_line(all[j], #[trigger] lines@[j]),
    {
        let named = row.name.as_str().unicode_len() > 0;
        let is_admin = same(row.role.as_str(), "admin");
        let reason = if row.banned && row.ban_reason.as_str().unicode_len() > 0 {
            Some(copy(&row.ban_reason))
        } else {
            None
        };
        let unverified = !row.verified;
        let unbannable = row.banned;
        let bannable = !row.banned && !row.is_you;
        let other = !row.is_you;
        lines.push(
            UserLine {
                row,
                named,
                is_admin,
                reason,
                unverified,
                unbannable,
                bannable,
                impersonable: other,
                deletable: other,
            },
        );
    }
    lines
}

impl UsersView {
    /// The list with its controls: nobody is offered to ban, impersonate or
    /// delete themselves, and the pages before and after are linked where
    /// there are any.
    pub fn lay_out(self) -> (res: UsersPage)
        ensures
            res.sub@ == crate::text::decimal(self.total as nat) + " account(s)."@,
            res.flash == self.flash,
            res.impersonating == self.impersonating,
            res.lines@.len() == self.rows@.len(),
            forall|i: int|
                0 <= i < res.lines@.len() ==> user_line(self.rows@[i], #[trigger] res.lines@[i]),
            crate::text::opt_view(res.previous) == link_to(page_before(self.offset as int)),
            crate::text::opt_view(res.next) == link_to(
                page_after(self.offset as int, self.rows@.len() as int, self.total as int),
            ),
    {
        let shown = self.rows.len();
        let total = decimal_of(self.total as u64);
        let previous = if self.offset > 0 {
            Some(
                link_from(
                    if self.offset < PAGE_SIZE {
                        0
                    } else {
                        self.offset - PAGE_SIZE
                    },
                ),
            )
        } else {
            None
        };
        let more = shown < self.total && self.offset < self.total - shown;
        let next = if more {
            Some(
                link_from(
                    if self.offset > usize::MAX - PAGE_SIZE {
                        usize::MAX
                    } else {
                        self.offset + PAGE_SIZE
                    },
                ),
            )
        } else {
            None
        };
        UsersPage {
            sub: cat(total.as_str(), " account(s)."),
            flash: self.flash,
            impersonating: self.impersonating,
            lines: user_lines(self.rows),
            previous,
            next,
        }
    }
}

// ---------------------------------------------------------------------------
// What is done to an account
// ---------------------------------------------------------------------------

/// The role a form asks for: none where it is blank or `user`.
pub open spec fn role_for(role: Option<String>) -> Option<Seq<char>> {
    match crate::auth_ui::orgs::filled(crate::auth_ui::views::or_blank(role)) {
        Some(r) => if r == "user"@ {
            None
        } else {
            Some(r)
        },
        None => None,
    }
}

/// `POST /admin/users/role`
pub fn set_role(token: Option<String>, form: &UserForm) -> (res: Begin<AdminCommand>)
    ensures
        crate::auth_ui::page::begun(
            res,
            token,
            "/admin/users"@,
            |c: AdminCommand, t: Seq<char>|
                c matches AdminCommand::SetUserRole { session_token, user_id, role }
                    && session_token@ == t && user_id == form.user_id && crate::text::opt_view(role)
                    == role_for(form.role),
        ),
{
    let session_token = match token {
        Some(t) => t,
        None => return Begin::Go(sign_in_first("/admin/users")),
    };
    let typed = unwrap_or_blank(&form.role);
    let role = match fill(typed.as_str()) {
        Some(r) => if same(r.as_str(), "user") {
            None
        } else {
            Some(r)
        },
        None => None,
    };
    Begin::Ask(AdminCommand::SetUserRole { session_token, user_id: form.user_id, role })
}

pub fn role_set(outcome: &Result<(), String>) -> (res: String)
    ensures
        res@ == crate::auth_ui::page::settled("/admin/users"@, "Role updated."@, *outcome),
{
    settle("/admin/users", "Role updated.", outcome)
}

/// `POST /admin/users/ban`: a ban from here does not run out.
pub fn ban(token: Option<String>, form: &UserForm) -> (res: Begin<AdminCommand>)
    ensures
        crate::auth_ui::page::begun(
            res,
            token,
            "/admin/users"@,
            |c: AdminCommand, t: Seq<char>|
                c matches AdminCommand::BanUser { session_token, user_id, reason, expires_at }
                    && session_token@ == t && user_id == form.user_id && crate::text::opt_view(
                    reason,
                ) == crate::auth_ui::orgs::filled(crate::auth_ui::views::or_blank(form.reason))
                    && expires_at is None,
        ),
{
    match token {
        Some(session_token) => {
            let typed = unwrap_or_blank(&form.reason);
            Begin::Ask(
                AdminCommand::BanUser {
                    session_token,
                    user_id: form.user_id,
                    reason: fill(typed.as_str()),
                    expires_at: None,
                },
            )
        },
        None => Begin::Go(sign_in_first("/admin/users")),
    }
}

pub fn banned(outcome: &Result<(), String>) -> (res: String)
    ensures
        res@ == crate::auth_ui::page::settled("/admin/users"@, "Account banned."@, *outcome),
{
    settle("/admin/users", "Account banned.", outcome)
}

/// `POST /admin/users/unban`
pub fn unban(token: Option<String>, form: &UserForm) -> (res: Begin<AdminCommand>)
    ensures
        crate::auth_ui::page::begun(
            res,
            token,
            "/admin/users"@,
            |c: AdminCommand, t: Seq<char>|
                c matches AdminCommand::UnbanUser { session_token, user_id } && session_token@ == t
                    && user_id == form.user_id,
        ),
{
    match token {
        Some(session_token) => Begin::Ask(
            AdminCommand::UnbanUser { session_token, user_id: form.user_id },
        ),
        None => Begin::Go(sign_in_first("/admin/users")),
    }
}

pub fn unbanned(outcome: &Result<(), String>) -> (res: String)
    ensures
        res@ == crate::auth_ui::page::settled("/admin/users"@, "Account unbanned."@, *outcome),
{
    settle("/admin/users", "Account unbanned.", outcome)
}

/// `POST /admin/users/delete`
pub fn delete(token: Option<String>, form: &UserForm) -> (res: Begin<AdminCommand>)
    ensures
        crate::auth_ui::page::begun(
            res,
            token,
            "/admin/users"@,
            |c: AdminCommand, t: Seq<char>|
                c matches AdminCommand::RemoveUser { session_token, user_id } && session_token@ == t
                    && user_id == form.user_id,
        ),
{
    match token {
        Some(session_token) => Begin::Ask(
            AdminCommand::RemoveUser { session_token, user_id: form.user_id },
        ),
        None => Begin::Go(sign_in_first("/admin/users")),
    }
}

pub fn deleted(outcome: &Result<(), String>) -> (res: String)
    ensures
        res@ == crate::auth_ui::page::settled("/admin/users"@, "Account deleted."@, *outcome),
{
    settle("/admin/users", "Account deleted.", outcome)
}

// ---------------------------------------------------------------------------
// Impersonation
// ---------------------------------------------------------------------------

/// The cookie that holds the operator's own token meanwhile.
pub open spec fn operator_cookie(session_cookie: Seq<char>) -> Seq<char> {
    session_cookie + ".operator"@
}

/// The name of the cookie holding the operator's own session while they are
/// impersonating somebody.
pub fn admin_cookie_name(session_cookie: &str) -> (res: String)
    ensures
        res@ == operator_cookie(session_cookie@),
{
    cat(session_cookie, ".operator")
}

/// The parked operator token, if there is one.
pub fn parked_token(headers: &Vec<String>, session_cookie: &str) -> (res: Option<String>)
    ensures
        crate::text::opt_view(res) == crate::auth_ui::cookies::cookie_in(
            crate::text::views(headers@),
            operator_cookie(session_cookie@),
        ),
{
    let name = admin_cookie_name(session_cookie);
    cookie(headers, name.as_str())
}

/// `POST /admin/users/impersonate` — become them.
pub fn impersonate(token: Option<String>, form: &UserForm) -> (res: Begin<AdminCommand>)
    ensures
        crate::auth_ui::page::begun(
            res,
            token,
            "/admin/users"@,
            |c: AdminCommand, t: Seq<char>|
                c matches AdminCommand::ImpersonateUser { session_token, user_id } && session_token@
                    == t && user_id == form.user_id,
        ),
{
    match token {
        Some(session_token) => Begin::Ask(
            AdminCommand::ImpersonateUser { session_token, user_id: form.user_id },
        ),
        None => Begin::Go(sign_in_first("/admin/users")),
    }
}

/// The browser takes the other person's session, and the operator's own
/// token is parked: without it, stopping would leave them signed out.
pub fn impersonated(
    operator: String,
    policy: &CookiePolicy,
    outcome: Result<String, String>,
) -> (res: Reply)
    ensures
        match outcome {
            Ok(token) => res.location@ == "/account/profile"@ && (res.session matches Some(s) && s@
                == token@) && (res.parked matches Some(p) && (p.0)@ == operator_cookie(policy.name@)
                && (p.1)@ == operator@) && res.cookies@.len() == 0,
            Err(e) => crate::auth_ui::page::plain_reply(
                res,
                crate::auth_ui::page::flashed(
                    "/admin/users"@,
                    crate::auth_ui::page::Said::Error(e@),
                ),
            ),
        },
{
    match outcome {
        Ok(token) => Reply {
            location: "/account/profile".to_owned(),
            session: Some(token),
            parked: Some((admin_cookie_name(policy.name.as_str()), operator)),
            cookies: Vec::new(),
        },
        Err(e) => just_go(flash_to("/admin/users", &Flash::Error(e))),
    }
}

/// `POST /admin/stop-impersonating`
pub fn stop(token: Option<String>) -> (res: Begin<AdminCommand>)
    ensures
        crate::auth_ui::page::begun(
            res,
            token,
            "/admin/users"@,
            |c: AdminCommand, t: Seq<char>|
                c matches AdminCommand::StopImpersonating { session_token } && session_token@ == t,
        ),
{
    match token {
        Some(session_token) => Begin::Ask(AdminCommand::StopImpersonating { session_token }),
        None => Begin::Go(sign_in_first("/admin/users")),
    }
}

/// The `Set-Cookie` value that unparks: `Max-Age=0` asks a browser to forget.
pub open spec fn unparked(policy: CookiePolicy) -> Seq<char> {
    operator_cookie(policy.name@) + "=; Path="@ + policy.path@ + "; Max-Age=0; HttpOnly"@ + (
    if policy.secure {
        "; Secure"@
    } else {
        ""@
    })
}

/// The operator's own session comes back and the park is cleared. With
/// nothing parked they have to sign in again; the other person's session is
/// over either way.
pub fn stopped(
    headers: &Vec<String>,
    policy: &CookiePolicy,
    outcome: Result<(), String>,
) -> (res: Reply)
    ensures
        match outcome {
            Ok(_) => res.parked is None && crate::text::views(res.cookies@) == seq![
                unparked(*policy),
            ] && match crate::auth_ui::cookies::cookie_in(
                crate::text::views(headers@),
                operator_cookie(policy.name@),
            ) {
                Some(operator) => res.location@ == "/admin/users"@ && (res.session matches Some(s)
                    && s@ == operator),
                None => res.location@ == crate::auth_ui::page::flashed(
                    "/login"@,
                    crate::auth_ui::page::Said::Success("Impersonation ended."@),
                ) && res.session is None,
            },
            Err(e) => crate::auth_ui::page::plain_reply(
                res,
                crate::auth_ui::page::flashed(
                    "/admin/users"@,
                    crate::auth_ui::page::Said::Error(e@),
                ),
            ),
        },
{
    match outcome {
        Ok(_) => {
            let name = admin_cookie_name(policy.name.as_str());
            let mut cleared = cat3(name.as_str(), "=; Path=", policy.path.as_str());
            cleared.append("; Max-Age=0; HttpOnly");
            cleared.append(if policy.secure { "; Secure" } else { "" });
            let mut cookies: Vec<String> = Vec::new();
            cookies.push(cleared);
            assert(crate::text::views(cookies@) =~= seq![unparked(*policy)]);
            match parked_token(headers, policy.name.as_str()) {
                Some(operator) => Reply {
                    location: "/admin/users".to_owned(),
                    session: Some(operator),
                    parked: None,
                    cookies,
                },
                None => Reply {
                    location: flash_to(
                        "/login",
                        &Flash::Success("Impersonation ended.".to_owned()),
                    ),
                    session: None,
                    parked: None,
                    cookies,
                },
            }
        },
        Err(e) => just_go(flash_to("/admin/users", &Flash::Error(e))),
    }
}

/// The banner a page shows while impersonating.
pub fn impersonation_notice() -> (res: &'static str)
    ensures
        res@ == "You are signed in as someone else."@,
{
    "You are signed in as someone else."
}

// ---------------------------------------------------------------------------
// Laws
// ---------------------------------------------------------------------------

/// Going on and back again ends on the page it began on, wherever that was.
pub proof fn law_previous_undoes_next(offset: int, shown: int, total: int)
    requires
        0 <= offset,
        offset + PAGE_SIZE <= usize::MAX,
        page_after(offset, shown, total) is Some,
    ensures
        page_after(offset, shown, total) matches Some(next) && page_before(next) == Some(offset),
{
}

/// No operator is offered to ban, impersonate or delete their own account.
pub proof fn law_nobody_is_offered_to_act_on_themselves(user: AuthUser, row: UserRow, line: UserLine)
    requires
        user_row(user, user.id, row),
        user_line(row, line),
    ensures
        !line.bannable,
        !line.impersonable,
        !line.deletable,
{
}

/// Stopping gives the operator back the session they started from: the
/// token that was parked is the one that is read out of the browser.
pub proof fn law_the_parked_session_comes_back(session_cookie: Seq<char>, operator: Seq<char>)
    requires
        crate::text::free_of(session_cookie, ';'),
        crate::text::free_of(session_cookie, '='),
        session_cookie.len() > 0 ==> !crate::text::white_space(session_cookie[0]),
        crate::auth_ui::cookies::storable(operator),
    ensures
        crate::auth_ui::cookies::cookie_in(
            seq![operator_cookie(session_cookie) + "="@ + operator],
            operator_cookie(session_cookie),
        ) == Some(operator),
{
    reveal_strlit(".operator");
    let name = operator_cookie(session_cookie);
    assert forall|i: int| 0 <= i < name.len() implies name[i] != ';' && name[i] != '=' by {
        if i < session_cookie.len() {
            assert(name[i] == session_cookie[i]);
        }
    }
    crate::auth_ui::cookies::law_a_cookie_is_read_back(name, operator);
}

/// A page holds twenty-five accounts: the next one begins that many further on, where
/// any are left, and the previous one that many before, but not before the first.
pub proof fn law_a_page_holds_twenty_five(offset: int, shown: int, total: int)
    requires
        0 <= offset,
    ensures
        page_after(offset, shown, total) is Some <==> offset + shown < total,
        offset + shown < total && offset + 25 <= usize::MAX ==> page_after(offset, shown, total)
            == Some(offset + 25),
        page_before(offset) is None <==> offset == 0,
        offset > 25 ==> page_before(offset) == Some(offset - 25),
        0 < offset <= 25 ==> page_before(offset) == Some(0int),
{
}

/// A link to a page reads as the account the page begins with.
pub proof fn law_a_link_tells_where_its_page_begins(offset: int)
    requires
        0 <= offset <= u64::MAX,
    ensures
        link_to(Some(offset)) is Some,
        crate::text::begins(link_to(Some(offset))->0, "/admin/users?offset="@),
        crate::text::number(
            link_to(Some(offset))->0.skip("/admin/users?offset="@.len() as int),
        ) == Some(offset as u64),
        link_to(None) is None,
{
    let url = page_from(offset);
    let head = "/admin/users?offset="@;
    assert(url.subrange(0, head.len() as int) =~= head);
    assert(url.skip(head.len() as int) =~= crate::text::decimal(offset as nat));
    crate::text::law_numbers_are_read_back(offset as u64);
}

/// An account is listed under its own id, as an ordinary one where it has no role, and
/// whoever is an admin is marked as one.
pub proof fn law_an_account_is_listed_as_it_is(
    user: AuthUser,
    you: u128,
    row: UserRow,
    line: UserLine,
)
    requires
        user_row(user, you, row),
        user_line(row, line),
    ensures
        line.row.id == user.id,
        user.role is None ==> row.role@ == "user"@ && !line.is_admin,
        user.role is Some ==> row.role@ == user.role->0@ && (line.is_admin <==> user.role->0@
            == "admin"@),
        user.banned ==> line.unbannable && !line.bannable,
        !user.banned ==> !line.unbannable && line.reason is None,
        !user.banned && user.id != you ==> line.bannable,
        user.banned && user.ban_reason is Some && user.ban_reason->0@.len() > 0 ==> line.reason is Some
            && line.reason->0@ == user.ban_reason->0@,
        user.id != you ==> line.impersonable && line.deletable,
        line.unverified <==> !user.email_verified,
        row.two_factor <==> user.two_factor_enabled,
        user.name is Some && !crate::text::blank(user.name->0@) ==> line.named && row.name@
            == user.name->0@,
        user.name is None && user.username is None ==> !line.named,
        user.email is Some ==> row.email@ == user.email->0@,
{
    crate::auth_ui::engine::law_a_name_that_shows_comes_first(user);
    reveal_strlit("user");
    reveal_strlit("admin");
    assert("user"@.len() != "admin"@.len());
    if let Some(name) = user.name {
        if name@.len() == 0 {
            assert(crate::text::blank(name@));
        }
    }
}

/// An ordinary account has no role: `user`, or nothing, takes the role away, and any
/// other word gives it.
pub proof fn law_an_ordinary_account_has_no_role(
    role: Option<String>,
    a: Seq<char>,
    word: Seq<char>,
    b: Seq<char>,
)
    requires
        crate::text::blank(a),
        crate::text::blank(b),
        crate::text::trim_free(word),
    ensures
        role is None ==> role_for(role) is None,
        role is Some && role->0@ == a + word + b ==> role_for(role) == if word.len() == 0 || word
            == "user"@ {
            None
        } else {
            Some(word)
        },
{
    crate::text::law_trimming_takes_the_white_space_around(a, word, b);
    let nothing = Seq::<char>::empty();
    crate::text::law_white_space_alone_is_trimmed_to_nothing(nothing);
}

/// The operator's session is put by beside the session's own cookie, and clearing it
/// ends it at once, out of the scripts' reach.
pub proof fn law_the_operators_cookie_stands_beside(policy: CookiePolicy)
    ensures
        operator_cookie(policy.name@) != policy.name@,
        crate::text::begins(operator_cookie(policy.name@), policy.name@),
        crate::text::begins(
            unparked(policy),
            policy.name@ + ".operator=; Path="@ + policy.path@ + "; Max-Age=0; HttpOnly"@,
        ),
        policy.secure <==> crate::text::ends(unparked(policy), "; Secure"@),
{
    let name = operator_cookie(policy.name@);
    reveal_strlit(".operator");
    reveal_strlit("=; Path=");
    reveal_strlit(".operator=; Path=");
    reveal_strlit("; Secure");
    reveal_strlit("");
    reveal_strlit("; Max-Age=0; HttpOnly");
    assert(".operator=; Path="@ =~= ".operator"@ + "=; Path="@);
    assert(name.len() != policy.name@.len());
    assert(name.subrange(0, policy.name@.len() as int) =~= policy.name@);
    let head = policy.name@ + ".operator=; Path="@ + policy.path@ + "; Max-Age=0; HttpOnly"@;
    let whole = unparked(policy);
    let last = if policy.secure {
        "; Secure"@
    } else {
        ""@
    };
    assert(whole =~= head + last);
    assert(whole.subrange(0, head.len() as int) =~= head);
    if policy.secure {
        assert(whole.subrange(whole.len() - 8, whole.len() as int) =~= "; Secure"@);
    } else {
        assert(whole =~= head);
        assert(whole.last() == 'y');
        if crate::text::ends(whole, "; Secure"@) {
            let tail = whole.subrange(whole.len() - 8, whole.len() as int);
            assert(tail == "; Secure"@);
            assert(tail[7] == whole.last());
        }
    }
}

/// A list begins where it was asked to, and else with the first account.
pub proof fn law_a_list_begins_where_it_was_asked_to(q: UsersQuery)
    ensures
        q.offset is Some ==> first_shown(q) == q.offset->0,
        q.offset is None ==> first_shown(q) == 0,
{
}

} // verus!
