//! `/account/switch` — the accounts this browser is holding.
//!
//! Switching promotes one of the tokens already in the roster. Leaving one
//! account and leaving all of them are different acts, and both are offered.

use crate::auth_ui::engine::{AuthUser, CookiePolicy};
use crate::auth_ui::multi_session::{clear, forget, remember, retain_others, roster};
use crate::auth_ui::page::{flash_to, sign_in_first, Begin, Flash, Reply};
use crate::auth_ui::views::{flash_of, unwrap_or_blank};
use crate::text::{copy, same};
use vstd::prelude::*;

verus! {

/// A session the browser holds, as the engine resolves it.
#[derive(Clone, Debug, PartialEq, Eq)]
pub struct DeviceSession {
    pub token: String,
    pub user: AuthUser,
}

#[derive(Clone, Debug, PartialEq, Eq)]
pub struct AccountRow {
    pub token: String,
    pub name: String,
    pub email: String,
    pub current: bool,
}

#[derive(Clone, Debug, PartialEq, Eq)]
pub struct AccountsView {
    pub rows: Vec<AccountRow>,
    pub flash: Option<Flash>,
}

/// Whether a token is among some.
fn holds_token(tokens: &Vec<String>, token: &str) -> (res: bool)
    ensures
        res == crate::text::views(tokens@).contains(token@),
{
    for i in 0..tokens.len()
        invariant
            forall|j: int| 0 <= j < i ==> (#[trigger] tokens@[j])@ != token@,
    {
        if same(tokens[i].as_str(), token) {
            assert(crate::text::views(tokens@)[i as int] == token@);
            return true;
        }
    }
    assert forall|j: int| 0 <= j < crate::text::views(tokens@).len() implies crate::text::views(
        tokens@,
    )[j] != token@ by {
        assert(crate::text::views(tokens@)[j] == tokens@[j]@);
    }
    false
}

/// The tokens the page resolves: those held, and the current one before
/// them where it is not among them.
pub open spec fn resolved(held: Seq<Seq<char>>, current: Seq<char>) -> Seq<Seq<char>> {
    if held.contains(current) {
        held
    } else {
        seq![current] + held
    }
}

/// `GET /account/switch`: signing in first, or the tokens to resolve. The
/// current session is on its own page whether or not it is in the roster.
pub fn page(token: Option<String>, policy: &CookiePolicy, headers: &Vec<String>) -> (res: Begin<
    Vec<String>,
>)
    ensures
        crate::auth_ui::page::begun(
            res,
            token,
            "/account/switch"@,
            |tokens: Vec<String>, t: Seq<char>|
                crate::text::views(tokens@) == resolved(
                    crate::auth_ui::multi_session::held(
                        crate::text::views(headers@),
                        policy.name@,
                    ),
                    t,
                ),
        ),
{
    let current = match token {
        Some(t) => t,
        None => return Begin::Go(sign_in_first("/account/switch")),
    };
    let held = roster(headers, policy.name.as_str());
    if holds_token(&held, current.as_str()) {
        return Begin::Ask(held);
    }
    let ghost now = current@;
    let mut tokens = held;
    tokens.insert(0, current);
    assert(crate::text::views(tokens@) =~= seq![now] + crate::text::views(held@));
    Begin::Ask(tokens)
}

pub open spec fn account_row(s: DeviceSession, current: Seq<char>, row: AccountRow) -> bool {
    &&& row.token@ == s.token@
    &&& row.name@ == match crate::auth_ui::engine::goes_by(s.user) {
        Some(name) => name,
        None => "Unnamed"@,
    }
    &&& row.email@ == crate::auth_ui::views::or_blank(s.user.email)
    &&& row.current == (s.token@ == current)
}

/// The accounts; signing in where they could not be resolved.
pub fn page_listed(
    current: &str,
    sessions: Result<Vec<DeviceSession>, String>,
    ok: &Option<String>,
    error: &Option<String>,
) -> (res: Result<AccountsView, String>)
    ensures
        match sessions {
            Ok(list) => res matches Ok(view) && view.rows@.len() == list@.len() && (forall|i: int|
                0 <= i < list@.len() ==> account_row(
                    list@[i],
                    current@,
                    #[trigger] view.rows@[i],
                )) && crate::auth_ui::page::flash_view(view.flash)
                == crate::auth_ui::views::flash_in(*ok, *error),
            Err(_) => res matches Err(location) && location@ == crate::auth_ui::page::to_sign_in(
                "/account/switch"@,
            ),
        },
{
    let list = match sessions {
        Ok(list) => list,
        Err(_) => return Err(sign_in_first("/account/switch")),
    };
    let mut rows: Vec<AccountRow> = Vec::new();
    let ghost all = list@;
    for s in it: list
        invariant
            it.seq() == all,
            rows@.len() == it.index(),
            forall|j: int|
                0 <= j < rows@.len() ==> account_row(all[j], current@, #[trigger] rows@[j]),
    {
        let name = match s.user.known_name() {
            Some(name) => name,
            None => "Unnamed".to_owned(),
        };
        let email = unwrap_or_blank(&s.user.email);
        let here = same(s.token.as_str(), current);
        rows.push(AccountRow { token: s.token, name, email, current: here });
    }
    Ok(AccountsView { rows, flash: flash_of(ok, error) })
}

/// What is said of a token that is not held.
pub open spec fn not_here() -> Seq<char> {
    crate::auth_ui::page::flashed(
        "/account/switch"@,
        crate::auth_ui::page::Said::Error("That account is not signed in here."@),
    )
}

fn go_not_here() -> (res: String)
    ensures
        res@ == not_here(),
{
    flash_to(
        "/account/switch",
        &Flash::Error("That account is not signed in here.".to_owned()),
    )
}

/// `POST /account/switch`: only a token this browser already holds. The
/// roster is the authorisation; what is asked is whether the session still
/// resolves.
pub fn switch(
    signed_in: bool,
    wanted: String,
    policy: &CookiePolicy,
    headers: &Vec<String>,
) -> (res: Begin<String>)
    ensures
        if !signed_in {
            crate::auth_ui::page::sent_to(
                res,
                crate::auth_ui::page::to_sign_in("/account/switch"@),
            )
        } else if crate::auth_ui::multi_session::held(
            crate::text::views(headers@),
            policy.name@,
        ).contains(wanted@) {
            res matches Begin::Ask(token) && token@ == wanted@
        } else {
            crate::auth_ui::page::sent_to(res, not_here())
        },
{
    if !signed_in {
        return Begin::Go(sign_in_first("/account/switch"));
    }
    let held = roster(headers, policy.name.as_str());
    if holds_token(&held, wanted.as_str()) {
        Begin::Ask(wanted)
    } else {
        Begin::Go(go_not_here())
    }
}

/// A session that still resolves becomes the active one and goes first in
/// the roster; one that expired meanwhile is dropped from it.
pub fn switched(
    resolves: bool,
    wanted: String,
    policy: &CookiePolicy,
    headers: &Vec<String>,
) -> (res: Reply)
    ensures
        res.parked is None,
        if resolves {
            res.location@ == "/account/switch"@ && (res.session matches Some(s) && s@ == wanted@)
                && crate::text::views(res.cookies@) == seq![
                crate::auth_ui::multi_session::roster_cookie(
                    *policy,
                    crate::auth_ui::multi_session::remembered(
                        crate::auth_ui::multi_session::held(
                            crate::text::views(headers@),
                            policy.name@,
                        ),
                        wanted@,
                    ),
                ),
            ]
        } else {
            res.location@ == crate::auth_ui::page::flashed(
                "/account/switch"@,
                crate::auth_ui::page::Said::Error("That session has expired. Sign in again."@),
            ) && res.session is None && crate::text::views(res.cookies@) == seq![
                crate::auth_ui::multi_session::roster_cookie(
                    *policy,
                    crate::auth_ui::multi_session::without(
                        crate::auth_ui::multi_session::held(
                            crate::text::views(headers@),
                            policy.name@,
                        ),
                        wanted@,
                    ),
                ),
            ]
        },
{
    let mut cookies: Vec<String> = Vec::new();
    if resolves {
        cookies.push(remember(policy, headers, wanted.as_str()));
        assert(crate::text::views(cookies@) =~= seq![cookies@[0]@]);
        Reply {
            location: "/account/switch".to_owned(),
            session: Some(wanted),
            parked: None,
            cookies,
        }
    } else {
        cookies.push(forget(policy, headers, wanted.as_str()));
        assert(crate::text::views(cookies@) =~= seq![cookies@[0]@]);
        Reply {
            location: flash_to(
                "/account/switch",
                &Flash::Error("That session has expired. Sign in again.".to_owned()),
            ),
            session: None,
            parked: None,
            cookies,
        }
    }
}

/// `POST /account/switch/leave` — sign out of one account, which this
/// browser has to hold.
pub fn leave(wanted: String, policy: &CookiePolicy, headers: &Vec<String>) -> (res: Begin<String>)
    ensures
        if crate::auth_ui::multi_session::held(
            crate::text::views(headers@),
            policy.name@,
        ).contains(wanted@) {
            res matches Begin::Ask(token) && token@ == wanted@
        } else {
            crate::auth_ui::page::sent_to(res, not_here())
        },
{
    let held = roster(headers, policy.name.as_str());
    if holds_token(&held, wanted.as_str()) {
        Begin::Ask(wanted)
    } else {
        Begin::Go(go_not_here())
    }
}

/// The tokens that are left once one is gone.
pub open spec fn left(headers: Seq<Seq<char>>, session_cookie: Seq<char>, gone: Seq<char>) -> Seq<
    Seq<char>,
> {
    crate::auth_ui::multi_session::without(
        crate::auth_ui::multi_session::held(headers, session_cookie),
        gone,
    )
}

/// Whatever is left becomes the active one, so leaving an account does not
/// sign anybody out of the others; with nothing left, the session cookie is
/// cleared.
pub fn left_one(gone: &str, policy: &CookiePolicy, headers: &Vec<String>) -> (res: Reply)
    ensures
        res.parked is None,
        crate::text::views(res.cookies@) == seq![
            crate::auth_ui::multi_session::roster_cookie(
                *policy,
                left(crate::text::views(headers@), policy.name@, gone@),
            ),
        ],
        ({
            let rest = left(crate::text::views(headers@), policy.name@, gone@);
            if rest.len() == 0 {
                res.location@ == "/login"@ && (res.session matches Some(s) && s@.len() == 0)
            } else {
                res.location@ == "/account/switch"@ && (res.session matches Some(s) && s@
                    == rest[0])
            }
        }),
{
    let held = roster(headers, policy.name.as_str());
    let rest = retain_others(&held, gone);
    let mut cookies: Vec<String> = Vec::new();
    cookies.push(forget(policy, headers, gone));
    assert(crate::text::views(cookies@) =~= seq![cookies@[0]@]);
    if rest.len() == 0 {
        Reply {
            location: "/login".to_owned(),
            session: Some(String::new()),
            parked: None,
            cookies,
        }
    } else {
        assert(crate::text::views(rest@)[0] == rest@[0]@);
        Reply {
            location: "/account/switch".to_owned(),
            session: Some(copy(&rest[0])),
            parked: None,
            cookies,
        }
    }
}

/// `POST /account/switch/leave-all` — every token to sign out: those held,
/// then the current one.
pub fn leave_all(current: Option<String>, policy: &CookiePolicy, headers: &Vec<String>) -> (res:
    Vec<String>)
    ensures
        crate::text::views(res@) == match current {
            Some(t) => crate::auth_ui::multi_session::held(
                crate::text::views(headers@),
                policy.name@,
            ).push(t@),
            None => crate::auth_ui::multi_session::held(crate::text::views(headers@), policy.name@),
        },
{
    let mut tokens = roster(headers, policy.name.as_str());
    if let Some(t) = current {
        let ghost before = tokens@;
        tokens.push(t);
        assert(crate::text::views(tokens@) =~= crate::text::views(before).push(t@));
    }
    tokens
}

/// Nothing is held any more, and the session cookie is cleared.
pub fn left_all(policy: &CookiePolicy) -> (res: Reply)
    ensures
        res.location@ == "/login"@,
        res.session matches Some(s) && s@.len() == 0,
        res.parked is None,
        crate::text::views(res.cookies@) == seq![
            crate::auth_ui::multi_session::roster_cookie(*policy, Seq::empty()),
        ],
{
    let mut cookies: Vec<String> = Vec::new();
    cookies.push(clear(policy));
    assert(crate::text::views(cookies@) =~= seq![cookies@[0]@]);
    Reply { location: "/login".to_owned(), session: Some(String::new()), parked: None, cookies }
}

/// Leaving one account leaves every other one held, and the one that becomes
/// active was held before.
pub proof fn law_leaving_one_keeps_the_others(
    headers: Seq<Seq<char>>,
    session_cookie: Seq<char>,
    gone: Seq<char>,
)
    ensures
        !left(headers, session_cookie, gone).contains(gone),
        forall|t: Seq<char>|
            t != gone ==> (#[trigger] left(headers, session_cookie, gone).contains(t)
                <==> crate::auth_ui::multi_session::held(headers, session_cookie).contains(t)),
        left(headers, session_cookie, gone).len() > 0 ==> crate::auth_ui::multi_session::held(
            headers,
            session_cookie,
        ).contains(left(headers, session_cookie, gone)[0]),
{
    let held = crate::auth_ui::multi_session::held(headers, session_cookie);
    let rest = left(headers, session_cookie, gone);
    crate::auth_ui::multi_session::law_forgetting_removes_only_that_one(held, gone);
    if rest.len() > 0 {
        assert(rest.contains(rest[0]));
        assert(rest[0] != gone);
    }
}

/// The account in use is among those listed, once, and the others keep their order.
pub proof fn law_the_account_in_use_is_listed(held: Seq<Seq<char>>, current: Seq<char>)
    ensures
        resolved(held, current).contains(current),
        held.contains(current) ==> resolved(held, current) == held,
        !held.contains(current) ==> resolved(held, current).len() == held.len() + 1 && resolved(
            held,
            current,
        )[0] == current && resolved(held, current).skip(1) == held,
        held.no_duplicates() ==> resolved(held, current).no_duplicates(),
{
    let all = resolved(held, current);
    if !held.contains(current) {
        assert(all[0] == current);
        assert(all.skip(1) =~= held);
        if held.no_duplicates() {
            assert forall|i: int, j: int| 0 <= i < all.len() && 0 <= j < all.len() && i != j implies all[i]
                != all[j] by {
                if i > 0 {
                    assert(all[i] == held[i - 1]);
                }
                if j > 0 {
                    assert(all[j] == held[j - 1]);
                }
            }
        }
    }
}

/// In a list of accounts the one in use is marked, and no other.
pub proof fn law_only_the_account_in_use_is_marked(
    s: DeviceSession,
    current: Seq<char>,
    row: AccountRow,
)
    requires
        account_row(s, current, row),
    ensures
        row.current <==> row.token@ == current,
        row.token@ == s.token@,
        s.user.name is Some && !crate::text::blank(s.user.name->0@) ==> row.name@ == s.user.name->0@,
        s.user.name is None && s.user.username is Some ==> row.name@ == s.user.username->0@,
        s.user.email is Some ==> row.email@ == s.user.email->0@,
        s.user.email is None ==> row.email@.len() == 0,
{
    crate::auth_ui::engine::law_a_name_that_shows_comes_first(s.user);
}

} // verus!
