//! `/account/sessions` — where this account is signed in, and how to stop it
//! being signed in there.

use crate::auth_ui::dates::minute_of;
use crate::auth_ui::engine::SessionInfo;
use crate::auth_ui::page::{settle, sign_in_first, with_session, Begin, Flash};
use crate::auth_ui::views::flash_of;
use crate::text::{cat3, chars_of, contains, copy, decimal_of, string_of, trim};
use vstd::prelude::*;

verus! {

/// One row of the table.
#[derive(Clone, Debug, PartialEq, Eq)]
pub struct SessionRow {
    pub id: u128,
    pub current: bool,
    pub where_from: String,
    pub device: String,
    pub started: String,
    pub expires: String,
}

/// The table, and the button that ends all the others.
#[derive(Clone, Debug, PartialEq, Eq)]
pub struct SessionsView {
    pub rows: Vec<SessionRow>,
    /// The words on the button; missing where there is no other session.
    pub sign_out_others: Option<String>,
    pub flash: Option<Flash>,
}

#[derive(Clone, Debug, PartialEq, Eq)]
pub enum SessionCommand {
    Revoke { session_token: String, session_id: u128 },
    RevokeOthers { session_token: String },
}

/// The names that agents claim, the more specific first: every browser also
/// claims to be several others.
pub open spec fn browsers() -> Seq<(Seq<char>, Seq<char>)> {
    seq![
        ("Edg/"@, "Edge"@),
        ("OPR/"@, "Opera"@),
        ("Firefox/"@, "Firefox"@),
        ("Chrome/"@, "Chrome"@),
        ("Safari/"@, "Safari"@),
    ]
}

pub open spec fn platforms() -> Seq<(Seq<char>, Seq<char>)> {
    seq![
        ("iPhone"@, "iPhone"@),
        ("iPad"@, "iPad"@),
        ("Android"@, "Android"@),
        ("Mac OS X"@, "macOS"@),
        ("Windows"@, "Windows"@),
        ("Linux"@, "Linux"@),
    ]
}

/// The name beside the first needle, from place `from` on, that the agent
/// holds.
pub open spec fn named_in(
    agent: Seq<char>,
    names: Seq<(Seq<char>, Seq<char>)>,
    from: int,
) -> Option<Seq<char>>
    decreases names.len() - from,
{
    if from >= names.len() {
        None
    } else if crate::text::holds(agent, names[from].0) {
        Some(names[from].1)
    } else {
        named_in(agent, names, from + 1)
    }
}

pub open spec fn names_view(names: Seq<(&'static str, &'static str)>) -> Seq<
    (Seq<char>, Seq<char>),
> {
    names.map_values(|n: (&'static str, &'static str)| (n.0@, n.1@))
}

fn find_name(agent: &str, names: &Vec<(&'static str, &'static str)>) -> (res: Option<&'static str>)
    ensures
        crate::auth_ui::page::text_of(res) == named_in(agent@, names_view(names@), 0),
{
    let ghost all = names_view(names@);
    let mut i: usize = 0;
    while i < names.len()
        invariant
            i <= names@.len(),
            all == names_view(names@),
            named_in(agent@, all, 0) == named_in(agent@, all, i as int),
        decreases names@.len() - i,
    {
        let (needle, name) = names[i];
        assert(all[i as int] == (needle@, name@));
        if contains(agent, needle) {
            return Some(name);
        }
        i = i + 1;
    }
    None
}

/// The first so many characters of a text.
pub open spec fn up_to(s: Seq<char>, n: int) -> Seq<char> {
    if s.len() > n {
        s.take(n)
    } else {
        s
    }
}

/// An agent as a person recognises it.
pub open spec fn device_of(agent: Option<Seq<char>>) -> Seq<char> {
    match agent {
        Some(a) if crate::text::trimmed(a).len() > 0 => match (
            named_in(a, browsers(), 0),
            named_in(a, platforms(), 0),
        ) {
            (Some(browser), Some(platform)) => browser + " on "@ + platform,
            (Some(browser), None) => browser,
            (None, Some(platform)) => platform,
            (None, None) => up_to(a, 40),
        },
        _ => "Unknown device"@,
    }
}

/// A user-agent string reduced to something a person recognises: enough to
/// tell one row from another when deciding which to revoke.
pub fn describe_agent(agent: Option<&str>) -> (res: String)
    ensures
        res@ == device_of(crate::auth_ui::page::text_of(agent)),
{
    let agent = match agent {
        Some(a) => if trim(a).as_str().unicode_len() > 0 {
            a
        } else {
            return "Unknown device".to_owned();
        },
        None => return "Unknown device".to_owned(),
    };
    let browser_names: Vec<(&'static str, &'static str)> = vec![
        ("Edg/", "Edge"),
        ("OPR/", "Opera"),
        ("Firefox/", "Firefox"),
        ("Chrome/", "Chrome"),
        ("Safari/", "Safari"),
    ];
    let platform_names: Vec<(&'static str, &'static str)> = vec![
        ("iPhone", "iPhone"),
        ("iPad", "iPad"),
        ("Android", "Android"),
        ("Mac OS X", "macOS"),
        ("Windows", "Windows"),
        ("Linux", "Linux"),
    ];
    assert(names_view(browser_names@) =~= browsers());
    assert(names_view(platform_names@) =~= platforms());
    let browser = find_name(agent, &browser_names);
    let platform = find_name(agent, &platform_names);
    match (browser, platform) {
        (Some(b), Some(p)) => cat3(b, " on ", p),
        (Some(b), None) => b.to_owned(),
        (None, Some(p)) => p.to_owned(),
        (None, None) => {
            let cs = chars_of(agent);
            let n: usize = if cs.len() > 40 {
                40
            } else {
                cs.len()
            };
            let out = string_of(&cs, 0, n);
            assert(out@ =~= up_to(agent@, 40));
            out
        },
    }
}

pub open spec fn session_row(s: SessionInfo, current: u128, row: SessionRow) -> bool {
    &&& row.id == s.id
    &&& row.current == (s.id == current)
    &&& row.where_from@ == match s.ip_address {
        Some(ip) => ip@,
        None => "unknown"@,
    }
    &&& row.device@ == device_of(crate::text::opt_view(s.user_agent))
    &&& row.started@ == crate::auth_ui::dates::utc_minute(s.created_at.secs, s.created_at.nanos)
    &&& row.expires@ == crate::auth_ui::dates::utc_minute(s.expires_at.secs, s.expires_at.nanos)
}

fn row_of(s: &SessionInfo, current: u128) -> (res: SessionRow)
    requires
        s.created_at.valid(),
        s.expires_at.valid(),
    ensures
        session_row(*s, current, res),
{
    let agent = match &s.user_agent {
        Some(a) => Some(a.as_str()),
        None => None,
    };
    SessionRow {
        id: s.id,
        current: s.id == current,
        where_from: match &s.ip_address {
            Some(ip) => copy(ip),
            None => "unknown".to_owned(),
        },
        device: describe_agent(agent),
        started: minute_of(s.created_at),
        expires: minute_of(s.expires_at),
    }
}

/// How many of some sessions are not this one.
pub open spec fn others(rows: Seq<SessionRow>) -> nat
    decreases rows.len(),
{
    if rows.len() == 0 {
        0
    } else {
        others(rows.drop_last()) + if rows.last().current {
            0nat
        } else {
            1nat
        }
    }
}

fn count_others(rows: &Vec<SessionRow>) -> (res: usize)
    ensures
        res == others(rows@),
{
    let mut n: usize = 0;
    for i in 0..rows.len()
        invariant
            n <= i,
            n == others(rows@.take(i as int)),
    {
        proof {
            assert(rows@.take(i + 1).drop_last() =~= rows@.take(i as int));
        }
        if !rows[i].current {
            n = n + 1;
        }
    }
    assert(rows@.take(rows@.len() as int) =~= rows@);
    n
}

/// `GET /account/sessions`: signing in first, or the session to look up.
pub fn page(token: Option<String>) -> (res: Begin<String>)
    ensures
        crate::auth_ui::page::begun(
            res,
            token,
            "/account/sessions"@,
            |session: String, t: Seq<char>| session@ == t,
        ),
{
    with_session(token, "/account/sessions")
}

/// The words on the button that ends all the others.
pub open spec fn end_others(rows: Seq<SessionRow>) -> Option<Seq<char>> {
    if others(rows) == 0 {
        None
    } else {
        Some("Sign out "@ + crate::text::decimal(others(rows)) + " other session(s)"@)
    }
}

/// The table: the row of this browser is marked, and the others can be ended
/// in one action. Without a session, signing in; a list that could not be
/// read is empty.
pub fn page_listed(
    current: &Result<SessionInfo, String>,
    sessions: Result<Vec<SessionInfo>, String>,
    ok: &Option<String>,
    error: &Option<String>,
) -> (res: Result<SessionsView, String>)
    requires
        forall|i: int|
            0 <= i < crate::auth_ui::views::or_nothing(sessions).len() ==> (
            #[trigger] crate::auth_ui::views::or_nothing(sessions)[i]).created_at.valid()
                && crate::auth_ui::views::or_nothing(sessions)[i].expires_at.valid(),
    ensures
        match *current {
            Ok(here) => res matches Ok(view) && view.rows@.len()
                == crate::auth_ui::views::or_nothing(sessions).len() && (forall|i: int|
                0 <= i < view.rows@.len() ==> session_row(
                    crate::auth_ui::views::or_nothing(sessions)[i],
                    here.id,
                    #[trigger] view.rows@[i],
                )) && crate::text::opt_view(view.sign_out_others) == end_others(view.rows@)
                && crate::auth_ui::page::flash_view(view.flash) == crate::auth_ui::views::flash_in(
                *ok,
                *error,
            ),
            Err(_) => res matches Err(location) && location@ == crate::auth_ui::page::to_sign_in(
                "/account/sessions"@,
            ),
        },
{
    let here = match current {
        Ok(here) => here.id,
        Err(_) => return Err(sign_in_first("/account/sessions")),
    };
    let list = match sessions {
        Ok(list) => list,
        Err(_) => Vec::new(),
    };
    let ghost all = list@;
    assert(all == crate::auth_ui::views::or_nothing(sessions));
    let mut rows: Vec<SessionRow> = Vec::new();
    for i in 0..list.len()
        invariant
            all == list@,
            rows@.len() == i,
            forall|j: int|
                0 <= j < all.len() ==> (#[trigger] all[j]).created_at.valid()
                    && all[j].expires_at.valid(),
            forall|j: int| 0 <= j < i ==> session_row(all[j], here, #[trigger] rows@[j]),
    {
        assert(all[i as int].created_at.valid());
        rows.push(row_of(&list[i], here));
    }
    let n = count_others(&rows);
    let sign_out_others = if n == 0 {
        None
    } else {
        Some(cat3("Sign out ", decimal_of(n as u64).as_str(), " other session(s)"))
    };
    Ok(SessionsView { rows, sign_out_others, flash: flash_of(ok, error) })
}

/// `POST /account/sessions/revoke`
pub fn revoke(token: Option<String>, id: u128) -> (res: Begin<SessionCommand>)
    ensures
        crate::auth_ui::page::begun(
            res,
            token,
            "/account/sessions"@,
            |c: SessionCommand, t: Seq<char>|
                c matches SessionCommand::Revoke { session_token, session_id } && session_token@
                    == t && session_id == id,
        ),
{
    match token {
        Some(session_token) => Begin::Ask(
            SessionCommand::Revoke { session_token, session_id: id },
        ),
        None => Begin::Go(sign_in_first("/account/sessions")),
    }
}

pub fn revoked(outcome: &Result<(), String>) -> (res: String)
    ensures
        res@ == crate::auth_ui::page::settled(
            "/account/sessions"@,
            "Signed that session out."@,
            *outcome,
        ),
{
    settle("/account/sessions", "Signed that session out.", outcome)
}

/// `POST /account/sessions/revoke-others`
pub fn revoke_others(token: Option<String>) -> (res: Begin<SessionCommand>)
    ensures
        crate::auth_ui::page::begun(
            res,
            token,
            "/account/sessions"@,
            |c: SessionCommand, t: Seq<char>|
                c matches SessionCommand::RevokeOthers { session_token } && session_token@ == t,
        ),
{
    match token {
        Some(session_token) => Begin::Ask(SessionCommand::RevokeOthers { session_token }),
        None => Begin::Go(sign_in_first("/account/sessions")),
    }
}

pub fn others_revoked(outcome: &Result<(), String>) -> (res: String)
    ensures
        res@ == crate::auth_ui::page::settled(
            "/account/sessions"@,
            "Signed out everywhere except this browser."@,
            *outcome,
        ),
{
    settle("/account/sessions", "Signed out everywhere except this browser.", outcome)
}

/// The more specific browser wins: an agent that claims to be Edge is named
/// Edge, whatever else it claims.
pub proof fn law_the_more_specific_browser_wins(agent: Seq<char>)
    requires
        crate::text::holds(agent, "Edg/"@),
    ensures
        named_in(agent, browsers(), 0) == Some("Edge"@),
{
    assert(browsers()[0] == ("Edg/"@, "Edge"@));
}

/// No row of the table has an empty device: an agent of nothing but white
/// space is an unknown device, and any other leaves at least one character.
pub proof fn law_no_device_is_empty(agent: Option<Seq<char>>)
    ensures
        device_of(agent).len() > 0,
{
    reveal_strlit("Unknown device");
    reveal_strlit("Edge");
    reveal_strlit("Opera");
    reveal_strlit("Firefox");
    reveal_strlit("Chrome");
    reveal_strlit("Safari");
    reveal_strlit("iPhone");
    reveal_strlit("iPad");
    reveal_strlit("Android");
    reveal_strlit("macOS");
    reveal_strlit("Windows");
    reveal_strlit("Linux");
    if let Some(a) = agent {
        reveal_with_fuel(named_in, 7);
        crate::text::law_trimming_is_final(a);
    }
}

/// A browser that calls itself by other names too is told by its own: each name counts
/// only where none of those before it stands.
pub proof fn law_a_browser_is_told_by_its_own_name(agent: Seq<char>)
    ensures
        ({
            let edge = crate::text::holds(agent, "Edg/"@);
            let opera = crate::text::holds(agent, "OPR/"@);
            let firefox = crate::text::holds(agent, "Firefox/"@);
            let chrome = crate::text::holds(agent, "Chrome/"@);
            let safari = crate::text::holds(agent, "Safari/"@);
            let told = named_in(agent, browsers(), 0);
            &&& edge ==> told == Some("Edge"@)
            &&& !edge && opera ==> told == Some("Opera"@)
            &&& !edge && !opera && firefox ==> told == Some("Firefox"@)
            &&& !edge && !opera && !firefox && chrome ==> told == Some("Chrome"@)
            &&& !edge && !opera && !firefox && !chrome && safari ==> told == Some("Safari"@)
            &&& !edge && !opera && !firefox && !chrome && !safari ==> told is None
        }),
{
    reveal_with_fuel(named_in, 6);
}

/// A phone is told before the system it resembles.
pub proof fn law_a_platform_is_told_by_its_own_name(agent: Seq<char>)
    ensures
        ({
            let iphone = crate::text::holds(agent, "iPhone"@);
            let ipad = crate::text::holds(agent, "iPad"@);
            let android = crate::text::holds(agent, "Android"@);
            let mac = crate::text::holds(agent, "Mac OS X"@);
            let windows = crate::text::holds(agent, "Windows"@);
            let linux = crate::text::holds(agent, "Linux"@);
            let told = named_in(agent, platforms(), 0);
            &&& iphone ==> told == Some("iPhone"@)
            &&& !iphone && ipad ==> told == Some("iPad"@)
            &&& !iphone && !ipad && android ==> told == Some("Android"@)
            &&& !iphone && !ipad && !android && mac ==> told == Some("macOS"@)
            &&& !iphone && !ipad && !android && !mac && windows ==> told == Some("Windows"@)
            &&& !iphone && !ipad && !android && !mac && !windows && linux ==> told == Some("Linux"@)
            &&& !iphone && !ipad && !android && !mac && !windows && !linux ==> told is None
        }),
{
    reveal_with_fuel(named_in, 7);
}

/// A device is told by its browser and its platform, as far as they are known, and else by
/// the first forty characters of what it says of itself.
pub proof fn law_a_device_is_told_as_far_as_it_is_known(agent: Seq<char>)
    requires
        !crate::text::blank(agent),
    ensures
        ({
            let browser = named_in(agent, browsers(), 0);
            let platform = named_in(agent, platforms(), 0);
            let told = device_of(Some(agent));
            &&& browser is Some && platform is Some ==> told == browser->0 + " on "@ + platform->0
            &&& browser is Some && platform is None ==> told == browser->0
            &&& browser is None && platform is Some ==> told == platform->0
            &&& browser is None && platform is None && agent.len() <= 40 ==> told == agent
            &&& browser is None && platform is None && agent.len() > 40 ==> told.len() == 40
                && crate::text::begins(agent, told)
        }),
{
    crate::text::law_white_space_alone_is_trimmed_to_nothing(agent);
    if agent.len() > 40 {
        assert(agent.take(40) =~= agent.subrange(0, 40));
    }
}

/// What says nothing of itself is an unknown device.
pub proof fn law_a_blank_agent_is_an_unknown_device(agent: Seq<char>)
    requires
        crate::text::blank(agent),
    ensures
        device_of(Some(agent)) == device_of(None),
{
    crate::text::law_white_space_alone_is_trimmed_to_nothing(agent);
}

/// The sessions besides the one in use are counted, and ending them is offered exactly
/// where there are any.
pub proof fn law_the_other_sessions_are_counted(a: Seq<SessionRow>, b: Seq<SessionRow>, row: SessionRow)
    ensures
        others(a + b) == others(a) + others(b),
        row.current ==> others(seq![row]) == 0,
        !row.current ==> others(seq![row]) == 1,
        end_others(a) is Some <==> exists|i: int| 0 <= i < a.len() && !(#[trigger] a[i]).current,
    decreases b.len(), a.len(),
{
    reveal_with_fuel(others, 2);
    assert(seq![row].drop_last() =~= Seq::<SessionRow>::empty());
    if b.len() == 0 {
        assert(a + b =~= a);
        if a.len() > 0 {
            law_the_other_sessions_are_counted(a.drop_last(), b, row);
            if exists|i: int| 0 <= i < a.len() && !(#[trigger] a[i]).current {
                let i = choose|i: int| 0 <= i < a.len() && !(#[trigger] a[i]).current;
                if i < a.len() - 1 {
                    assert(a.drop_last()[i] == a[i]);
                }
            }
            if others(a) > 0 {
                if a.last().current {
                    let i = choose|i: int|
                        0 <= i < a.drop_last().len() && !(#[trigger] a.drop_last()[i]).current;
                    assert(a[i] == a.drop_last()[i]);
                } else {
                    assert(!a[a.len() - 1].current);
                }
            }
        }
    } else {
        law_the_other_sessions_are_counted(a, b.drop_last(), row);
        assert((a + b).drop_last() =~= a + b.drop_last());
        assert((a + b).last() == b.last());
    }
}

/// A session is listed under its own id, and marked where it is the one in use.
pub proof fn law_a_session_is_listed_as_it_is(s: SessionInfo, current: u128, row: SessionRow)
    requires
        session_row(s, current, row),
    ensures
        row.id == s.id,
        row.current <==> row.id == current,
        s.ip_address is Some ==> row.where_from@ == s.ip_address->0@,
        s.user_agent is Some ==> row.device@ == device_of(Some(s.user_agent->0@)),
        row.started@ == crate::auth_ui::dates::utc_minute(s.created_at.secs, s.created_at.nanos),
        row.expires@ == crate::auth_ui::dates::utc_minute(s.expires_at.secs, s.expires_at.nanos),
{
}

} // verus!
