//! Signing in without a password: a code, or a link.
//!
//! Neither ever says whether an address has an account: sending is answered
//! with "check your inbox" whatever came of it, and a wrong code and a
//! missing account are refused in the same words. The one exception depends
//! only on when the address was last asked about.

use crate::auth::percent::encode_component;
use crate::auth_ui::engine::{AuthUser, CookiePolicy, SessionBundle, SessionInfo};
use crate::auth_ui::last_login::HintCookie;
use crate::auth_ui::page::{just_go, safe_path, Reply};
use crate::auth_ui::views::unwrap_or_blank;
use crate::auth_ui::{last_login, multi_session};
use crate::text::{cat, cat3, copy, split, trim, trim_end_matches};
use vstd::prelude::*;

verus! {

// ---------------------------------------------------------------------------
// What a request says of itself
// ---------------------------------------------------------------------------

/// The address a request came from: the first of the forwarded ones, where
/// it is not blank.
pub open spec fn forwarded(header: Option<&str>) -> Option<Seq<char>> {
    match header {
        Some(value) => {
            let first = crate::text::trimmed(crate::text::pieces(value@, ',')[0]);
            if first.len() == 0 {
                None
            } else {
                Some(first)
            }
        },
        None => None,
    }
}

/// The address a request came from, out of its `x-forwarded-for` header.
pub fn client_ip(header: Option<&str>) -> (res: Option<String>)
    ensures
        crate::text::opt_view(res) == forwarded(header),
{
    match header {
        Some(value) => {
            let parts = split(value, ',');
            assert(crate::text::views(parts@)[0] == parts@[0]@);
            let first = trim(parts[0].as_str());
            if first.as_str().unicode_len() == 0 {
                None
            } else {
                Some(first)
            }
        },
        None => None,
    }
}

// ---------------------------------------------------------------------------
// Being signed in
// ---------------------------------------------------------------------------

/// Where somebody goes on to: the session of an account that owes a second
/// factor is not active, and the challenge comes first.
pub open spec fn onward(active: bool, return_to: Seq<char>) -> Seq<char> {
    if active {
        return_to
    } else {
        "/login/two-factor?return_to="@ + crate::auth_ui::page::as_value(return_to)
    }
}

/// Where somebody who just signed in goes on to.
pub fn go_on(active: bool, return_to: String) -> (res: String)
    ensures
        res@ == onward(active, return_to@),
{
    if active {
        return_to
    } else {
        let encoded = encode_component(return_to.as_str());
        cat("/login/two-factor?return_to=", encoded.as_str())
    }
}

/// The cookies a sign-in leaves behind: how it was done, where the engine
/// recorded that, and the token in the roster.
pub open spec fn left_behind(
    bundle: SessionBundle,
    policy: CookiePolicy,
    hint: HintCookie,
    headers: Seq<Seq<char>>,
) -> Seq<Seq<char>> {
    let roster = seq![
        crate::auth_ui::multi_session::roster_cookie(
            policy,
            crate::auth_ui::multi_session::remembered(
                crate::auth_ui::multi_session::held(headers, policy.name@),
                bundle.token@,
            ),
        ),
    ];
    match crate::auth_ui::last_login::recorded(bundle.user) {
        Some(method) => seq![crate::auth_ui::last_login::hint(hint, method)] + roster,
        None => roster,
    }
}

/// The cookies that remember a sign-in.
pub fn remember_signed_in(
    policy: &CookiePolicy,
    hint: &HintCookie,
    headers: &Vec<String>,
    bundle: &SessionBundle,
) -> (res: Vec<String>)
    ensures
        crate::text::views(res@) == left_behind(
            *bundle,
            *policy,
            *hint,
            crate::text::views(headers@),
        ),
{
    let mut cookies: Vec<String> = Vec::new();
    if let Some(method) = last_login::remember(&bundle.user, hint) {
        cookies.push(method);
    }
    cookies.push(multi_session::remember(policy, headers, bundle.token.as_str()));
    assert(crate::text::views(cookies@) =~= left_behind(
        *bundle,
        *policy,
        *hint,
        crate::text::views(headers@),
    ));
    cookies
}

/// A reply that signs somebody in and sends them on.
pub open spec fn signs_in(
    reply: Reply,
    bundle: SessionBundle,
    location: Seq<char>,
    policy: CookiePolicy,
    hint: HintCookie,
    headers: Seq<Seq<char>>,
) -> bool {
    &&& reply.location@ == location
    &&& reply.session matches Some(token) && token@ == bundle.token@
    &&& reply.parked is None
    &&& crate::text::views(reply.cookies@) == left_behind(bundle, policy, hint, headers)
}

/// Sets the session cookie, remembers the sign-in, and goes to `location`.
pub fn signed_in_at(
    bundle: SessionBundle,
    location: String,
    policy: &CookiePolicy,
    hint: &HintCookie,
    headers: &Vec<String>,
) -> (res: Reply)
    ensures
        signs_in(res, bundle, location@, *policy, *hint, crate::text::views(headers@)),
{
    let cookies = remember_signed_in(policy, hint, headers, &bundle);
    Reply { location, session: Some(bundle.token), parked: None, cookies }
}

/// Sets the session cookie and goes on, past the challenge where one is
/// owed.
pub fn signed_in(
    bundle: SessionBundle,
    return_to: String,
    policy: &CookiePolicy,
    hint: &HintCookie,
    headers: &Vec<String>,
) -> (res: Reply)
    ensures
        signs_in(
            res,
            bundle,
            onward(bundle.session.active, return_to@),
            *policy,
            *hint,
            crate::text::views(headers@),
        ),
{
    let location = go_on(bundle.session.active, return_to);
    signed_in_at(bundle, location, policy, hint, headers)
}

// ---------------------------------------------------------------------------
// Asking for a code or a link
// ---------------------------------------------------------------------------

#[derive(Clone, Debug, Default, PartialEq, Eq)]
pub struct LoginQuery {
    pub email: Option<String>,
    pub sent: Option<String>,
    pub error: Option<String>,
    pub return_to: Option<String>,
}

/// The page that asks for an address, or says that something was sent.
#[derive(Clone, Debug, PartialEq, Eq)]
pub struct SendPage {
    pub email: String,
    pub return_to: String,
    pub sent: bool,
    pub sub: String,
    pub error: Option<String>,
}

/// The path a form or a query asks to return to, where it is safe.
pub open spec fn path_in(return_to: Option<String>) -> Seq<char> {
    crate::auth_ui::page::kept_path(crate::text::opt_view(return_to))
}

/// The path a form or a query asks to return to, where it is safe.
pub fn path_of(return_to: &Option<String>) -> (res: String)
    ensures
        res@ == path_in(*return_to),
{
    match return_to {
        Some(s) => safe_path(Some(s.as_str())),
        None => safe_path(None),
    }
}

pub open spec fn asks(
    page: SendPage,
    q: LoginQuery,
    what: Seq<char>,
    offer: Seq<char>,
) -> bool {
    &&& page.email@ == crate::auth_ui::views::or_blank(q.email)
    &&& page.return_to@ == path_in(q.return_to)
    &&& page.sent == q.sent is Some
    &&& page.sub@ == if q.sent is Some {
        "If "@ + crate::auth_ui::views::or_blank(q.email) + " has an account, "@ + what
            + " is on its way."@
    } else {
        offer
    }
    &&& page.error == q.error
}

fn ask(q: LoginQuery, what: &str, offer: &str) -> (res: SendPage)
    ensures
        asks(res, q, what@, offer@),
{
    let email = unwrap_or_blank(&q.email);
    let sent = q.sent.is_some();
    let sub = if sent {
        let mut line = cat3("If ", email.as_str(), " has an account, ");
        line.append(what);
        line.append(" is on its way.");
        line
    } else {
        offer.to_owned()
    };
    SendPage { email, return_to: path_of(&q.return_to), sent, sub, error: q.error }
}

/// `GET /login/code` — ask for a code, or type one in.
pub fn code_page(q: LoginQuery) -> (res: SendPage)
    ensures
        asks(res, q, "a code"@, "We will email you a short code to type back in."@),
{
    ask(q, "a code", "We will email you a short code to type back in.")
}

/// `GET /login/link`
pub fn link_page(q: LoginQuery) -> (res: SendPage)
    ensures
        asks(res, q, "a sign-in link"@, "We will email you a link that signs you in."@),
{
    ask(q, "a sign-in link", "We will email you a link that signs you in.")
}

#[derive(Clone, Debug, PartialEq, Eq)]
pub struct SendForm {
    pub email: String,
    pub return_to: Option<String>,
}

/// Why nothing was sent: this address was asked about a moment ago, or
/// anything else.
#[derive(Clone, Copy, Debug, PartialEq, Eq, Structural)]
pub enum NotSent {
    TooSoon,
    Otherwise,
}

/// The "we sent it" state of a page.
pub open spec fn sent_at(
    path: Seq<char>,
    email: Seq<char>,
    return_to: Seq<char>,
    note: Option<Seq<char>>,
) -> Seq<char> {
    let url = path + "?sent=1&email="@ + crate::auth_ui::page::as_value(email) + "&return_to="@
        + crate::auth_ui::page::as_value(return_to);
    match note {
        Some(n) => url + "&error="@ + crate::auth_ui::page::as_value(n),
        None => url,
    }
}

/// The location of the "we sent it" state of a page.
pub fn sent_to(path: &str, email: &str, return_to: &str, note: Option<&str>) -> (res: String)
    ensures
        res@ == sent_at(
            path@,
            email@,
            return_to@,
            match note {
                Some(n) => Some(n@),
                None => None,
            },
        ),
{
    let to = encode_component(email);
    let back = encode_component(return_to);
    let mut url = cat3(path, "?sent=1&email=", to.as_str());
    url.append("&return_to=");
    url.append(back.as_str());
    if let Some(n) = note {
        url.append("&error=");
        url.append(encode_component(n).as_str());
    }
    url
}

/// What is mailed, and where the browser goes.
#[derive(Clone, Debug, PartialEq, Eq)]
pub struct Sending {
    /// To whom, and the code or link itself.
    pub mail: Option<(String, String)>,
    pub location: String,
}

/// Where a request for a code or link goes, whatever came of it: only being
/// asked again too soon is told apart.
pub open spec fn answered<T>(
    path: Seq<char>,
    form: SendForm,
    too_soon: Seq<char>,
    outcome: Result<T, NotSent>,
) -> Seq<char> {
    sent_at(
        path,
        crate::text::trimmed(form.email@),
        path_in(form.return_to),
        match outcome {
            Err(NotSent::TooSoon) => Some(too_soon),
            _ => None,
        },
    )
}

/// `POST /login/code` — the address the engine is asked to make a code for.
pub fn send_code(form: &SendForm) -> (res: String)
    ensures
        res@ == crate::text::trimmed(form.email@),
{
    trim(form.email.as_str())
}

/// The words for a code asked for too soon.
pub open spec fn code_too_soon() -> Seq<char> {
    "A code was sent recently. Check your inbox, or wait a moment and try again."@
}

/// The code that was made is mailed to the address; the browser goes to the
/// same place whether or not one was made.
pub fn code_sent(form: &SendForm, outcome: Result<String, NotSent>) -> (res: Sending)
    ensures
        res.location@ == answered("/login/code"@, *form, code_too_soon(), outcome),
        match outcome {
            Ok(code) => res.mail matches Some(m) && (m.0)@ == crate::text::trimmed(form.email@)
                && (m.1)@ == code@,
            Err(_) => res.mail is None,
        },
{
    let email = trim(form.email.as_str());
    let back = path_of(&form.return_to);
    match outcome {
        Ok(code) => {
            let location = sent_to("/login/code", email.as_str(), back.as_str(), None);
            Sending { mail: Some((email, code)), location }
        },
        Err(NotSent::TooSoon) => Sending {
            mail: None,
            location: sent_to(
                "/login/code",
                email.as_str(),
                back.as_str(),
                Some("A code was sent recently. Check your inbox, or wait a moment and try again."),
            ),
        },
        Err(NotSent::Otherwise) => Sending {
            mail: None,
            location: sent_to("/login/code", email.as_str(), back.as_str(), None),
        },
    }
}

/// What is asked of the engine for a link: the address, and the page the
/// link has to land on.
#[derive(Clone, Debug, PartialEq, Eq)]
pub struct SendMagicLink {
    pub email: String,
    pub callback_url: String,
}

/// `POST /login/link` — the callback is a page of this server.
pub fn send_link(form: &SendForm, base_url: &str) -> (res: SendMagicLink)
    ensures
        res.email@ == crate::text::trimmed(form.email@),
        res.callback_url@ == crate::text::without_trailing(base_url@, '/') + "/login/magic"@,
{
    let base = trim_end_matches(base_url, '/');
    SendMagicLink {
        email: trim(form.email.as_str()),
        callback_url: cat(base.as_str(), "/login/magic"),
    }
}

/// The words for a link asked for too soon.
pub open spec fn link_too_soon() -> Seq<char> {
    "A link was sent recently. Check your inbox, or wait a moment and try again."@
}

/// The link that was made is mailed, with where to return to riding on it,
/// so that another browser still lands there.
pub fn link_sent(form: &SendForm, outcome: Result<String, NotSent>) -> (res: Sending)
    ensures
        res.location@ == answered("/login/link"@, *form, link_too_soon(), outcome),
        match outcome {
            Ok(url) => res.mail matches Some(m) && (m.0)@ == crate::text::trimmed(form.email@)
                && (m.1)@ == url@ + "&return_to="@ + crate::auth_ui::page::as_value(
                path_in(form.return_to),
            ),
            Err(_) => res.mail is None,
        },
{
    let email = trim(form.email.as_str());
    let back = path_of(&form.return_to);
    match outcome {
        Ok(url) => {
            let encoded = encode_component(back.as_str());
            let link = cat3(url.as_str(), "&return_to=", encoded.as_str());
            let location = sent_to("/login/link", email.as_str(), back.as_str(), None);
            Sending { mail: Some((email, link)), location }
        },
        Err(NotSent::TooSoon) => Sending {
            mail: None,
            location: sent_to(
                "/login/link",
                email.as_str(),
                back.as_str(),
                Some("A link was sent recently. Check your inbox, or wait a moment and try again."),
            ),
        },
        Err(NotSent::Otherwise) => Sending {
            mail: None,
            location: sent_to("/login/link", email.as_str(), back.as_str(), None),
        },
    }
}

// ---------------------------------------------------------------------------
// Coming back with a code or a link
// ---------------------------------------------------------------------------

/// What `str::to_uppercase` makes of a text.
pub uninterp spec fn uppercase(s: Seq<char>) -> Seq<char>;

/// `str::to_uppercase`: the text in capitals. Of ASCII text the small
/// letters become capitals, and nothing else changes.
#[verifier::external_body]
pub(crate) fn to_uppercase(s: &str) -> (res: String)
    ensures
        res@ == uppercase(s@),
        crate::text::all_ascii(s@) ==> res@ == s@.map_values(|c: char| crate::text::raised(c)),
{
    s.to_uppercase()
}

#[derive(Clone, Debug, PartialEq, Eq)]
pub struct CodeForm {
    pub email: String,
    pub code: String,
    pub return_to: Option<String>,
}

/// The check of a code that is asked of the engine.
#[derive(Clone, Debug, PartialEq, Eq)]
pub struct VerifyEmailOtp {
    pub email: String,
    pub otp: String,
    pub create_session: bool,
    pub ip_address: Option<String>,
    pub user_agent: Option<String>,
}

/// `POST /login/code/verify`: codes are made of capitals, so what was typed
/// is raised before it is checked.
pub fn verify_code(
    form: &CodeForm,
    forwarded_for: Option<&str>,
    user_agent: Option<String>,
) -> (res: VerifyEmailOtp)
    ensures
        res.email@ == crate::text::trimmed(form.email@),
        res.otp@ == uppercase(crate::text::trimmed(form.code@)),
        crate::text::all_ascii(crate::text::trimmed(form.code@)) ==> res.otp@ == crate::text::trimmed(
            form.code@,
        ).map_values(|c: char| crate::text::raised(c)),
        res.create_session,
        crate::text::opt_view(res.ip_address) == forwarded(forwarded_for),
        res.user_agent == user_agent,
{
    VerifyEmailOtp {
        email: trim(form.email.as_str()),
        otp: to_uppercase(trim(form.code.as_str()).as_str()),
        create_session: true,
        ip_address: client_ip(forwarded_for),
        user_agent,
    }
}

/// What the engine makes of a code that was right.
#[derive(Clone, Debug, PartialEq, Eq)]
pub struct VerifiedOtp {
    pub user: AuthUser,
    pub session: Option<SessionInfo>,
    pub token: Option<String>,
}

/// Back to the page that asks for the code, with these words.
pub open spec fn back_to_code(form: CodeForm, words: Seq<char>) -> Seq<char> {
    sent_at(
        "/login/code"@,
        crate::text::trimmed(form.email@),
        path_in(form.return_to),
        Some(words),
    )
}

fn go_back_to_code(form: &CodeForm, words: &str) -> (res: Reply)
    ensures
        crate::auth_ui::page::plain_reply(res, back_to_code(*form, words@)),
{
    let email = trim(form.email.as_str());
    let back = path_of(&form.return_to);
    just_go(sent_to("/login/code", email.as_str(), back.as_str(), Some(words)))
}

/// A right code signs in; one that made no session, and a wrong one, go back
/// to the form. A wrong code and a missing account read the same.
pub fn code_verified(
    form: &CodeForm,
    outcome: Result<VerifiedOtp, String>,
    policy: &CookiePolicy,
    hint: &HintCookie,
    headers: &Vec<String>,
) -> (res: Reply)
    ensures
        match outcome {
            Ok(VerifiedOtp { user, session: Some(session), token: Some(token) }) => signs_in(
                res,
                (SessionBundle { user, session, token }),
                onward(session.active, path_in(form.return_to)),
                *policy,
                *hint,
                crate::text::views(headers@),
            ),
            Ok(_) => crate::auth_ui::page::plain_reply(
                res,
                back_to_code(*form, "That code could not sign you in."@),
            ),
            Err(_) => crate::auth_ui::page::plain_reply(
                res,
                back_to_code(*form, "That code is wrong or has expired. Ask for another."@),
            ),
        },
{
    match outcome {
        Ok(verified) => match (verified.session, verified.token) {
            (Some(session), Some(token)) => {
                let bundle = SessionBundle { user: verified.user, session, token };
                signed_in(bundle, path_of(&form.return_to), policy, hint, headers)
            },
            _ => go_back_to_code(form, "That code could not sign you in."),
        },
        Err(_) => go_back_to_code(form, "That code is wrong or has expired. Ask for another."),
    }
}

#[derive(Clone, Debug, Default, PartialEq, Eq)]
pub struct MagicQuery {
    pub email: Option<String>,
    pub token: Option<String>,
    pub return_to: Option<String>,
}

/// The check of a link that is asked of the engine.
#[derive(Clone, Debug, PartialEq, Eq)]
pub struct VerifyMagicLink {
    pub email: String,
    pub token: String,
    pub ip_address: Option<String>,
    pub user_agent: Option<String>,
}

/// `GET /login/magic` — where the link lands; nothing is asked of the engine
/// where the link is not whole, and the page says it expired.
pub fn magic_callback(
    q: &MagicQuery,
    forwarded_for: Option<&str>,
    user_agent: Option<String>,
) -> (res: Option<VerifyMagicLink>)
    ensures
        match (q.email, q.token) {
            (Some(email), Some(token)) => res matches Some(r) && r.email@ == email@ && r.token@
                == token@ && crate::text::opt_view(r.ip_address) == forwarded(forwarded_for)
                && r.user_agent == user_agent,
            _ => res is None,
        },
{
    match (&q.email, &q.token) {
        (Some(email), Some(token)) => Some(
            VerifyMagicLink {
                email: copy(email),
                token: copy(token),
                ip_address: client_ip(forwarded_for),
                user_agent,
            },
        ),
        _ => None,
    }
}

/// How a link ends: signed in, or one page for every failure, with where to
/// return to.
#[derive(Clone, Debug, PartialEq, Eq)]
pub enum Landed {
    SignedIn(Reply),
    Expired(String),
}

/// What the engine's answer about a link becomes; a link that was not whole
/// counts as one that it refused.
pub fn magic_verified(
    q: &MagicQuery,
    outcome: Result<SessionBundle, String>,
    policy: &CookiePolicy,
    hint: &HintCookie,
    headers: &Vec<String>,
) -> (res: Landed)
    ensures
        match outcome {
            Ok(bundle) => res matches Landed::SignedIn(reply) && signs_in(
                reply,
                bundle,
                onward(bundle.session.active, path_in(q.return_to)),
                *policy,
                *hint,
                crate::text::views(headers@),
            ),
            Err(_) => res matches Landed::Expired(back) && back@ == path_in(q.return_to),
        },
{
    let back = path_of(&q.return_to);
    match outcome {
        Ok(bundle) => Landed::SignedIn(signed_in(bundle, back, policy, hint, headers)),
        Err(_) => Landed::Expired(back),
    }
}

/// Whether an address has an account is not to be seen from where a request
/// for a code or a link is sent: it is the same place for everything that
/// can come of it but being asked again too soon.
pub proof fn law_sending_tells_nothing_of_the_account(
    path: Seq<char>,
    form: SendForm,
    too_soon: Seq<char>,
    a: Result<String, NotSent>,
    b: Result<String, NotSent>,
)
    requires
        a != Err::<String, NotSent>(NotSent::TooSoon),
        b != Err::<String, NotSent>(NotSent::TooSoon),
    ensures
        answered(path, form, too_soon, a) == answered(path, form, too_soon, b),
{
}

/// Nobody is sent off this origin by signing in: the destination is a path
/// of this server, whatever was asked for.
pub proof fn law_signing_in_stays_on_this_origin(active: bool, return_to: Option<String>)
    ensures
        crate::text::begins(onward(active, path_in(return_to)), seq!['/']),
        active ==> crate::auth_ui::page::same_origin(onward(active, path_in(return_to))),
{
    reveal_strlit("/login/two-factor?return_to=");
    crate::auth_ui::page::law_a_kept_path_stays_on_this_origin(crate::text::opt_view(return_to));
    let to = onward(active, path_in(return_to));
    assert(to[0] == '/');
    assert(to.subrange(0, 1) =~= seq!['/']);
}

/// Of the addresses a request came through the first is the client's, without the white
/// space around it.
pub proof fn law_the_first_address_is_the_clients(
    header: &str,
    a: Seq<char>,
    address: Seq<char>,
    b: Seq<char>,
    rest: Seq<char>,
)
    requires
        crate::text::blank(a),
        crate::text::blank(b),
        crate::text::trim_free(address),
        crate::text::free_of(a + address + b, ','),
    ensures
        header@ == a + address + b || header@ == a + address + b + seq![','] + rest ==> forwarded(
            Some(header),
        ) == if address.len() > 0 {
            Some(address)
        } else {
            None
        },
        forwarded(None) is None,
{
    let first = a + address + b;
    crate::text::law_trimming_takes_the_white_space_around(a, address, b);
    crate::text::lemma_pieces_of_free(first, ',');
    crate::text::law_parts_add_up(first, rest, ',');
    crate::text::lemma_pieces_nonempty(rest, ',');
}

/// Whoever is fully signed in goes where they were going; anyone else first to the
/// second factor, which brings them there.
pub proof fn law_the_second_factor_comes_first(return_to: Seq<char>)
    ensures
        onward(true, return_to) == return_to,
        crate::auth_ui::page::carries(
            onward(false, return_to),
            "/login/two-factor"@,
            "return_to"@,
            return_to,
        ),
{
    crate::auth_ui::page::law_a_value_is_read_back(return_to);
    reveal_strlit("/login/two-factor");
    reveal_strlit("return_to");
    reveal_strlit("/login/two-factor?return_to=");
    assert(!"/login/two-factor"@.contains('?'));
    assert(onward(false, return_to) =~= "/login/two-factor"@ + seq!['?'] + "return_to"@ + seq!['=']
        + crate::auth_ui::page::as_value(return_to));
}

/// Whether a URL leads back to a page that has sent, with the address, the way on and,
/// where there is one, the note, each of which reads as what was given.
pub open spec fn leads_back(
    url: Seq<char>,
    path: Seq<char>,
    email: Seq<char>,
    return_to: Seq<char>,
    note: Option<Seq<char>>,
) -> bool {
    exists|front: Seq<char>| #[trigger]
        leads_so_far(front, path, email, return_to) && match note {
            None => url == front,
            Some(n) => crate::auth_ui::page::carries(url, front, "error"@, n),
        }
}

/// The part of such a URL without the note.
pub open spec fn leads_so_far(
    url: Seq<char>,
    path: Seq<char>,
    email: Seq<char>,
    return_to: Seq<char>,
) -> bool {
    exists|e: Seq<char>, r: Seq<char>|
        #![trigger crate::auth_ui::page::stands_for(e, email), crate::auth_ui::page::stands_for(r, return_to)]
        crate::auth_ui::page::stands_for(e, email) && crate::auth_ui::page::stands_for(r, return_to)
            && url == path + "?sent=1"@ + "&email="@ + e + "&return_to="@ + r
}

/// After sending, the page is told the address without the white space around it, the
/// way on, and, where it was too soon and only then, that it was.
pub proof fn law_the_page_is_told_what_was_sent<T>(
    path: Seq<char>,
    form: SendForm,
    too_soon: Seq<char>,
    outcome: Result<T, NotSent>,
    a: Seq<char>,
    email: Seq<char>,
    b: Seq<char>,
)
    requires
        crate::text::blank(a),
        crate::text::blank(b),
        crate::text::trim_free(email),
        form.email@ == a + email + b,
    ensures
        leads_back(
            answered(path, form, too_soon, outcome),
            path,
            email,
            path_in(form.return_to),
            if outcome is Err && outcome->Err_0 is TooSoon {
                Some(too_soon)
            } else {
                None
            },
        ),
{
    crate::text::law_trimming_takes_the_white_space_around(a, email, b);
    lemma_leads_back(
        path,
        email,
        path_in(form.return_to),
        if outcome is Err && outcome->Err_0 is TooSoon {
            Some(too_soon)
        } else {
            None
        },
    );
}

proof fn lemma_leads_back(
    path: Seq<char>,
    email: Seq<char>,
    return_to: Seq<char>,
    note: Option<Seq<char>>,
)
    ensures
        leads_back(sent_at(path, email, return_to, note), path, email, return_to, note),
{
    let e = crate::auth_ui::page::as_value(email);
    let r = crate::auth_ui::page::as_value(return_to);
    crate::auth_ui::page::law_a_value_is_read_back(email);
    crate::auth_ui::page::law_a_value_is_read_back(return_to);
    let front = path + "?sent=1&email="@ + e + "&return_to="@ + r;
    reveal_strlit("?sent=1&email=");
    reveal_strlit("?sent=1");
    reveal_strlit("&email=");
    assert("?sent=1&email="@ =~= "?sent=1"@ + "&email="@);
    assert(front =~= path + "?sent=1"@ + "&email="@ + e + "&return_to="@ + r);
    assert(leads_so_far(front, path, email, return_to));
    if let Some(n) = note {
        crate::auth_ui::page::law_a_value_is_read_back(n);
        let v = crate::auth_ui::page::as_value(n);
        assert(front[path.len() as int] == '?');
        assert(front.contains('?'));
        reveal_strlit("&error=");
        reveal_strlit("error");
        assert("&error="@ =~= seq!['&'] + "error"@ + seq!['=']);
        let url = sent_at(path, email, return_to, note);
        assert(url =~= front + seq!['&'] + "error"@ + seq!['='] + v);
        assert(crate::auth_ui::page::carries(url, front, "error"@, n));
    } else {
        assert(sent_at(path, email, return_to, note) == front);
    }
}

/// A wrong code leads back to where codes are typed, with the reason.
pub proof fn law_a_wrong_code_may_be_typed_again(
    form: CodeForm,
    words: Seq<char>,
    a: Seq<char>,
    email: Seq<char>,
    b: Seq<char>,
)
    requires
        crate::text::blank(a),
        crate::text::blank(b),
        crate::text::trim_free(email),
        form.email@ == a + email + b,
    ensures
        leads_back(
            back_to_code(form, words),
            "/login/code"@,
            email,
            path_in(form.return_to),
            Some(words),
        ),
{
    crate::text::law_trimming_takes_the_white_space_around(a, email, b);
    lemma_leads_back("/login/code"@, email, path_in(form.return_to), Some(words));
}

/// Signing in puts the account first on the roster, and leaves a hint of the method
/// before it where one is recorded.
pub proof fn law_signing_in_is_remembered(
    bundle: SessionBundle,
    policy: CookiePolicy,
    hint: HintCookie,
    headers: Seq<Seq<char>>,
)
    ensures
        ({
            let cookies = left_behind(bundle, policy, hint, headers);
            let method = crate::auth_ui::last_login::recorded(bundle.user);
            &&& cookies.len() == if method is Some {
                2int
            } else {
                1
            }
            &&& crate::text::begins(cookies.last(), policy.name@ + ".accounts="@ + bundle.token@)
            &&& method is Some ==> crate::text::begins(
                cookies[0],
                hint.name@ + seq!['='] + crate::auth_ui::last_login::plain(method->0) + seq![';'],
            )
        }),
{
    let cookies = left_behind(bundle, policy, hint, headers);
    let tokens = crate::auth_ui::multi_session::remembered(
        crate::auth_ui::multi_session::held(headers, policy.name@),
        bundle.token@,
    );
    crate::auth_ui::multi_session::law_a_remembered_token_stands_first(
        crate::auth_ui::multi_session::held(headers, policy.name@),
        bundle.token@,
    );
    crate::auth_ui::multi_session::law_a_roster_is_kept_from_scripts(policy, tokens);
    lemma_joined_begins(tokens, ","@);
    let last = cookies.last();
    let value = crate::text::joined(tokens, ","@);
    let front = policy.name@ + ".accounts="@ + bundle.token@;
    let all = policy.name@ + ".accounts="@ + value;
    assert(last == crate::auth_ui::multi_session::roster_cookie(policy, tokens));
    let age = if tokens.len() == 0 {
        "0"@
    } else if policy.max_age_seconds is Some {
        crate::text::signed_decimal(policy.max_age_seconds->0 as int)
    } else {
        "2592000"@
    };
    let head = all + "; Path="@ + policy.path@ + "; Max-Age="@ + age + ";"@;
    assert(last.subrange(0, head.len() as int) == head);
    assert forall|i: int| 0 <= i < front.len() implies last[i] == front[i] by {
        assert(last.subrange(0, head.len() as int)[i] == last[i]);
        assert(head[i] == all[i]);
        let n = (policy.name@ + ".accounts="@).len();
        if i >= n {
            assert(value.subrange(0, bundle.token@.len() as int)[i - n] == value[i - n]);
        }
    }
    assert(last.subrange(0, front.len() as int) =~= front);
    if let Some(method) = crate::auth_ui::last_login::recorded(bundle.user) {
        crate::auth_ui::last_login::law_a_hint_goes_with_every_page(hint, method);
        assert(cookies[0] == crate::auth_ui::last_login::hint(hint, method));
    }
}

proof fn lemma_joined_begins(v: Seq<Seq<char>>, sep: Seq<char>)
    requires
        v.len() > 0,
    ensures
        crate::text::begins(crate::text::joined(v, sep), v[0]),
    decreases v.len(),
{
    reveal_with_fuel(crate::text::joined, 2);
    let all = crate::text::joined(v, sep);
    if v.len() == 1 {
        assert(all =~= v[0]);
        assert(all.subrange(0, v[0].len() as int) =~= v[0]);
    } else {
        let front = crate::text::joined(v.drop_last(), sep);
        lemma_joined_begins(v.drop_last(), sep);
        assert(v.drop_last()[0] == v[0]);
        assert(all =~= front + sep + v.last());
        assert(all.subrange(0, v[0].len() as int) =~= front.subrange(0, v[0].len() as int));
    }
}

/// Signing in sets the session to the account's own token, and the account is on the
/// roster; where the session is not active yet, the second factor comes first.
pub proof fn law_signing_in_sets_the_session(
    reply: Reply,
    bundle: SessionBundle,
    return_to: Seq<char>,
    policy: CookiePolicy,
    hint: HintCookie,
    headers: Seq<Seq<char>>,
)
    requires
        signs_in(reply, bundle, onward(bundle.session.active, return_to), policy, hint, headers),
    ensures
        reply.session is Some && reply.session->0@ == bundle.token@,
        reply.parked is None,
        bundle.session.active ==> reply.location@ == return_to,
        !bundle.session.active ==> crate::auth_ui::page::carries(
            reply.location@,
            "/login/two-factor"@,
            "return_to"@,
            return_to,
        ),
        reply.cookies@.len() > 0,
        crate::text::begins(reply.cookies@.last()@, policy.name@ + ".accounts="@ + bundle.token@),
{
    law_the_second_factor_comes_first(return_to);
    law_signing_in_is_remembered(bundle, policy, hint, headers);
    let told = crate::text::views(reply.cookies@);
    assert(told.len() == reply.cookies@.len());
    assert(told.last() == reply.cookies@.last()@);
}

/// A page that sends something keeps what was typed, and says that it was sent exactly
/// where it was, without saying that there is an account.
pub proof fn law_a_page_says_that_it_was_sent(
    page: SendPage,
    q: LoginQuery,
    what: Seq<char>,
    offer: Seq<char>,
)
    requires
        asks(page, q, what, offer),
    ensures
        q.email is Some ==> page.email@ == q.email->0@,
        q.email is None ==> page.email@.len() == 0,
        q.sent is Some <==> page.sent,
        q.sent is None ==> page.sub@ == offer,
        q.sent is Some ==> crate::text::begins(page.sub@, "If "@ + page.email@ + " has an account"@),
        q.sent is Some ==> crate::text::holds(page.sub@, what),
        crate::auth_ui::page::same_origin(page.return_to@),
        page.error == q.error,
{
    crate::auth_ui::page::law_a_kept_path_stays_on_this_origin(crate::text::opt_view(q.return_to));
    if q.sent is Some {
        let email = page.email@;
        reveal_strlit(" has an account, ");
        reveal_strlit(" has an account");
        let head = "If "@ + email + " has an account"@;
        assert(page.sub@.subrange(0, head.len() as int) =~= head);
        crate::text::law_what_a_part_holds_the_whole_holds(
            "If "@ + email + " has an account, "@,
            " is on its way."@,
            what,
        );
    }
}

} // verus!
