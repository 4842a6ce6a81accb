//! Where a request goes next, and the bits every page needs.

use crate::auth::percent::encode_component;
use crate::text::{cat, cat3, chars_of, copy, find_char, trim};
use vstd::prelude::*;

verus! {

/// A one-line message at the top of a page, from the query string the
/// previous POST redirected with.
#[derive(Clone, Debug, PartialEq, Eq)]
pub enum Flash {
    Success(String),
    Error(String),
}

/// What a flash says.
pub enum Said {
    Success(Seq<char>),
    Error(Seq<char>),
}

impl View for Flash {
    type V = Said;

    open spec fn view(&self) -> Said {
        match self {
            Flash::Success(message) => Said::Success(message@),
            Flash::Error(message) => Said::Error(message@),
        }
    }
}

/// A flash that may be absent.
pub open spec fn flash_view(flash: Option<Flash>) -> Option<Said> {
    match flash {
        Some(f) => Some(f@),
        None => None,
    }
}

/// A query parameter that was given and is not empty.
pub open spec fn given(param: Option<&str>) -> Option<Seq<char>> {
    match param {
        Some(s) => if s@.len() == 0 {
            None
        } else {
            Some(s@)
        },
        None => None,
    }
}

/// What `?ok=` and `?error=` say: the error before the success, and an
/// empty parameter nothing.
pub open spec fn said(ok: Option<&str>, error: Option<&str>) -> Option<Said> {
    match given(error) {
        Some(e) => Some(Said::Error(e)),
        None => match given(ok) {
            Some(o) => Some(Said::Success(o)),
            None => None,
        },
    }
}

impl Flash {
    /// Reads `?ok=` / `?error=` into a flash, preferring the error.
    pub fn from_query(ok: Option<&str>, error: Option<&str>) -> (res: Option<Flash>)
        ensures
            flash_view(res) == said(ok, error),
    {
        if let Some(e) = error {
            if e.unicode_len() > 0 {
                return Some(Flash::Error(e.to_owned()));
            }
        }
        if let Some(o) = ok {
            if o.unicode_len() > 0 {
                return Some(Flash::Success(o.to_owned()));
            }
        }
        None
    }
}

/// A text as the value of a query parameter.
pub open spec fn as_value(s: Seq<char>) -> Seq<char> {
    crate::auth::percent::escaped(
        vstd::utf8::encode_utf8(s),
        crate::auth::percent::Keeping::Unreserved,
    )
}

/// `path` with one more query parameter, its value escaped.
pub open spec fn with_param(path: Seq<char>, key: Seq<char>, value: Seq<char>) -> Seq<char> {
    let sep = if path.contains('?') {
        seq!['&']
    } else {
        seq!['?']
    };
    path + sep + key + seq!['='] + as_value(value)
}

/// The location that carries a flash back to `path`.
pub open spec fn flashed(path: Seq<char>, said: Said) -> Seq<char> {
    match said {
        Said::Success(message) => with_param(path, "ok"@, message),
        Said::Error(message) => with_param(path, "error"@, message),
    }
}

/// The location of `path` carrying a flash message.
pub fn flash_to(path: &str, flash: &Flash) -> (res: String)
    ensures
        res@ == flashed(path@, flash@),
{
    let cs = chars_of(path);
    let sep = match find_char(&cs, '?', 0) {
        Some(_) => "&",
        None => "?",
    };
    proof {
        crate::text::lemma_first_char(path@, '?', 0);
        reveal_strlit("&");
        reveal_strlit("?");
        reveal_strlit("=");
        assert("&"@ =~= seq!['&']);
        assert("?"@ =~= seq!['?']);
        assert("="@ =~= seq!['=']);
    }
    let (key, message) = match flash {
        Flash::Success(message) => ("ok", message.as_str()),
        Flash::Error(message) => ("error", message.as_str()),
    };
    let encoded = encode_component(message);
    let start = cat3(path, sep, key);
    cat3(start.as_str(), "=", encoded.as_str())
}

/// Where somebody without a session signs in before coming to `return_to`.
pub open spec fn to_sign_in(return_to: Seq<char>) -> Seq<char> {
    "/login?return_to="@ + as_value(return_to)
}

/// Sends a browser with no session to sign in, and back here afterwards.
pub fn sign_in_first(return_to: &str) -> (res: String)
    ensures
        res@ == to_sign_in(return_to@),
{
    let encoded = encode_component(return_to);
    cat("/login?return_to=", encoded.as_str())
}

/// An absolute path on this origin: one leading slash, and nothing that a
/// browser reads as a host or that ends a header line.
pub open spec fn same_origin(path: Seq<char>) -> bool {
    &&& path.len() > 0
    &&& path[0] == '/'
    &&& !(path.len() > 1 && path[1] == '/')
    &&& !path.contains('\\')
    &&& !path.contains('\r')
    &&& !path.contains('\n')
}

/// The path a caller asked to return to, where it is safe to go there, and
/// `/` where it is not.
pub open spec fn kept_path(raw: Option<Seq<char>>) -> Seq<char> {
    let candidate = match raw {
        Some(s) => crate::text::trimmed(s),
        None => Seq::empty(),
    };
    if same_origin(candidate) {
        candidate
    } else {
        seq!['/']
    }
}

/// A text that may be absent.
pub open spec fn text_of(raw: Option<&str>) -> Option<Seq<char>> {
    match raw {
        Some(s) => Some(s@),
        None => None,
    }
}

/// Reduces a caller-supplied path to something safe to `Location:`.
pub fn safe_path(raw: Option<&str>) -> (res: String)
    ensures
        res@ == kept_path(text_of(raw)),
{
    let candidate = match raw {
        Some(s) => trim(s),
        None => "".to_owned(),
    };
    proof {
        reveal_strlit("");
        reveal_strlit("/");
        assert(""@ =~= Seq::<char>::empty());
        assert("/"@ =~= seq!['/']);
    }
    let cs = chars_of(candidate.as_str());
    let n: usize = cs.len();
    proof {
        crate::text::lemma_first_char(candidate@, '\\', 0);
        crate::text::lemma_first_char(candidate@, '\r', 0);
        crate::text::lemma_first_char(candidate@, '\n', 0);
    }
    if n > 0 && cs[0] == '/' && !(n > 1 && cs[1] == '/') && find_char(&cs, '\\', 0).is_none()
        && find_char(&cs, '\r', 0).is_none() && find_char(&cs, '\n', 0).is_none() {
        candidate
    } else {
        "/".to_owned()
    }
}

/// Wherever a caller asks to be sent, the path that is kept leads to this
/// origin: a refused one is answered with `/`.
pub proof fn law_a_kept_path_stays_on_this_origin(raw: Option<Seq<char>>)
    ensures
        same_origin(kept_path(raw)),
{
    let root = seq!['/'];
    assert(root[0] == '/');
    assert(!root.contains('\\'));
    assert(!root.contains('\r'));
    assert(!root.contains('\n'));
}

/// A path that was kept once is kept as it is.
pub proof fn law_keeping_a_path_is_final(raw: Option<Seq<char>>)
    ensures
        kept_path(Some(kept_path(raw))) == kept_path(raw),
{
    law_a_kept_path_stays_on_this_origin(raw);
    match raw {
        Some(r) => {
            crate::text::law_trimming_is_final(r);
        },
        None => {},
    }
    let root = seq!['/'];
    assert(root.len() == 1 && !crate::text::white_space(root[0]));
    assert(crate::text::trimmed_start(root) == root);
    assert(crate::text::trimmed_end(root) == root);
}

/// The first half of a handler: where the browser is sent at once, or what
/// is asked of the engine.
#[derive(Clone, Debug, PartialEq, Eq)]
pub enum Begin<R> {
    Go(String),
    Ask(R),
}

/// The half-way point of a handler that is sent away.
pub open spec fn sent_to<R>(begin: Begin<R>, location: Seq<char>) -> bool {
    match begin {
        Begin::Go(l) => l@ == location,
        Begin::Ask(_) => false,
    }
}

/// How a handler for somebody signed in begins: without a session it sends
/// the browser to sign in and come back to `path`, and with one it asks what
/// `asked` says of the token.
pub open spec fn begun<R>(
    begin: Begin<R>,
    token: Option<String>,
    path: Seq<char>,
    asked: spec_fn(R, Seq<char>) -> bool,
) -> bool {
    match token {
        None => sent_to(begin, to_sign_in(path)),
        Some(t) => match begin {
            Begin::Ask(request) => asked(request, t@),
            Begin::Go(_) => false,
        },
    }
}

/// A handler with nothing to ask beyond the session it was called with.
pub fn with_session(token: Option<String>, path: &str) -> (res: Begin<String>)
    ensures
        begun(res, token, path@, |session: String, t: Seq<char>| session@ == t),
{
    match token {
        Some(t) => Begin::Ask(t),
        None => Begin::Go(sign_in_first(path)),
    }
}

/// A redirect that changes what the browser holds.
#[derive(Clone, Debug, PartialEq, Eq)]
pub struct Reply {
    pub location: String,
    /// The token the session cookie is set to; an empty one clears it.
    pub session: Option<String>,
    /// A token put by under a cookie name of its own, written as the session
    /// cookie is.
    pub parked: Option<(String, String)>,
    /// Further `Set-Cookie` values, in order.
    pub cookies: Vec<String>,
}

/// A redirect that touches no cookie.
pub open spec fn plain_reply(reply: Reply, location: Seq<char>) -> bool {
    &&& reply.location@ == location
    &&& reply.session is None
    &&& reply.parked is None
    &&& reply.cookies@.len() == 0
}

/// A redirect that touches no cookie.
pub fn just_go(location: String) -> (res: Reply)
    ensures
        plain_reply(res, location@),
{
    Reply { location, session: None, parked: None, cookies: Vec::new() }
}

/// What a request that the engine answered says back on `path`: the words
/// for a success, and the engine's own words for a refusal.
pub open spec fn settled<T>(
    path: Seq<char>,
    success: Seq<char>,
    outcome: Result<T, String>,
) -> Seq<char> {
    match outcome {
        Ok(_) => flashed(path, Said::Success(success)),
        Err(e) => flashed(path, Said::Error(e@)),
    }
}

/// The location a finished request is sent to.
pub fn settle<T>(path: &str, success: &str, outcome: &Result<T, String>) -> (res: String)
    ensures
        res@ == settled(path@, success@, *outcome),
{
    match outcome {
        Ok(_) => flash_to(path, &Flash::Success(success.to_owned())),
        Err(e) => flash_to(path, &Flash::Error(copy(e))),
    }
}

/// Whether a value, read as a value of a query is, is `text`.
pub open spec fn stands_for(value: Seq<char>, text: Seq<char>) -> bool {
    forall|read: Seq<char>| #[trigger]
        crate::auth::percent::decodes_to(value, read) ==> read == text
}

/// Whether a URL is `path` with one more parameter, which reads as `text`.
pub open spec fn carries(url: Seq<char>, path: Seq<char>, key: Seq<char>, text: Seq<char>) -> bool {
    exists|value: Seq<char>|
        #[trigger] stands_for(value, text) && url == path + seq![
            if path.contains('?') {
                '&'
            } else {
                '?'
            },
        ] + key + seq!['='] + value
}

/// What is written as a value reads as what was written.
pub proof fn law_a_value_is_read_back(text: Seq<char>)
    ensures
        stands_for(as_value(text), text),
{
    assert forall|read: Seq<char>| #[trigger]
        crate::auth::percent::decodes_to(as_value(text), read) implies read == text by {
        crate::auth::percent::law_decode_undoes_encode(
            text,
            crate::auth::percent::Keeping::Unreserved,
            read,
        );
    }
}

/// A parameter is added to a path behind what it holds already, and reads as what was
/// given; success travels under one name and an error under another; whoever has to
/// sign in first is brought back; an outcome is told as what it is.
pub proof fn law_a_redirect_carries_what_it_says<T>(
    path: Seq<char>,
    key: Seq<char>,
    text: Seq<char>,
    outcome: Result<T, String>,
)
    ensures
        carries(with_param(path, key, text), path, key, text),
        carries(flashed(path, Said::Success(text)), path, "ok"@, text),
        carries(flashed(path, Said::Error(text)), path, "error"@, text),
        carries(to_sign_in(text), "/login"@, "return_to"@, text),
        outcome is Ok ==> carries(settled(path, text, outcome), path, "ok"@, text),
        outcome is Err ==> carries(
            settled(path, text, outcome),
            path,
            "error"@,
            outcome->Err_0@,
        ),
{
    law_a_value_is_read_back(text);
    let sep = if path.contains('?') {
        '&'
    } else {
        '?'
    };
    let value = as_value(text);
    assert(with_param(path, key, text) =~= path + seq![sep] + key + seq!['='] + value);
    assert(flashed(path, Said::Success(text)) =~= path + seq![sep] + "ok"@ + seq!['='] + value);
    assert(flashed(path, Said::Error(text)) =~= path + seq![sep] + "error"@ + seq!['='] + value);
    reveal_strlit("/login");
    reveal_strlit("return_to");
    reveal_strlit("/login?return_to=");
    assert(!"/login"@.contains('?'));
    assert("/login?return_to="@ =~= "/login"@ + seq!['?'] + "return_to"@ + seq!['=']);
    assert(to_sign_in(text) =~= "/login"@ + seq!['?'] + "return_to"@ + seq!['='] + value);
    if let Err(e) = outcome {
        law_a_value_is_read_back(e@);
        assert(settled(path, text, outcome) =~= path + seq![sep] + "error"@ + seq!['='] + as_value(
            e@,
        ));
    }
}

/// An error is told before a success, and nothing where neither says anything.
pub proof fn law_an_error_is_told_first(ok: Option<&str>, error: Option<&str>)
    ensures
        error is Some && error->0@.len() > 0 ==> said(ok, error) == Some(Said::Error(error->0@)),
        (error is None || error->0@.len() == 0) && ok is Some && ok->0@.len() > 0 ==> said(ok, error)
            == Some(Said::Success(ok->0@)),
        (error is None || error->0@.len() == 0) && (ok is None || ok->0@.len() == 0) ==> said(
            ok,
            error,
        ) is None,
{
}

/// A path of this origin is kept, whatever white space stands around it; any other
/// leads home.
pub proof fn law_a_path_of_this_origin_is_kept(a: Seq<char>, path: Seq<char>, b: Seq<char>)
    requires
        crate::text::blank(a),
        crate::text::blank(b),
        crate::text::trim_free(path),
        path.len() > 0,
    ensures
        path[0] == '/' && (path.len() == 1 || path[1] != '/') && crate::text::free_of(path, '\\')
            && crate::text::free_of(path, '\r') && crate::text::free_of(path, '\n') ==> kept_path(
            Some(a + path + b),
        ) == path,
        path[0] != '/' || (path.len() > 1 && path[1] == '/') || path.contains('\\')
            || path.contains('\r') || path.contains('\n') ==> kept_path(Some(a + path + b)) == seq![
            '/',
        ],
        kept_path(None) == seq!['/'],
{
    crate::text::law_trimming_takes_the_white_space_around(a, path, b);
}

/// Whoever is signed in has their request made, in their own name; whoever is not is sent
/// to sign in first, and brought back.
pub proof fn law_one_signs_in_before_anything_is_asked<R>(
    begin: Begin<R>,
    token: Option<String>,
    path: Seq<char>,
    asked: spec_fn(R, Seq<char>) -> bool,
)
    requires
        begun(begin, token, path, asked),
    ensures
        begin is Ask <==> token is Some,
        begin is Ask ==> asked(begin->Ask_0, token->0@),
        begin is Go ==> carries(begin->Go_0@, "/login"@, "return_to"@, path),
{
    law_a_redirect_carries_what_it_says::<()>(path, "ok"@, path, Ok(()));
}

/// A plain reply goes where it says, and leaves every cookie as it was.
pub proof fn law_a_plain_reply_leaves_the_cookies(reply: Reply, location: Seq<char>)
    requires
        plain_reply(reply, location),
    ensures
        reply.location@ == location,
        reply.session is None && reply.parked is None && reply.cookies@.len() == 0,
{
}

} // verus!
