//! The screen that asks "do you want to let this app in?".
//!
//! The application and the access, in words, before the button. A refusal
//! goes back to the client, which is waiting for a redirect.

use crate::auth::percent::encode_component;
use crate::auth_ui::page::{sign_in_first, Begin};
use crate::text::{
    cat3, chars_of, copy, copy_opt, find_char, same, split_whitespace,
};
use vstd::prelude::*;

verus! {

/// Everything `/oauth2/authorize` was called with, carried through the
/// consent form so the second attempt is the same request.
#[derive(Clone, Debug, Default, PartialEq, Eq)]
pub struct ConsentParams {
    pub client_id: String,
    pub redirect_uri: String,
    pub response_type: Option<String>,
    pub scope: Option<String>,
    pub state: Option<String>,
    pub nonce: Option<String>,
    pub code_challenge: Option<String>,
    pub code_challenge_method: Option<String>,
}

/// The answer, with the request it answers.
#[derive(Clone, Debug, PartialEq, Eq)]
pub struct ConsentForm {
    pub decision: Option<String>,
    pub params: ConsentParams,
}

/// The authorization that is asked of the engine.
#[derive(Clone, Debug, PartialEq, Eq)]
pub struct AuthorizeOidc {
    pub session_token: String,
    pub client_id: String,
    pub redirect_uri: String,
    pub response_type: String,
    pub scope: Option<String>,
    pub state: Option<String>,
    pub nonce: Option<String>,
    pub code_challenge: Option<String>,
    pub code_challenge_method: Option<String>,
    pub prompt: Option<String>,
}

/// `redirect_uri` with `error=access_denied`, and the caller's `state`.
pub open spec fn refusal(params: ConsentParams) -> Seq<char> {
    let sep = if params.redirect_uri@.contains('?') {
        seq!['&']
    } else {
        seq!['?']
    };
    let uri = params.redirect_uri@ + sep + "error=access_denied"@;
    match params.state {
        Some(state) => if state@.len() == 0 {
            uri
        } else {
            uri + "&state="@ + crate::auth_ui::page::as_value(state@)
        },
        None => uri,
    }
}

/// `redirect_uri` with the refusal that a client expects. The `state` comes
/// back, or the client cannot match the answer to its request.
pub fn refusal_uri(params: &ConsentParams) -> (res: String)
    ensures
        res@ == refusal(*params),
{
    let cs = chars_of(params.redirect_uri.as_str());
    let sep = match find_char(&cs, '?', 0) {
        Some(_) => "&",
        None => "?",
    };
    proof {
        crate::text::lemma_first_char(params.redirect_uri@, '?', 0);
        reveal_strlit("&");
        reveal_strlit("?");
        assert("&"@ =~= seq!['&']);
        assert("?"@ =~= seq!['?']);
    }
    let mut uri = cat3(params.redirect_uri.as_str(), sep, "error=access_denied");
    if let Some(state) = &params.state {
        if state.as_str().unicode_len() > 0 {
            uri.append("&state=");
            uri.append(encode_component(state.as_str()).as_str());
        }
    }
    uri
}

/// The words for a scope. An unknown one is shown as it is: a screen that
/// omits what it does not recognise asks for something it does not mention.
pub open spec fn scope_words(scope: Seq<char>) -> Seq<char> {
    if scope == "openid"@ {
        "Confirm who you are"@
    } else if scope == "profile"@ {
        "Your name and picture"@
    } else if scope == "email"@ {
        "Your email address"@
    } else if scope == "offline_access"@ {
        "Keep working when you are not here"@
    } else {
        scope
    }
}

/// A scope, in words.
pub fn describe_scope(scope: &str) -> (res: String)
    ensures
        res@ == scope_words(scope@),
{
    let words = if same(scope, "openid") {
        "Confirm who you are"
    } else if same(scope, "profile") {
        "Your name and picture"
    } else if same(scope, "email") {
        "Your email address"
    } else if same(scope, "offline_access") {
        "Keep working when you are not here"
    } else {
        scope
    };
    words.to_owned()
}

/// What a consent screen shows.
#[derive(Clone, Debug, PartialEq, Eq)]
pub struct ConsentPage {
    /// "Allow {client}?"
    pub heading: String,
    /// What the client will be able to do; empty where it asked for nothing
    /// in particular.
    pub access: Vec<String>,
    /// The fields of the form, each a name and a value: the whole request.
    pub fields: Vec<(&'static str, String)>,
}

/// The names and values that carry a request through the form: every field
/// that was given.
pub open spec fn carried(params: ConsentParams) -> Seq<(Seq<char>, Seq<char>)> {
    seq![("client_id"@, params.client_id@), ("redirect_uri"@, params.redirect_uri@)] + one(
        "response_type"@,
        params.response_type,
    ) + one("scope"@, params.scope) + one("state"@, params.state) + one("nonce"@, params.nonce)
        + one("code_challenge"@, params.code_challenge) + one(
        "code_challenge_method"@,
        params.code_challenge_method,
    )
}

/// One field, where it was given.
pub open spec fn one(name: Seq<char>, value: Option<String>) -> Seq<(Seq<char>, Seq<char>)> {
    match value {
        Some(v) => seq![(name, v@)],
        None => Seq::empty(),
    }
}

/// The names and values of some fields.
pub open spec fn fields_view(fields: Seq<(&'static str, String)>) -> Seq<(Seq<char>, Seq<char>)> {
    fields.map_values(|f: (&'static str, String)| (f.0@, f.1@))
}

fn carry(fields: &mut Vec<(&'static str, String)>, name: &'static str, value: &Option<String>)
    ensures
        fields_view(final(fields)@) == fields_view(old(fields)@) + one(name@, *value),
{
    if let Some(v) = value {
        fields.push((name, copy(v)));
    }
    assert(fields_view(fields@) =~= fields_view(old(fields)@) + one(name@, *value));
}

/// The scopes of a request, each in words.
pub open spec fn access_words(scope: Option<String>) -> Seq<Seq<char>> {
    match scope {
        Some(s) => crate::text::words(s@).map_values(|w: Seq<char>| scope_words(w)),
        None => Seq::empty(),
    }
}

/// The consent screen for a request that needs one.
pub fn page(params: &ConsentParams) -> (res: ConsentPage)
    ensures
        res.heading@ == "Allow "@ + params.client_id@ + "?"@,
        crate::text::views(res.access@) == access_words(params.scope),
        fields_view(res.fields@) == carried(*params),
{
    let mut access: Vec<String> = Vec::new();
    if let Some(scope) = &params.scope {
        let words = split_whitespace(scope.as_str());
        for i in 0..words.len()
            invariant
                access@.len() == i,
                forall|j: int|
                    0 <= j < i ==> (#[trigger] access@[j])@ == scope_words(words@[j]@),
        {
            access.push(describe_scope(words[i].as_str()));
        }
        let ghost all = crate::text::words(scope@);
        assert forall|j: int| 0 <= j < all.len() implies #[trigger] all[j] == words@[j]@ by {
            assert(crate::text::views(words@)[j] == words@[j]@);
        }
    }
    assert(crate::text::views(access@) =~= access_words(params.scope));
    let mut fields: Vec<(&'static str, String)> = Vec::new();
    fields.push(("client_id", copy(&params.client_id)));
    fields.push(("redirect_uri", copy(&params.redirect_uri)));
    assert(fields_view(fields@) =~= seq![
        ("client_id"@, params.client_id@),
        ("redirect_uri"@, params.redirect_uri@),
    ]);
    carry(&mut fields, "response_type", &params.response_type);
    carry(&mut fields, "scope", &params.scope);
    carry(&mut fields, "state", &params.state);
    carry(&mut fields, "nonce", &params.nonce);
    carry(&mut fields, "code_challenge", &params.code_challenge);
    carry(&mut fields, "code_challenge_method", &params.code_challenge_method);
    ConsentPage {
        heading: cat3("Allow ", params.client_id.as_str(), "?"),
        access,
        fields,
    }
}

/// The authorization that a request becomes once it was consented to: the
/// same request, `code` where no response type was named, and no prompt —
/// asking again would never end.
pub open spec fn consented(request: AuthorizeOidc, token: Seq<char>, params: ConsentParams) -> bool {
    &&& request.session_token@ == token
    &&& request.client_id@ == params.client_id@
    &&& request.redirect_uri@ == params.redirect_uri@
    &&& request.response_type@ == match params.response_type {
        Some(t) => t@,
        None => "code"@,
    }
    &&& crate::text::opt_view(request.scope) == crate::text::opt_view(params.scope)
    &&& crate::text::opt_view(request.state) == crate::text::opt_view(params.state)
    &&& crate::text::opt_view(request.nonce) == crate::text::opt_view(params.nonce)
    &&& crate::text::opt_view(request.code_challenge) == crate::text::opt_view(
        params.code_challenge,
    )
    &&& crate::text::opt_view(request.code_challenge_method) == crate::text::opt_view(
        params.code_challenge_method,
    )
    &&& request.prompt is None
}

/// Whether the answer was yes. Anything but `allow` is a refusal.
pub open spec fn allowed(decision: Option<String>) -> bool {
    match decision {
        Some(d) => d@ == "allow"@,
        None => false,
    }
}

/// `POST /oauth2/consent` — the answer: signing in first, back to the client
/// with the refusal, or the authorization to ask for.
pub fn decide(token: Option<String>, form: &ConsentForm) -> (res: Begin<AuthorizeOidc>)
    ensures
        match token {
            None => crate::auth_ui::page::sent_to(
                res,
                crate::auth_ui::page::to_sign_in("/account/profile"@),
            ),
            Some(t) => if allowed(form.decision) {
                res matches Begin::Ask(request) && consented(request, t@, form.params)
            } else {
                crate::auth_ui::page::sent_to(res, refusal(form.params))
            },
        },
{
    let session_token = match token {
        Some(t) => t,
        None => return Begin::Go(sign_in_first("/account/profile")),
    };
    let yes = match &form.decision {
        Some(d) => same(d.as_str(), "allow"),
        None => false,
    };
    if !yes {
        return Begin::Go(refusal_uri(&form.params));
    }
    let params = &form.params;
    Begin::Ask(
        AuthorizeOidc {
            session_token,
            client_id: copy(&params.client_id),
            redirect_uri: copy(&params.redirect_uri),
            response_type: match &params.response_type {
                Some(t) => copy(t),
                None => "code".to_owned(),
            },
            scope: copy_opt(&params.scope),
            state: copy_opt(&params.state),
            nonce: copy_opt(&params.nonce),
            code_challenge: copy_opt(&params.code_challenge),
            code_challenge_method: copy_opt(&params.code_challenge_method),
            prompt: None,
        },
    )
}

/// How the consent ends: on to where the engine sends the browser, or a page
/// with the engine's words.
#[derive(Clone, Debug, PartialEq, Eq)]
pub enum Decided {
    Redirect(String),
    Refused(String),
}

/// What the engine's answer to the authorization becomes.
pub fn decided(outcome: Result<String, String>) -> (res: Decided)
    ensures
        match outcome {
            Ok(redirect_uri) => res matches Decided::Redirect(to) && to@ == redirect_uri@,
            Err(message) => res matches Decided::Refused(m) && m@ == message@,
        },
{
    match outcome {
        Ok(redirect_uri) => Decided::Redirect(redirect_uri),
        Err(message) => Decided::Refused(message),
    }
}

/// A refusal lands on the client's own redirect URI, whatever query that
/// already has, and no `state` can add a parameter to it: in what follows
/// the URI there is no separator but those of the refusal itself.
pub proof fn law_a_refusal_returns_to_the_client(params: ConsentParams)
    ensures
        crate::text::begins(refusal(params), params.redirect_uri@),
        params.state matches Some(state) ==> crate::text::free_of(
            crate::auth_ui::page::as_value(state@),
            '&',
        ) && crate::text::free_of(crate::auth_ui::page::as_value(state@), '='),
{
    let uri = params.redirect_uri@;
    assert(refusal(params).subrange(0, uri.len() as int) =~= uri);
    if let Some(state) = params.state {
        let keeping = crate::auth::percent::Keeping::Unreserved;
        crate::auth::percent::law_only_plain_characters_are_written(
            vstd::utf8::encode_utf8(state@),
            keeping,
        );
        let value = crate::auth_ui::page::as_value(state@);
        assert forall|i: int| 0 <= i < value.len() implies value[i] != '&' && value[i] != '=' by {
            assert(crate::auth::percent::plain(value[i], keeping));
        }
    }
}

// ---------------------------------------------------------------------------
// What the form carries
// ---------------------------------------------------------------------------

/// The value that a form gives for a name: that of the first field of the name.
pub open spec fn read_back(fields: Seq<(Seq<char>, Seq<char>)>, name: Seq<char>) -> Option<
    Seq<char>,
>
    decreases fields.len(),
{
    if fields.len() == 0 {
        None
    } else if fields[0].0 == name {
        Some(fields[0].1)
    } else {
        read_back(fields.skip(1), name)
    }
}

/// Whether reading some fields back gives the request.
pub open spec fn reads_back(
    fields: Seq<(Seq<char>, Seq<char>)>,
    params: ConsentParams,
) -> bool {
    &&& read_back(fields, "client_id"@) == Some(params.client_id@)
    &&& read_back(fields, "redirect_uri"@) == Some(params.redirect_uri@)
    &&& read_back(fields, "response_type"@) == crate::text::opt_view(params.response_type)
    &&& read_back(fields, "scope"@) == crate::text::opt_view(params.scope)
    &&& read_back(fields, "state"@) == crate::text::opt_view(params.state)
    &&& read_back(fields, "nonce"@) == crate::text::opt_view(params.nonce)
    &&& read_back(fields, "code_challenge"@) == crate::text::opt_view(params.code_challenge)
    &&& read_back(fields, "code_challenge_method"@) == crate::text::opt_view(
        params.code_challenge_method,
    )
}

proof fn lemma_read_back_of_sum(
    a: Seq<(Seq<char>, Seq<char>)>,
    b: Seq<(Seq<char>, Seq<char>)>,
    name: Seq<char>,
)
    ensures
        read_back(a + b, name) == (if read_back(a, name) is Some {
            read_back(a, name)
        } else {
            read_back(b, name)
        }),
    decreases a.len(),
{
    if a.len() == 0 {
        assert(a + b =~= b);
    } else {
        assert((a + b).skip(1) =~= a.skip(1) + b);
        lemma_read_back_of_sum(a.skip(1), b, name);
    }
}

proof fn lemma_read_back_of_one(name: Seq<char>, value: Option<String>, wanted: Seq<char>)
    ensures
        read_back(one(name, value), wanted) == (if name == wanted {
            crate::text::opt_view(value)
        } else {
            None
        }),
{
    reveal_with_fuel(read_back, 3);
    let fields = one(name, value);
    if value is Some {
        assert(fields.skip(1) =~= Seq::<(Seq<char>, Seq<char>)>::empty());
    }
}

proof fn lemma_carried(params: ConsentParams, wanted: Seq<char>)
    ensures
        read_back(carried(params), wanted) == (if wanted == "client_id"@ {
            Some(params.client_id@)
        } else if wanted == "redirect_uri"@ {
            Some(params.redirect_uri@)
        } else if wanted == "response_type"@ {
            crate::text::opt_view(params.response_type)
        } else if wanted == "scope"@ {
            crate::text::opt_view(params.scope)
        } else if wanted == "state"@ {
            crate::text::opt_view(params.state)
        } else if wanted == "nonce"@ {
            crate::text::opt_view(params.nonce)
        } else if wanted == "code_challenge"@ {
            crate::text::opt_view(params.code_challenge)
        } else if wanted == "code_challenge_method"@ {
            crate::text::opt_view(params.code_challenge_method)
        } else {
            None
        }),
{
    reveal_with_fuel(read_back, 4);
    let first = seq![("client_id"@, params.client_id@), ("redirect_uri"@, params.redirect_uri@)];
    assert(first.skip(1) =~= seq![("redirect_uri"@, params.redirect_uri@)]);
    assert(first.skip(1).skip(1) =~= Seq::<(Seq<char>, Seq<char>)>::empty());
    let a = first + one("response_type"@, params.response_type);
    let b = a + one("scope"@, params.scope);
    let c = b + one("state"@, params.state);
    let d = c + one("nonce"@, params.nonce);
    let e = d + one("code_challenge"@, params.code_challenge);
    lemma_read_back_of_sum(first, one("response_type"@, params.response_type), wanted);
    lemma_read_back_of_sum(a, one("scope"@, params.scope), wanted);
    lemma_read_back_of_sum(b, one("state"@, params.state), wanted);
    lemma_read_back_of_sum(c, one("nonce"@, params.nonce), wanted);
    lemma_read_back_of_sum(d, one("code_challenge"@, params.code_challenge), wanted);
    lemma_read_back_of_sum(
        e,
        one("code_challenge_method"@, params.code_challenge_method),
        wanted,
    );
    lemma_read_back_of_one("response_type"@, params.response_type, wanted);
    lemma_read_back_of_one("scope"@, params.scope, wanted);
    lemma_read_back_of_one("state"@, params.state, wanted);
    lemma_read_back_of_one("nonce"@, params.nonce, wanted);
    lemma_read_back_of_one("code_challenge"@, params.code_challenge, wanted);
    lemma_read_back_of_one("code_challenge_method"@, params.code_challenge_method, wanted);
    lemma_names_differ();
}

proof fn lemma_names_differ()
    ensures
        "client_id"@.len() == 9,
        "redirect_uri"@.len() == 12,
        "response_type"@.len() == 13,
        "scope"@.len() == 5,
        "state"@.len() == 5,
        "scope"@ != "state"@,
        "nonce"@.len() == 5,
        "nonce"@ != "scope"@,
        "nonce"@ != "state"@,
        "code_challenge"@.len() == 14,
        "code_challenge_method"@.len() == 21,
{
    reveal_strlit("client_id");
    reveal_strlit("redirect_uri");
    reveal_strlit("response_type");
    reveal_strlit("scope");
    reveal_strlit("state");
    reveal_strlit("nonce");
    reveal_strlit("code_challenge");
    reveal_strlit("code_challenge_method");
    assert("scope"@[1] == 'c' && "state"@[1] == 't' && "nonce"@[1] == 'o');
}

/// The form carries the request: read back, its fields give each of the eight
/// parameters as it was, and those that were not given are not there; and there is
/// no field of any other name.
pub proof fn law_the_form_carries_the_request(params: ConsentParams, page: ConsentPage)
    requires
        fields_view(page.fields@) == carried(params),
    ensures
        reads_back(fields_view(page.fields@), params),
        forall|name: Seq<char>| #[trigger]
            read_back(fields_view(page.fields@), name) is Some ==> name == "client_id"@ || name
                == "redirect_uri"@ || name == "response_type"@ || name == "scope"@ || name
                == "state"@ || name == "nonce"@ || name == "code_challenge"@ || name
                == "code_challenge_method"@,
{
    lemma_names_differ();
    lemma_carried(params, "client_id"@);
    lemma_carried(params, "redirect_uri"@);
    lemma_carried(params, "response_type"@);
    lemma_carried(params, "scope"@);
    lemma_carried(params, "state"@);
    lemma_carried(params, "nonce"@);
    lemma_carried(params, "code_challenge"@);
    lemma_carried(params, "code_challenge_method"@);
    assert forall|name: Seq<char>| #[trigger]
        read_back(fields_view(page.fields@), name) is Some implies name == "client_id"@ || name
        == "redirect_uri"@ || name == "response_type"@ || name == "scope"@ || name == "state"@
        || name == "nonce"@ || name == "code_challenge"@ || name == "code_challenge_method"@ by {
        lemma_carried(params, name);
    }
}

/// Allowing re-issues the request that was shown: what the engine is asked once the
/// form comes back with `allow` has every parameter of the request that the page was
/// made for, in the name of whoever is signed in, without a prompt.
pub proof fn law_allowing_reissues_the_same_request(
    shown: ConsentParams,
    page: ConsentPage,
    form: ConsentForm,
    token: Seq<char>,
    request: AuthorizeOidc,
)
    requires
        fields_view(page.fields@) == carried(shown),
        reads_back(fields_view(page.fields@), form.params),
        consented(request, token, form.params),
    ensures
        request.session_token@ == token,
        request.client_id@ == shown.client_id@,
        request.redirect_uri@ == shown.redirect_uri@,
        shown.response_type matches Some(t) ==> request.response_type@ == t@,
        shown.response_type is None ==> request.response_type@ == "code"@,
        shown.scope is Some == request.scope is Some,
        shown.scope matches Some(v) ==> request.scope->0@ == v@,
        shown.state is Some == request.state is Some,
        shown.state matches Some(v) ==> request.state->0@ == v@,
        shown.nonce is Some == request.nonce is Some,
        shown.nonce matches Some(v) ==> request.nonce->0@ == v@,
        shown.code_challenge is Some == request.code_challenge is Some,
        shown.code_challenge matches Some(v) ==> request.code_challenge->0@ == v@,
        shown.code_challenge_method is Some == request.code_challenge_method is Some,
        shown.code_challenge_method matches Some(v) ==> request.code_challenge_method->0@ == v@,
        request.prompt is None,
{
    law_the_form_carries_the_request(shown, page);
}

/// Only the word `allow` is a yes: a form without it, or with any other word, is a
/// refusal.
pub proof fn law_only_allow_is_a_yes(decision: Option<String>)
    ensures
        allowed(decision) <==> (decision matches Some(d) && d@ == seq!['a', 'l', 'l', 'o', 'w']),
{
    reveal_strlit("allow");
    assert("allow"@ =~= seq!['a', 'l', 'l', 'o', 'w']);
}

/// What a refusal adds to the client's URI: one separator, an ampersand where the
/// URI has a query and a question mark where it has none, then the error and, where
/// the request had a state that is not empty, the state, which decodes to what the
/// client sent.
pub proof fn law_a_refusal_hands_the_state_back(params: ConsentParams)
    ensures
        ({
            let uri = params.redirect_uri@;
            let told = refusal(params);
            let parts = crate::text::pieces(told.skip(uri.len() as int + 1), '&');
            &&& told.len() > uri.len()
            &&& told.take(uri.len() as int) == uri
            &&& told[uri.len() as int] == (if uri.contains('?') {
                '&'
            } else {
                '?'
            })
            &&& parts[0] == "error=access_denied"@
            &&& parts.len() == (if params.state is Some && params.state->0@.len() > 0 {
                2int
            } else {
                1
            })
            &&& (params.state is Some && params.state->0@.len() > 0) ==> crate::text::begins(
                parts[1],
                "state="@,
            ) && forall|text: Seq<char>| #[trigger]
                crate::auth::percent::decodes_to(parts[1].skip(6), text) ==> text
                    == params.state->0@
        }),
{
    let uri = params.redirect_uri@;
    let told = refusal(params);
    let error = "error=access_denied"@;
    reveal_strlit("error=access_denied");
    reveal_strlit("&state=");
    reveal_strlit("state=");
    assert(told.take(uri.len() as int) =~= uri);
    let tail = told.skip(uri.len() as int + 1);
    assert(crate::text::free_of(error, '&'));
    crate::text::lemma_pieces_of_free(error, '&');
    if params.state is Some && params.state->0@.len() > 0 {
        let state = params.state->0@;
        let value = crate::auth_ui::page::as_value(state);
        law_a_refusal_returns_to_the_client(params);
        let second = "state="@ + value;
        assert(crate::text::free_of(second, '&'));
        assert(tail =~= error + seq!['&'] + second);
        crate::text::law_parts_add_up(error, second, '&');
        crate::text::lemma_pieces_of_free(second, '&');
        assert(second.subrange(0, 6) =~= "state="@);
        assert(second.skip(6) =~= value);
        assert forall|text: Seq<char>| #[trigger]
            crate::auth::percent::decodes_to(value, text) implies text == state by {
            crate::auth::percent::law_decode_undoes_encode(
                state,
                crate::auth::percent::Keeping::Unreserved,
                text,
            );
        }
    } else {
        assert(tail =~= error);
    }
}

/// A screen mentions everything it asks for: it has one line for each scope of the
/// request, in their order, the words of the four that it knows, which differ, and
/// any other as it is.
pub proof fn law_every_scope_is_mentioned(scope: Option<String>)
    ensures
        scope is None ==> access_words(scope).len() == 0,
        scope matches Some(s) ==> access_words(scope).len() == crate::text::words(s@).len()
            && forall|i: int|
            0 <= i < crate::text::words(s@).len() ==> {
                let asked = #[trigger] crate::text::words(s@)[i];
                access_words(scope)[i] == asked <==> asked != "openid"@ && asked != "profile"@
                    && asked != "email"@ && asked != "offline_access"@
            },
        scope_words("openid"@) == "Confirm who you are"@,
        scope_words("profile"@) == "Your name and picture"@,
        scope_words("email"@) == "Your email address"@,
        scope_words("offline_access"@) == "Keep working when you are not here"@,
{
    reveal_strlit("openid");
    reveal_strlit("profile");
    reveal_strlit("email");
    reveal_strlit("offline_access");
    reveal_strlit("Confirm who you are");
    reveal_strlit("Your name and picture");
    reveal_strlit("Your email address");
    reveal_strlit("Keep working when you are not here");
    assert("openid"@.len() == 6 && "profile"@.len() == 7 && "email"@.len() == 5
        && "offline_access"@.len() == 14);
    assert("Confirm who you are"@.len() == 19 && "Your name and picture"@.len() == 21
        && "Your email address"@.len() == 18 && "Keep working when you are not here"@.len() == 34);
}

} // verus!
