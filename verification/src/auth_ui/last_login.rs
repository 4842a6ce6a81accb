//! "You signed in with GitHub last time."
//!
//! Whoever reads a sign-in page has no session, so the answer has to live in
//! the browser: every path that signs somebody in leaves a small cookie
//! behind that names a method and nothing else, and the sign-in page reads
//! it.

use crate::auth_ui::cookies::cookie;
use crate::auth_ui::engine::AuthUser;
use crate::text::{cat, chars_of, decimal_of, is_ascii_alphanumeric, same};
use vstd::prelude::*;

verus! {

/// How the hint is kept in the browser.
#[derive(Clone, Debug, PartialEq, Eq)]
pub struct HintCookie {
    pub name: String,
    pub max_age_seconds: u64,
}

/// The text that stands under a key of a JSON object, as
/// `serde_json::from_str`, `Value::get` and `Value::as_str` read it: nothing
/// where the text is no JSON, or the key is missing, or holds no text.
pub uninterp spec fn text_member(json: Seq<char>, key: Seq<char>) -> Option<Seq<char>>;

/// `serde_json::from_str`, then `Value::get` and `Value::as_str`: the text
/// under a key of a JSON object.
#[verifier::external_body]
fn member_of(json: &str, key: &str) -> (res: Option<String>)
    ensures
        crate::text::opt_view(res) == text_member(json@, key@),
{
    let value: serde_json::Value = serde_json::from_str(json).ok()?;
    value.get(key)?.as_str().map(str::to_owned)
}

/// The way a method is allowed into a cookie: letters, digits, `-` and `_`.
pub open spec fn plain(method: Seq<char>) -> Seq<char>
    decreases method.len(),
{
    if method.len() == 0 {
        Seq::empty()
    } else {
        let before = plain(method.drop_last());
        if crate::auth_ui::multi_session::token_char(method.last()) {
            before.push(method.last())
        } else {
            before
        }
    }
}

/// A method without anything that could end a cookie's value.
fn plain_of(method: &str) -> (res: String)
    ensures
        res@ == plain(method@),
{
    let cs = chars_of(method);
    let mut out = String::new();
    assert(out@ =~= plain(cs@.take(0)));
    for i in 0..cs.len()
        invariant
            cs@ == method@,
            out@ == plain(cs@.take(i as int)),
    {
        proof {
            assert(cs@.take(i + 1).drop_last() =~= cs@.take(i as int));
        }
        let c = cs[i];
        if is_ascii_alphanumeric(c) || c == '-' || c == '_' {
            out.push(c);
        }
    }
    assert(cs@.take(cs@.len() as int) =~= cs@);
    out
}

/// The `Set-Cookie` value for a recorded method.
pub open spec fn hint(config: HintCookie, method: Seq<char>) -> Seq<char> {
    config.name@ + "="@ + plain(method) + "; Path=/; Max-Age="@ + crate::text::decimal(
        config.max_age_seconds as nat,
    ) + "; SameSite=Lax"@
}

/// The `Set-Cookie` value for a method the engine recorded.
///
/// A provider id is configuration, so it is filtered rather than trusted:
/// anything else would let a provider's name add cookie attributes.
pub fn hint_for(config: &HintCookie, method: &str) -> (res: String)
    ensures
        res@ == hint(*config, method@),
{
    let value = plain_of(method);
    let age = decimal_of(config.max_age_seconds);
    let mut out = cat(config.name.as_str(), "=");
    out.append(value.as_str());
    out.append("; Path=/; Max-Age=");
    out.append(age.as_str());
    out.append("; SameSite=Lax");
    out
}

/// The method the engine recorded against an account.
pub open spec fn recorded(user: AuthUser) -> Option<Seq<char>> {
    text_member(user.metadata_json@, "last_login_method"@)
}

/// The `Set-Cookie` value remembering how this person just signed in;
/// nothing where the engine recorded nothing.
pub fn remember(user: &AuthUser, config: &HintCookie) -> (res: Option<String>)
    ensures
        crate::text::opt_view(res) == match recorded(*user) {
            Some(method) => Some(hint(*config, method)),
            None => None,
        },
{
    match member_of(user.metadata_json.as_str(), "last_login_method") {
        Some(method) => Some(hint_for(config, method.as_str())),
        None => None,
    }
}

/// The hint a browser holds, if it is not empty.
pub open spec fn hinted(headers: Seq<Seq<char>>, name: Seq<char>) -> Option<Seq<char>> {
    match crate::auth_ui::cookies::cookie_in(headers, name) {
        Some(value) => if value.len() == 0 {
            None
        } else {
            Some(value)
        },
        None => None,
    }
}

/// How this browser signed in last, if it has before.
pub fn recall(headers: &Vec<String>, config: &HintCookie) -> (res: Option<String>)
    ensures
        crate::text::opt_view(res) == hinted(crate::text::views(headers@), config.name@),
{
    match cookie(headers, config.name.as_str()) {
        Some(value) => if value.as_str().unicode_len() == 0 {
            None
        } else {
            Some(value)
        },
        None => None,
    }
}

/// The words for a method, for the sentence "You last signed in **…**".
pub open spec fn words_for(method: Seq<char>) -> Seq<char> {
    if method == "email"@ {
        "with an email address and password"@
    } else if method == "username"@ {
        "with a username and password"@
    } else if method == "passkey"@ {
        "with a passkey"@
    } else if method == "magic-link"@ {
        "with an emailed link"@
    } else if method == "email-otp"@ {
        "with an emailed code"@
    } else if method == "phone-number"@ {
        "with a phone number"@
    } else if method == "siwe"@ {
        "with a wallet"@
    } else if method == "anonymous"@ {
        "as a guest"@
    } else if method == "github"@ {
        "with GitHub"@
    } else if method == "google"@ {
        "with Google"@
    } else if method == "tone3000"@ {
        "with TONE3000"@
    } else {
        "with "@ + method
    }
}

/// The method, in words. An unknown one is named as it is: a provider this
/// build has never heard of is still better named than not named.
pub fn describe(method: &str) -> (res: String)
    ensures
        res@ == words_for(method@),
{
    let words = if same(method, "email") {
        "with an email address and password"
    } else if same(method, "username") {
        "with a username and password"
    } else if same(method, "passkey") {
        "with a passkey"
    } else if same(method, "magic-link") {
        "with an emailed link"
    } else if same(method, "email-otp") {
        "with an emailed code"
    } else if same(method, "phone-number") {
        "with a phone number"
    } else if same(method, "siwe") {
        "with a wallet"
    } else if same(method, "anonymous") {
        "as a guest"
    } else if same(method, "github") {
        "with GitHub"
    } else if same(method, "google") {
        "with Google"
    } else if same(method, "tone3000") {
        "with TONE3000"
    } else {
        return cat("with ", method);
    };
    words.to_owned()
}

proof fn lemma_plain(method: Seq<char>)
    ensures
        forall|i: int|
            0 <= i < plain(method).len() ==> crate::auth_ui::multi_session::token_char(
                #[trigger] plain(method)[i],
            ),
    decreases method.len(),
{
    if method.len() > 0 {
        lemma_plain(method.drop_last());
        let before = plain(method.drop_last());
        let now = plain(method);
        assert forall|i: int| 0 <= i < now.len() implies crate::auth_ui::multi_session::token_char(
            #[trigger] now[i],
        ) by {
            if i < before.len() {
                assert(now[i] == before[i]);
            }
        }
    }
}

/// Whatever a provider is called, the value that goes into the cookie holds
/// only letters, digits, `-` and `_`: it cannot add a cookie attribute.
pub proof fn law_a_method_adds_no_attribute(method: Seq<char>)
    ensures
        forall|i: int|
            0 <= i < plain(method).len() ==> crate::auth_ui::multi_session::token_char(
                #[trigger] plain(method)[i],
            ),
        crate::text::free_of(plain(method), ';'),
        crate::text::free_of(plain(method), '='),
{
    lemma_plain(method);
    assert forall|i: int| 0 <= i < plain(method).len() implies plain(method)[i] != ';'
        && plain(method)[i] != '=' by {
        assert(crate::auth_ui::multi_session::token_char(plain(method)[i]));
    }
}

/// The method that was left in a browser is the one the sign-in page reads
/// there. One with nothing plain in it is no hint.
pub proof fn law_a_hint_is_read_back(name: Seq<char>, method: Seq<char>)
    requires
        crate::auth_ui::cookies::findable(name),
    ensures
        hinted(seq![name + "="@ + plain(method)], name) == if plain(method).len() == 0 {
            None
        } else {
            Some(plain(method))
        },
{
    let value = plain(method);
    law_a_method_adds_no_attribute(method);
    if value.len() > 0 {
        assert(crate::auth_ui::multi_session::token_char(value[value.len() - 1]));
    }
    crate::auth_ui::cookies::law_a_cookie_is_read_back(name, value);
}

/// Of a method the letters, the digits, `-` and `_` are kept, in their order, and
/// nothing else.
pub proof fn law_a_method_is_kept_by_its_plain_characters(a: Seq<char>, b: Seq<char>, c: char)
    ensures
        plain(a + b) == plain(a) + plain(b),
        'a' <= c <= 'z' || 'A' <= c <= 'Z' || '0' <= c <= '9' || c == '-' || c == '_' ==> plain(
            seq![c],
        ) == seq![c],
        !('a' <= c <= 'z' || 'A' <= c <= 'Z' || '0' <= c <= '9' || c == '-' || c == '_') ==> plain(
            seq![c],
        ) == Seq::<char>::empty(),
    decreases b.len(),
{
    reveal_with_fuel(plain, 2);
    assert(seq![c].drop_last() =~= Seq::<char>::empty());
    assert(Seq::<char>::empty().push(c) =~= seq![c]);
    if b.len() == 0 {
        assert(a + b =~= a);
        assert(plain(a) + plain(b) =~= plain(a));
    } else {
        law_a_method_is_kept_by_its_plain_characters(a, b.drop_last(), c);
        assert((a + b).drop_last() =~= a + b.drop_last());
        assert((a + b).last() == b.last());
        assert(plain(a + b) =~= plain(a) + plain(b));
    }
}

/// A hint is a cookie of the configured name that holds the method and goes with every
/// page of this site, for the configured time.
pub proof fn law_a_hint_goes_with_every_page(config: HintCookie, method: Seq<char>)
    ensures
        crate::text::begins(hint(config, method), config.name@ + seq!['='] + plain(method) + seq![';']),
        crate::text::ends(
            hint(config, method),
            "; Path=/; Max-Age="@ + crate::text::decimal(config.max_age_seconds as nat)
                + "; SameSite=Lax"@,
        ),
{
    let h = hint(config, method);
    reveal_strlit("=");
    reveal_strlit("; Path=/; Max-Age=");
    let head = config.name@ + seq!['='] + plain(method) + seq![';'];
    let tail = "; Path=/; Max-Age="@ + crate::text::decimal(config.max_age_seconds as nat)
        + "; SameSite=Lax"@;
    assert(h.subrange(0, head.len() as int) =~= head);
    assert(h.subrange(h.len() - tail.len(), h.len() as int) =~= tail);
}

/// What was hinted is what the cookie of that name holds, where it holds anything.
pub proof fn law_an_empty_hint_says_nothing(headers: Seq<Seq<char>>, name: Seq<char>)
    ensures
        hinted(headers, name) is Some <==> crate::auth_ui::cookies::cookie_in(headers, name) is Some
            && crate::auth_ui::cookies::cookie_in(headers, name)->0.len() > 0,
        hinted(headers, name) is Some ==> hinted(headers, name)
            == crate::auth_ui::cookies::cookie_in(headers, name),
{
}

/// A method without words of its own is told by its name.
pub proof fn law_an_unknown_method_is_told_by_its_name(method: Seq<char>)
    requires
        method != "email"@,
        method != "username"@,
        method != "passkey"@,
        method != "magic-link"@,
        method != "email-otp"@,
        method != "phone-number"@,
        method != "siwe"@,
        method != "anonymous"@,
        method != "github"@,
        method != "google"@,
        method != "tone3000"@,
    ensures
        words_for(method) == seq!['w', 'i', 't', 'h', ' '] + method,
{
    reveal_strlit("with ");
    assert("with "@ =~= seq!['w', 'i', 't', 'h', ' ']);
}

} // verus!
