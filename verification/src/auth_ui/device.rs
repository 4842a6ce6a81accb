//! `/auth/device` — approving a sign-in that started somewhere else.
//!
//! Enter a code, see who is asking and for what, then approve or refuse:
//! typing a code is not consent.

use crate::auth::percent::encode_component;
use crate::auth_ui::page::{sign_in_first, Begin};
use crate::text::{
    cat, chars_of, copy_opt, is_ascii_alphanumeric, split_whitespace, to_ascii_upper,
    trim,
};
use vstd::prelude::*;

verus! {

/// The page's query.
#[derive(Clone, Debug, Default, PartialEq, Eq)]
pub struct DeviceQuery {
    pub user_code: Option<String>,
    pub error: Option<String>,
}

/// What the engine knows of a code.
#[derive(Clone, Debug, PartialEq, Eq)]
pub struct DeviceVerification {
    pub user_code: String,
    pub client_id: String,
    pub scope: Option<String>,
}

/// The approval that is asked of the engine.
#[derive(Clone, Debug, PartialEq, Eq)]
pub struct ApproveDeviceCode {
    pub session_token: String,
    pub user_code: String,
}

/// What is shown.
#[derive(Clone, Debug, PartialEq, Eq)]
pub enum DevicePage {
    /// "Enter the code shown on the other device."
    Ask { error: Option<String> },
    /// Who is asking, and for what. `access` is missing where no scope was
    /// requested.
    Confirm { user_code: String, client_id: String, access: Option<Vec<String>> },
    Connected,
    Refused,
}

/// A code as it was issued: its letters and digits, in upper case.
pub open spec fn normalized(code: Seq<char>) -> Seq<char>
    decreases code.len(),
{
    if code.len() == 0 {
        Seq::empty()
    } else {
        let before = normalized(code.drop_last());
        if crate::text::ascii_alphanumeric(code.last()) {
            before.push(crate::text::raised(code.last()))
        } else {
            before
        }
    }
}

/// A code as the person typed it, reduced to the form it was issued in:
/// spaces, dashes and lower case are all expected.
pub fn normalize(user_code: &str) -> (res: String)
    ensures
        res@ == normalized(user_code@),
{
    let cs = chars_of(user_code);
    let mut out = String::new();
    assert(out@ =~= normalized(cs@.take(0)));
    for i in 0..cs.len()
        invariant
            cs@ == user_code@,
            out@ == normalized(cs@.take(i as int)),
    {
        proof {
            assert(cs@.take(i + 1).drop_last() =~= cs@.take(i as int));
        }
        if is_ascii_alphanumeric(cs[i]) {
            out.push(to_ascii_upper(cs[i]));
        }
    }
    assert(cs@.take(cs@.len() as int) =~= cs@);
    out
}

/// The page with a code in its URL.
pub open spec fn with_code(code: Seq<char>) -> Seq<char> {
    "/auth/device?user_code="@ + crate::auth_ui::page::as_value(code)
}

/// Where to come back to after signing in, with the code still in hand.
pub open spec fn here(user_code: Option<Seq<char>>) -> Seq<char> {
    match user_code {
        Some(code) => with_code(code),
        None => "/auth/device"@,
    }
}

fn at_code(code: &str) -> (res: String)
    ensures
        res@ == with_code(code@),
{
    let encoded = encode_component(code);
    cat("/auth/device?user_code=", encoded.as_str())
}

/// Where to come back to after signing in.
pub fn return_here(user_code: &Option<String>) -> (res: String)
    ensures
        res@ == here(crate::text::opt_view(*user_code)),
{
    match user_code {
        Some(code) => at_code(code.as_str()),
        None => "/auth/device".to_owned(),
    }
}

/// `GET /auth/device`: signing in first, or the session to check.
pub fn page(token: Option<String>, q: &DeviceQuery) -> (res: Begin<String>)
    ensures
        match token {
            Some(t) => res matches Begin::Ask(session) && session@ == t@,
            None => crate::auth_ui::page::sent_to(
                res,
                crate::auth_ui::page::to_sign_in(here(crate::text::opt_view(q.user_code))),
            ),
        },
{
    match token {
        Some(t) => Begin::Ask(t),
        None => {
            let back = return_here(&q.user_code);
            Begin::Go(sign_in_first(back.as_str()))
        },
    }
}

/// What happens once the session was checked.
#[derive(Clone, Debug, PartialEq, Eq)]
pub enum Checked {
    SignIn(String),
    Show(DevicePage),
    /// The code to look up.
    Verify(String),
}

/// The code in the URL, where there is one.
pub open spec fn typed(q: DeviceQuery) -> Option<Seq<char>> {
    match q.user_code {
        Some(code) => if crate::text::trimmed(code@).len() == 0 {
            None
        } else {
            Some(crate::text::trimmed(code@))
        },
        None => None,
    }
}

/// With a session that holds, a code in the URL goes straight to the
/// confirmation; without one the page asks. Without a session, signing in.
pub fn page_checked(signed_in: bool, q: &DeviceQuery) -> (res: Checked)
    ensures
        if !signed_in {
            res matches Checked::SignIn(to) && to@ == crate::auth_ui::page::to_sign_in(
                here(crate::text::opt_view(q.user_code)),
            )
        } else {
            match typed(*q) {
                Some(code) => res matches Checked::Verify(c) && c@ == normalized(code),
                None => res matches Checked::Show(DevicePage::Ask { error })
                    && crate::text::opt_view(error) == crate::text::opt_view(q.error),
            }
        },
{
    if !signed_in {
        let back = return_here(&q.user_code);
        return Checked::SignIn(sign_in_first(back.as_str()));
    }
    if let Some(code) = &q.user_code {
        let code = trim(code.as_str());
        if code.as_str().unicode_len() > 0 {
            return Checked::Verify(normalize(code.as_str()));
        }
    }
    Checked::Show(DevicePage::Ask { error: copy_opt(&q.error) })
}

/// The scopes listed on the confirmation.
pub open spec fn access_of(scope: Option<String>) -> Option<Seq<Seq<char>>> {
    match scope {
        Some(s) => if s@.len() == 0 {
            None
        } else {
            Some(crate::text::words(s@))
        },
        None => None,
    }
}

/// A page that asks for a code, with this error.
pub open spec fn asks_again(page: DevicePage, message: Seq<char>) -> bool {
    page matches DevicePage::Ask { error: Some(e) } && e@ == message
}

/// What the engine's answer about a code shows.
pub fn page_verified(outcome: Result<DeviceVerification, String>) -> (res: DevicePage)
    ensures
        match outcome {
            Ok(found) => res matches DevicePage::Confirm { user_code, client_id, access }
                && user_code@ == found.user_code@ && client_id@ == found.client_id@ && (
            match access {
                Some(list) => access_of(found.scope) == Some(crate::text::views(list@)),
                None => access_of(found.scope) is None,
            }),
            Err(message) => asks_again(res, message@),
        },
{
    match outcome {
        Ok(found) => {
            let access = match &found.scope {
                Some(scope) => if scope.as_str().unicode_len() == 0 {
                    None
                } else {
                    Some(split_whitespace(scope.as_str()))
                },
                None => None,
            };
            DevicePage::Confirm { user_code: found.user_code, client_id: found.client_id, access }
        },
        Err(message) => DevicePage::Ask { error: Some(message) },
    }
}

/// `POST /auth/device` — look a typed code up: straight back through the
/// GET, so that a refresh does not post again.
pub fn look_up(signed_in: bool, user_code: &str) -> (res: String)
    ensures
        res@ == if signed_in {
            with_code(normalized(user_code@))
        } else {
            crate::auth_ui::page::to_sign_in(with_code(normalized(user_code@)))
        },
{
    let code = normalize(user_code);
    let at = at_code(code.as_str());
    if signed_in {
        at
    } else {
        sign_in_first(at.as_str())
    }
}

/// `POST /auth/device/approve`
pub fn approve(token: Option<String>, user_code: &str) -> (res: Begin<ApproveDeviceCode>)
    ensures
        match token {
            Some(t) => res matches Begin::Ask(request) && request.session_token@ == t@
                && request.user_code@ == normalized(user_code@),
            None => crate::auth_ui::page::sent_to(
                res,
                crate::auth_ui::page::to_sign_in(with_code(normalized(user_code@))),
            ),
        },
{
    let code = normalize(user_code);
    match token {
        Some(session_token) => Begin::Ask(ApproveDeviceCode { session_token, user_code: code }),
        None => {
            let at = at_code(code.as_str());
            Begin::Go(sign_in_first(at.as_str()))
        },
    }
}

/// What the engine's answer to an approval shows.
pub fn approved(outcome: Result<(), String>) -> (res: DevicePage)
    ensures
        match outcome {
            Ok(_) => res == DevicePage::Connected,
            Err(message) => asks_again(res, message@),
        },
{
    match outcome {
        Ok(_) => DevicePage::Connected,
        Err(message) => DevicePage::Ask { error: Some(message) },
    }
}

/// `POST /auth/device/deny` — the code to refuse. No session is needed.
pub fn deny(user_code: &str) -> (res: String)
    ensures
        res@ == normalized(user_code@),
{
    normalize(user_code)
}

/// Whatever the engine answers to a refusal, the page says it was refused.
pub fn denied(outcome: Result<(), String>) -> (res: DevicePage)
    ensures
        res == DevicePage::Refused,
{
    DevicePage::Refused
}

/// A code in the form it was issued in stays as it is: it holds only
/// letters and digits, and no small letters.
pub proof fn law_normalizing_is_final(code: Seq<char>)
    ensures
        forall|i: int|
            0 <= i < normalized(code).len() ==> crate::text::ascii_alphanumeric(
                #[trigger] normalized(code)[i],
            ) && !crate::text::ascii_lower(normalized(code)[i]),
        normalized(normalized(code)) == normalized(code),
    decreases code.len(),
{
    if code.len() > 0 {
        let front = code.drop_last();
        law_normalizing_is_final(front);
        let before = normalized(front);
        let now = normalized(code);
        if crate::text::ascii_alphanumeric(code.last()) {
            crate::text::lemma_char_range(code.last());
            assert(now.drop_last() =~= before);
            assert forall|i: int| 0 <= i < now.len() implies crate::text::ascii_alphanumeric(
                #[trigger] now[i],
            ) && !crate::text::ascii_lower(now[i]) by {
                if i < before.len() {
                    assert(now[i] == before[i]);
                }
            }
            assert(now.last() == now[now.len() - 1]);
            assert(before.push(now.last()) =~= now);
        }
    } else {
        assert(normalized(normalized(code)) =~= normalized(code));
    }
}

/// How a code is typed does not matter: one with the same letters and digits
/// in the same order is the same code.
pub proof fn law_separators_do_not_matter(a: Seq<char>, c: char, b: Seq<char>)
    requires
        !crate::text::ascii_alphanumeric(c),
    ensures
        normalized(a + seq![c] + b) == normalized(a + b),
    decreases b.len(),
{
    let with = a + seq![c] + b;
    let without = a + b;
    if b.len() == 0 {
        assert(with.drop_last() =~= a);
        assert(without =~= a);
    } else {
        law_separators_do_not_matter(a, c, b.drop_last());
        assert(with.drop_last() =~= a + seq![c] + b.drop_last());
        assert(without.drop_last() =~= a + b.drop_last());
        assert(with.last() == b.last() && without.last() == b.last());
    }
}

/// A code is read character by character: a digit or a capital letter stands for
/// itself, a small letter for its capital, and anything else for nothing.
pub proof fn law_a_code_is_read_by_its_characters(a: Seq<char>, b: Seq<char>, c: char)
    ensures
        normalized(a + b) == normalized(a) + normalized(b),
        '0' <= c <= '9' || 'A' <= c <= 'Z' ==> normalized(seq![c]) == seq![c],
        'a' <= c <= 'z' ==> normalized(seq![c]) == seq![(c as int - 32) as char],
        !('0' <= c <= '9' || 'A' <= c <= 'Z' || 'a' <= c <= 'z') ==> normalized(seq![c]) == Seq::<
            char,
        >::empty(),
    decreases b.len(),
{
    reveal_with_fuel(normalized, 2);
    assert(seq![c].drop_last() =~= Seq::<char>::empty());
    assert(normalized(seq![c]) =~= if crate::text::ascii_alphanumeric(c) {
        seq![crate::text::raised(c)]
    } else {
        Seq::<char>::empty()
    });
    if b.len() == 0 {
        assert(a + b =~= a);
        assert(normalized(a) + normalized(b) =~= normalized(a));
    } else {
        law_a_code_is_read_by_its_characters(a, b.drop_last(), c);
        assert((a + b).drop_last() =~= a + b.drop_last());
        assert((a + b).last() == b.last());
        assert(normalized(a + b) =~= normalized(a) + normalized(b));
    }
}

/// Coming back brings the code along.
pub proof fn law_coming_back_brings_the_code(code: Seq<char>)
    ensures
        crate::auth_ui::page::carries(here(Some(code)), "/auth/device"@, "user_code"@, code),
        here(None) == "/auth/device"@,
{
    crate::auth_ui::page::law_a_value_is_read_back(code);
    reveal_strlit("/auth/device");
    reveal_strlit("user_code");
    reveal_strlit("/auth/device?user_code=");
    assert(!"/auth/device"@.contains('?'));
    assert(here(Some(code)) =~= "/auth/device"@ + seq!['?'] + "user_code"@ + seq!['=']
        + crate::auth_ui::page::as_value(code));
}

/// A code counts as typed without the white space around it, and not at all where
/// there is nothing else.
pub proof fn law_a_blank_code_was_not_typed(q: DeviceQuery, a: Seq<char>, code: Seq<char>, b: Seq<char>)
    requires
        crate::text::blank(a),
        crate::text::blank(b),
        crate::text::trim_free(code),
    ensures
        q.user_code is Some && q.user_code->0@ == a + code + b ==> typed(q) == if code.len() > 0 {
            Some(code)
        } else {
            None
        },
        q.user_code is None ==> typed(q) is None,
{
    crate::text::law_trimming_takes_the_white_space_around(a, code, b);
}

/// The access asked for is listed scope by scope, in the order of the request.
pub proof fn law_access_is_listed_scope_by_scope(scope: String, v: Seq<Seq<char>>)
    requires
        v.len() > 0,
        forall|i: int| 0 <= i < v.len() ==> (#[trigger] v[i]).len() > 0 && !crate::text::has_white_space(v[i]),
        scope@ == crate::text::joined(v, seq![' ']),
    ensures
        access_of(Some(scope)) == Some(v),
        access_of(None) is None,
{
    lemma_words_of_joined(v);
    assert(crate::text::joined(v, seq![' ']).len() > 0) by {
        if scope@.len() == 0 {
            assert(crate::text::words(scope@).len() == 0);
        }
    }
}

proof fn lemma_words_of_joined(v: Seq<Seq<char>>)
    requires
        forall|i: int| 0 <= i < v.len() ==> (#[trigger] v[i]).len() > 0 && !crate::text::has_white_space(v[i]),
    ensures
        crate::text::words(crate::text::joined(v, seq![' '])) == v,
    decreases v.len(),
{
    reveal_with_fuel(crate::text::joined, 2);
    if v.len() == 0 {
        assert(crate::text::words(crate::text::joined(v, seq![' '])) =~= v);
    } else if v.len() == 1 {
        crate::text::law_a_word_is_one_word(v[0]);
        assert(crate::text::joined(v, seq![' ']) =~= v[0]);
        assert(seq![v[0]] =~= v);
    } else {
        let front = v.drop_last();
        assert forall|i: int| 0 <= i < front.len() implies (#[trigger] front[i]).len() > 0
            && !crate::text::has_white_space(front[i]) by {
            assert(front[i] == v[i]);
        }
        lemma_words_of_joined(front);
        assert(v[v.len() - 1].len() > 0);
        crate::text::law_a_word_is_one_word(v.last());
        assert(crate::text::white_space(' '));
        crate::text::law_words_add_up(crate::text::joined(front, seq![' ']), ' ', v.last());
        assert(crate::text::joined(v, seq![' ']) =~= crate::text::joined(front, seq![' ']) + seq![
            ' ',
        ] + v.last());
        assert(front + seq![v.last()] =~= v);
    }
}

} // verus!
