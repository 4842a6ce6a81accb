//! Being signed in as more than one person at once.
//!
//! The tokens a browser holds live in a second cookie beside the session
//! one, newest first and bounded: cookies travel on every request, so an
//! unbounded roster would be a slow leak into the size of each of them.

use crate::auth_ui::cookies::cookie;
use crate::auth_ui::engine::CookiePolicy;
use crate::text::{
    cat, chars_of, copy, is_ascii_alphanumeric, join, same, signed_decimal_of, split, trim,
};
use vstd::prelude::*;

verus! {

/// How many accounts one browser may hold at once.
pub const MAX_ACCOUNTS: usize = 5;

/// The roster cookie's name, for a session cookie's.
pub open spec fn roster_name(session_cookie: Seq<char>) -> Seq<char> {
    session_cookie + ".accounts"@
}

/// The roster cookie's name, derived from the session cookie's.
pub fn roster_cookie_name(session_cookie: &str) -> (res: String)
    ensures
        res@ == roster_name(session_cookie@),
{
    cat(session_cookie, ".accounts")
}

/// A character of the base64url alphabet that tokens are written in.
pub open spec fn token_char(c: char) -> bool {
    crate::text::ascii_alphanumeric(c) || c == '-' || c == '_'
}

/// A text that can be a session token.
pub open spec fn token_shaped(s: Seq<char>) -> bool {
    s.len() > 0 && forall|i: int| 0 <= i < s.len() ==> token_char(#[trigger] s[i])
}

/// Does this look like a session token and nothing else?
pub fn is_token_shaped(token: &str) -> (res: bool)
    ensures
        res == token_shaped(token@),
{
    let cs = chars_of(token);
    if cs.len() == 0 {
        return false;
    }
    for i in 0..cs.len()
        invariant
            cs@ == token@,
            forall|j: int| 0 <= j < i ==> token_char(#[trigger] cs@[j]),
    {
        let c = cs[i];
        if !(is_ascii_alphanumeric(c) || c == '-' || c == '_') {
            assert(!token_char(token@[i as int]));
            return false;
        }
    }
    true
}

/// The token-shaped ones of some pieces, trimmed, in order.
pub open spec fn tokens_in(pieces: Seq<Seq<char>>) -> Seq<Seq<char>>
    decreases pieces.len(),
{
    if pieces.len() == 0 {
        Seq::empty()
    } else {
        let before = tokens_in(pieces.drop_last());
        let token = crate::text::trimmed(pieces.last());
        if token_shaped(token) {
            before.push(token)
        } else {
            before
        }
    }
}

/// The tokens a browser holds, according to its `Cookie` headers.
pub open spec fn held(headers: Seq<Seq<char>>, session_cookie: Seq<char>) -> Seq<Seq<char>> {
    match crate::auth_ui::cookies::cookie_in(headers, roster_name(session_cookie)) {
        Some(value) => tokens_in(crate::text::pieces(value, ',')),
        None => Seq::empty(),
    }
}

/// Every session token this browser is holding, newest first.
pub fn roster(headers: &Vec<String>, session_cookie: &str) -> (res: Vec<String>)
    ensures
        crate::text::views(res@) == held(crate::text::views(headers@), session_cookie@),
{
    let name = roster_cookie_name(session_cookie);
    let mut tokens: Vec<String> = Vec::new();
    if let Some(value) = cookie(headers, name.as_str()) {
        let pieces = split(value.as_str(), ',');
        let ghost all = crate::text::pieces(value@, ',');
        assert(all.take(0) =~= Seq::<Seq<char>>::empty());
        assert(crate::text::views(tokens@) =~= Seq::<Seq<char>>::empty());
        for i in 0..pieces.len()
            invariant
                crate::text::views(pieces@) == all,
                crate::text::views(tokens@) == tokens_in(all.take(i as int)),
        {
            proof {
                assert(all.take(i + 1).drop_last() =~= all.take(i as int));
                assert(all.take(i + 1).last() == all[i as int]);
                assert(all[i as int] == pieces@[i as int]@);
            }
            let token = trim(pieces[i].as_str());
            if is_token_shaped(token.as_str()) {
                let ghost before = tokens@;
                tokens.push(token);
                assert(crate::text::views(tokens@) =~= crate::text::views(before).push(token@));
            }
        }
        assert(all.take(all.len() as int) =~= all);
    }
    assert(crate::text::views(tokens@) =~= held(crate::text::views(headers@), session_cookie@));
    tokens
}

/// The tokens other than this one, in order.
pub open spec fn without(tokens: Seq<Seq<char>>, token: Seq<char>) -> Seq<Seq<char>>
    decreases tokens.len(),
{
    if tokens.len() == 0 {
        Seq::empty()
    } else {
        let before = without(tokens.drop_last(), token);
        if tokens.last() == token {
            before
        } else {
            before.push(tokens.last())
        }
    }
}

/// The tokens other than this one.
pub fn retain_others(tokens: &Vec<String>, token: &str) -> (res: Vec<String>)
    ensures
        crate::text::views(res@) == without(crate::text::views(tokens@), token@),
{
    let mut out: Vec<String> = Vec::new();
    let ghost all = crate::text::views(tokens@);
    assert(all.take(0) =~= Seq::<Seq<char>>::empty());
    assert(crate::text::views(out@) =~= Seq::<Seq<char>>::empty());
    for i in 0..tokens.len()
        invariant
            crate::text::views(tokens@) == all,
            crate::text::views(out@) == without(all.take(i as int), token@),
    {
        proof {
            assert(all.take(i + 1).drop_last() =~= all.take(i as int));
            assert(all.take(i + 1).last() == all[i as int]);
            assert(all[i as int] == tokens@[i as int]@);
        }
        if !same(tokens[i].as_str(), token) {
            let ghost before = out@;
            out.push(copy(&tokens[i]));
            assert(crate::text::views(out@) =~= crate::text::views(before).push(all[i as int]));
        }
    }
    assert(all.take(all.len() as int) =~= all);
    out
}

/// A roster with a token put first, and cut to the bound.
pub open spec fn remembered(tokens: Seq<Seq<char>>, token: Seq<char>) -> Seq<Seq<char>> {
    let all = seq![token] + without(tokens, token);
    if all.len() > MAX_ACCOUNTS {
        all.take(MAX_ACCOUNTS as int)
    } else {
        all
    }
}

/// A roster with a token put first, bounded: the oldest falls off the end.
pub fn put_first(tokens: &Vec<String>, token: &str) -> (res: Vec<String>)
    ensures
        crate::text::views(res@) == remembered(crate::text::views(tokens@), token@),
{
    let others = retain_others(tokens, token);
    let ghost rest = crate::text::views(others@);
    let mut out: Vec<String> = Vec::new();
    out.push(token.to_owned());
    let ghost all = seq![token@] + rest;
    let mut i: usize = 0;
    assert(crate::text::views(out@) =~= all.take(1));
    while i < others.len() && out.len() < MAX_ACCOUNTS
        invariant
            i <= others@.len(),
            rest == crate::text::views(others@),
            all == seq![token@] + rest,
            out@.len() == i + 1,
            out@.len() <= MAX_ACCOUNTS,
            crate::text::views(out@) == all.take(i + 1),
        decreases others@.len() - i,
    {
        let ghost before = out@;
        out.push(copy(&others[i]));
        assert(all[i + 1] == rest[i as int]);
        assert(crate::text::views(out@) =~= all.take(i + 2));
        i = i + 1;
    }
    assert(all.len() <= MAX_ACCOUNTS ==> all.take(i + 1) =~= all);
    out
}

/// How long the browser keeps the roster.
pub open spec fn roster_age(policy: CookiePolicy, tokens: Seq<Seq<char>>) -> Seq<char> {
    if tokens.len() == 0 {
        "Max-Age=0"@
    } else {
        match policy.max_age_seconds {
            Some(s) => "Max-Age="@ + crate::text::signed_decimal(s as int),
            None => "Max-Age=2592000"@,
        }
    }
}

/// The roster cookie's value: the tokens, comma-separated.
pub open spec fn roster_value(tokens: Seq<Seq<char>>) -> Seq<char> {
    crate::text::joined(tokens, ","@)
}

/// The `Set-Cookie` value that leaves these tokens in the browser.
pub open spec fn roster_cookie(policy: CookiePolicy, tokens: Seq<Seq<char>>) -> Seq<char> {
    roster_name(policy.name@) + "="@ + roster_value(tokens) + "; Path="@ + policy.path@ + "; "@
        + roster_age(policy, tokens) + "; SameSite=Lax; HttpOnly"@ + (if policy.secure {
        "; Secure"@
    } else {
        ""@
    })
}

/// The `Set-Cookie` value for a roster. An empty one is asked to go away.
pub fn set_roster(policy: &CookiePolicy, tokens: &Vec<String>) -> (res: String)
    ensures
        res@ == roster_cookie(*policy, crate::text::views(tokens@)),
{
    let value = join(tokens, ",");
    let age = if tokens.len() == 0 {
        "Max-Age=0".to_owned()
    } else {
        match policy.max_age_seconds {
            Some(s) => {
                let seconds = signed_decimal_of(s);
                cat("Max-Age=", seconds.as_str())
            },
            None => "Max-Age=2592000".to_owned(),
        }
    };
    let mut built = roster_cookie_name(policy.name.as_str());
    built.append("=");
    built.append(value.as_str());
    built.append("; Path=");
    built.append(policy.path.as_str());
    built.append("; ");
    built.append(age.as_str());
    built.append("; SameSite=Lax; HttpOnly");
    built.append(if policy.secure { "; Secure" } else { "" });
    built
}

/// Adds a token to the roster, keeping it first and bounded: the
/// `Set-Cookie` value to send.
pub fn remember(policy: &CookiePolicy, headers: &Vec<String>, token: &str) -> (res: String)
    ensures
        res@ == roster_cookie(
            *policy,
            remembered(held(crate::text::views(headers@), policy.name@), token@),
        ),
{
    let tokens = roster(headers, policy.name.as_str());
    let next = put_first(&tokens, token);
    set_roster(policy, &next)
}

/// Drops a token from the roster — a sign-out, or a revoked session.
pub fn forget(policy: &CookiePolicy, headers: &Vec<String>, token: &str) -> (res: String)
    ensures
        res@ == roster_cookie(
            *policy,
            without(held(crate::text::views(headers@), policy.name@), token@),
        ),
{
    let tokens = roster(headers, policy.name.as_str());
    let next = retain_others(&tokens, token);
    set_roster(policy, &next)
}

/// Forgets every held account.
pub fn clear(policy: &CookiePolicy) -> (res: String)
    ensures
        res@ == roster_cookie(*policy, Seq::empty()),
{
    let none: Vec<String> = Vec::new();
    assert(crate::text::views(none@) =~= Seq::<Seq<char>>::empty());
    set_roster(policy, &none)
}

// ---------------------------------------------------------------------------
// Laws
// ---------------------------------------------------------------------------

proof fn lemma_without(tokens: Seq<Seq<char>>, token: Seq<char>)
    ensures
        !without(tokens, token).contains(token),
        forall|t: Seq<char>|
            t != token ==> (#[trigger] without(tokens, token).contains(t) <==> tokens.contains(t)),
        without(tokens, token).len() <= tokens.len(),
        tokens.no_duplicates() ==> without(tokens, token).no_duplicates(),
    decreases tokens.len(),
{
    if tokens.len() > 0 {
        let front = tokens.drop_last();
        lemma_without(front, token);
        let before = without(front, token);
        let last = tokens.last();
        let now = without(tokens, token);
        assert forall|t: Seq<char>| t != token implies (#[trigger] now.contains(t)
            <==> tokens.contains(t)) by {
            if tokens.contains(t) {
                let i = choose|i: int| 0 <= i < tokens.len() && tokens[i] == t;
                if i < front.len() {
                    assert(front[i] == t);
                    assert(front.contains(t));
                    assert(before.contains(t));
                    let k = choose|k: int| 0 <= k < before.len() && before[k] == t;
                    assert(now[k] == t);
                } else {
                    assert(now.last() == t);
                    assert(now[now.len() - 1] == t);
                }
            }
            if now.contains(t) {
                let k = choose|k: int| 0 <= k < now.len() && now[k] == t;
                if k < before.len() {
                    assert(before[k] == t);
                    assert(before.contains(t));
                    assert(front.contains(t));
                    let i = choose|i: int| 0 <= i < front.len() && front[i] == t;
                    assert(tokens[i] == t);
                } else {
                    assert(tokens[tokens.len() - 1] == t);
                }
            }
        }
        assert(!now.contains(token)) by {
            if now.contains(token) {
                let k = choose|k: int| 0 <= k < now.len() && now[k] == token;
                if k < before.len() {
                    assert(before[k] == token);
                    assert(before.contains(token));
                }
            }
        }
        if tokens.no_duplicates() {
            assert(front.no_duplicates());
            if last != token {
                assert(!front.contains(last)) by {
                    if front.contains(last) {
                        let i = choose|i: int| 0 <= i < front.len() && front[i] == last;
                        assert(tokens[i] == tokens[tokens.len() - 1]);
                    }
                }
                assert(!before.contains(last));
                assert(now.no_duplicates());
            }
        }
    }
}

/// A token that is remembered stands first, once, in a roster that stays
/// within the bound; nothing else comes in, and nothing is held twice that
/// was not before.
pub proof fn law_a_remembered_token_stands_first(tokens: Seq<Seq<char>>, token: Seq<char>)
    ensures
        0 < remembered(tokens, token).len() <= MAX_ACCOUNTS,
        remembered(tokens, token)[0] == token,
        forall|i: int| 0 < i < remembered(tokens, token).len() ==> remembered(tokens, token)[i]
            != token && tokens.contains(#[trigger] remembered(tokens, token)[i]),
        tokens.no_duplicates() ==> remembered(tokens, token).no_duplicates(),
{
    lemma_without(tokens, token);
    let rest = without(tokens, token);
    let now = remembered(tokens, token);
    assert forall|i: int| 0 < i < now.len() implies now[i] != token && tokens.contains(
        #[trigger] now[i],
    ) by {
        assert(now[i] == rest[i - 1]);
        assert(rest.contains(rest[i - 1]));
    }
    if tokens.no_duplicates() {
        assert forall|i: int, j: int| 0 <= i < now.len() && 0 <= j < now.len() && i != j implies now[i]
            != now[j] by {
            if i > 0 && j > 0 {
                assert(now[i] == rest[i - 1]);
                assert(now[j] == rest[j - 1]);
            }
        }
    }
}

/// Forgetting a token removes that one and only that one.
pub proof fn law_forgetting_removes_only_that_one(tokens: Seq<Seq<char>>, token: Seq<char>)
    ensures
        !without(tokens, token).contains(token),
        forall|t: Seq<char>|
            t != token ==> (#[trigger] without(tokens, token).contains(t) <==> tokens.contains(t)),
        !tokens.contains(token) ==> without(tokens, token) == tokens,
    decreases tokens.len(),
{
    lemma_without(tokens, token);
    if tokens.len() > 0 && !tokens.contains(token) {
        let front = tokens.drop_last();
        assert(!front.contains(token)) by {
            if front.contains(token) {
                let i = choose|i: int| 0 <= i < front.len() && front[i] == token;
                assert(tokens[i] == token);
            }
        }
        law_forgetting_removes_only_that_one(front, token);
        assert(tokens[tokens.len() - 1] != token);
        assert(front.push(tokens.last()) =~= tokens);
    } else if tokens.len() == 0 {
        assert(without(tokens, token) =~= tokens);
    }
}

/// Nothing that is not token-shaped comes out of a roster.
pub proof fn law_only_tokens_are_held(headers: Seq<Seq<char>>, session_cookie: Seq<char>)
    ensures
        forall|i: int|
            0 <= i < held(headers, session_cookie).len() ==> token_shaped(
                #[trigger] held(headers, session_cookie)[i],
            ),
{
    match crate::auth_ui::cookies::cookie_in(headers, roster_name(session_cookie)) {
        Some(value) => {
            lemma_tokens_in(crate::text::pieces(value, ','));
        },
        None => {},
    }
}

proof fn lemma_tokens_in(pieces: Seq<Seq<char>>)
    ensures
        forall|i: int|
            0 <= i < tokens_in(pieces).len() ==> token_shaped(#[trigger] tokens_in(pieces)[i]),
    decreases pieces.len(),
{
    if pieces.len() > 0 {
        let before = tokens_in(pieces.drop_last());
        lemma_tokens_in(pieces.drop_last());
        let now = tokens_in(pieces);
        assert forall|i: int| 0 <= i < now.len() implies token_shaped(#[trigger] now[i]) by {
            if i < before.len() {
                assert(now[i] == before[i]);
            }
        }
    }
}

proof fn lemma_tokens_of_tokens(tokens: Seq<Seq<char>>)
    requires
        forall|i: int| 0 <= i < tokens.len() ==> token_shaped(#[trigger] tokens[i]),
    ensures
        tokens_in(tokens) == tokens,
    decreases tokens.len(),
{
    if tokens.len() > 0 {
        let front = tokens.drop_last();
        assert forall|i: int| 0 <= i < front.len() implies token_shaped(#[trigger] front[i]) by {
            assert(front[i] == tokens[i]);
        }
        lemma_tokens_of_tokens(front);
        let last = tokens.last();
        assert(last == tokens[tokens.len() - 1]);
        assert(token_char(last[0]) && token_char(last[last.len() - 1]));
        crate::text::law_trimming_is_final(last);
        assert(front.push(last) =~= tokens);
    } else {
        assert(tokens_in(tokens) =~= tokens);
    }
}

proof fn lemma_value_chars(tokens: Seq<Seq<char>>)
    requires
        forall|i: int| 0 <= i < tokens.len() ==> token_shaped(#[trigger] tokens[i]),
    ensures
        forall|i: int|
            0 <= i < roster_value(tokens).len() ==> token_char(#[trigger] roster_value(tokens)[i])
                || roster_value(tokens)[i] == ',',
        tokens.len() > 0 ==> roster_value(tokens).len() > 0 && token_char(
            roster_value(tokens).last(),
        ),
    decreases tokens.len(),
{
    reveal_strlit(",");
    if tokens.len() > 0 {
        let front = tokens.drop_last();
        assert forall|i: int| 0 <= i < front.len() implies token_shaped(#[trigger] front[i]) by {
            assert(front[i] == tokens[i]);
        }
        lemma_value_chars(front);
        let last = tokens.last();
        assert(last == tokens[tokens.len() - 1]);
        assert(token_char(last[last.len() - 1]));
    }
}

/// What is written into the roster cookie is read back out of it, whatever
/// the session cookie is called: its name holds no `;` or `=` and does not
/// begin with white space.
pub proof fn law_a_written_roster_is_read_back(
    session_cookie: Seq<char>,
    tokens: Seq<Seq<char>>,
)
    requires
        forall|i: int| 0 <= i < tokens.len() ==> token_shaped(#[trigger] tokens[i]),
        crate::text::free_of(session_cookie, ';'),
        crate::text::free_of(session_cookie, '='),
        session_cookie.len() > 0 ==> !crate::text::white_space(session_cookie[0]),
    ensures
        held(
            seq![roster_name(session_cookie) + "="@ + roster_value(tokens)],
            session_cookie,
        ) == tokens,
{
    reveal_strlit(".accounts");
    reveal_strlit(",");
    let name = roster_name(session_cookie);
    let value = roster_value(tokens);
    lemma_value_chars(tokens);
    assert forall|i: int| 0 <= i < name.len() implies name[i] != ';' && name[i] != '=' by {
        if i < session_cookie.len() {
            assert(name[i] == session_cookie[i]);
        }
    }
    assert forall|i: int| 0 <= i < value.len() implies value[i] != ';' by {
        assert(token_char(value[i]) || value[i] == ',');
    }
    if tokens.len() == 0 {
        assert(value =~= Seq::<char>::empty());
    }
    crate::auth_ui::cookies::law_a_cookie_is_read_back(name, value);
    if tokens.len() > 0 {
        assert forall|i: int| 0 <= i < tokens.len() implies crate::text::free_of(
            #[trigger] tokens[i],
            ',',
        ) by {
            let t = tokens[i];
            assert forall|j: int| 0 <= j < t.len() implies t[j] != ',' by {
                assert(token_char(t[j]));
            }
        }
        assert(","@ =~= seq![',']);
        crate::text::law_split_undoes_join(tokens, ',');
        lemma_tokens_of_tokens(tokens);
    } else {
        assert(value =~= Seq::<char>::empty());
        let empty = Seq::<char>::empty();
        let only = seq![empty];
        assert(crate::text::pieces(value, ',') =~= only);
        assert(only.drop_last() =~= Seq::<Seq<char>>::empty());
        assert(only.last() == empty);
        crate::text::law_trimming_is_final(empty);
        assert(tokens_in(only.drop_last()) =~= Seq::<Seq<char>>::empty());
        assert(tokens_in(only) =~= tokens);
    }
}

/// Forgetting a token keeps the others in their order.
pub proof fn law_forgetting_keeps_the_order(
    a: Seq<Seq<char>>,
    b: Seq<Seq<char>>,
    token: Seq<char>,
)
    ensures
        without(a + b, token) == without(a, token) + without(b, token),
        without(seq![token], token) == Seq::<Seq<char>>::empty(),
    decreases b.len(),
{
    reveal_with_fuel(without, 2);
    assert(seq![token].drop_last() =~= Seq::<Seq<char>>::empty());
    if b.len() == 0 {
        assert(a + b =~= a);
        assert(without(a, token) + without(b, token) =~= without(a, token));
    } else {
        law_forgetting_keeps_the_order(a, b.drop_last(), token);
        assert((a + b).drop_last() =~= a + b.drop_last());
        assert((a + b).last() == b.last());
        assert(without(a + b, token) =~= without(a, token) + without(b, token));
    }
}

/// Signing in again with an account moves it to the front and leaves the others where
/// they stood, and of more than five the last ones go.
pub proof fn law_the_last_of_more_than_five_go(
    before: Seq<Seq<char>>,
    behind: Seq<Seq<char>>,
    token: Seq<char>,
)
    requires
        !before.contains(token),
        !behind.contains(token),
    ensures
        remembered(before + seq![token] + behind, token) == (seq![token] + before + behind).take(
            if before.len() + behind.len() < 4 {
                1 + before.len() as int + behind.len() as int
            } else {
                5
            },
        ),
        remembered(before, token) == (seq![token] + before).take(
            if before.len() < 4 {
                1 + before.len() as int
            } else {
                5
            },
        ),
{
    law_forgetting_removes_only_that_one(before, token);
    law_forgetting_removes_only_that_one(behind, token);
    law_forgetting_keeps_the_order(before, seq![token], token);
    law_forgetting_keeps_the_order(before + seq![token], behind, token);
    assert(before + Seq::<Seq<char>>::empty() =~= before);
    let whole = before + seq![token] + behind;
    assert(without(whole, token) =~= before + behind);
    assert(seq![token] + (before + behind) =~= seq![token] + before + behind);
    let n = before.len() + behind.len();
    if n < 4 {
        assert((seq![token] + before + behind).take(1 + n as int) =~= seq![token] + before + behind);
    }
    if before.len() < 4 {
        assert((seq![token] + before).take(1 + before.len() as int) =~= seq![token] + before);
    }
}

/// What a roster holds is read entry by entry; one that is no token is passed over.
pub proof fn law_entries_are_read_one_by_one(a: Seq<Seq<char>>, b: Seq<Seq<char>>, entry: Seq<char>)
    ensures
        tokens_in(a + b) == tokens_in(a) + tokens_in(b),
        token_shaped(crate::text::trimmed(entry)) ==> tokens_in(seq![entry]) == seq![
            crate::text::trimmed(entry),
        ],
        !token_shaped(crate::text::trimmed(entry)) ==> tokens_in(seq![entry]) == Seq::<
            Seq<char>,
        >::empty(),
    decreases b.len(),
{
    reveal_with_fuel(tokens_in, 2);
    assert(seq![entry].drop_last() =~= Seq::<Seq<char>>::empty());
    assert(Seq::<Seq<char>>::empty().push(crate::text::trimmed(entry)) =~= seq![
        crate::text::trimmed(entry),
    ]);
    if b.len() == 0 {
        assert(a + b =~= a);
        assert(tokens_in(a) + tokens_in(b) =~= tokens_in(a));
    } else {
        law_entries_are_read_one_by_one(a, b.drop_last(), entry);
        assert((a + b).drop_last() =~= a + b.drop_last());
        assert((a + b).last() == b.last());
        assert(tokens_in(a + b) =~= tokens_in(a) + tokens_in(b));
    }
}

/// A token is made of letters, digits, `-` and `_`, and of one at least.
pub proof fn law_a_token_is_made_of_plain_characters(a: Seq<char>, c: char)
    ensures
        !token_shaped(Seq::<char>::empty()),
        token_shaped(seq![c]) <==> 'a' <= c <= 'z' || 'A' <= c <= 'Z' || '0' <= c <= '9' || c == '-'
            || c == '_',
        a.len() > 0 ==> (token_shaped(a.push(c)) <==> token_shaped(a) && token_shaped(seq![c])),
{
    assert(seq![c][0] == c);
    if token_shaped(a.push(c)) {
        assert(a.push(c)[a.len() as int] == c);
        assert forall|i: int| 0 <= i < a.len() implies token_char(#[trigger] a[i]) by {
            assert(a.push(c)[i] == a[i]);
        }
    }
}

/// The roster's cookie stands beside the session's, names its tokens in order, lasts for
/// the configured time or thirty days, goes away when it is empty, and is never shown
/// to a script; it is sent over a secure connection alone exactly where the policy asks
/// for that.
pub proof fn law_a_roster_is_kept_from_scripts(policy: CookiePolicy, tokens: Seq<Seq<char>>)
    ensures
        crate::text::begins(
            roster_cookie(policy, tokens),
            policy.name@ + ".accounts="@ + crate::text::joined(tokens, ","@) + "; Path="@
                + policy.path@ + "; Max-Age="@ + (if tokens.len() == 0 {
                "0"@
            } else if policy.max_age_seconds is Some {
                crate::text::signed_decimal(policy.max_age_seconds->0 as int)
            } else {
                "2592000"@
            }) + ";"@,
        ),
        policy.secure ==> crate::text::ends(
            roster_cookie(policy, tokens),
            "; SameSite=Lax; HttpOnly; Secure"@,
        ),
        !policy.secure ==> crate::text::ends(
            roster_cookie(policy, tokens),
            "; SameSite=Lax; HttpOnly"@,
        ),
{
    let c = roster_cookie(policy, tokens);
    let age = if tokens.len() == 0 {
        "0"@
    } else if policy.max_age_seconds is Some {
        crate::text::signed_decimal(policy.max_age_seconds->0 as int)
    } else {
        "2592000"@
    };
    reveal_strlit("0");
    reveal_strlit("2592000");
    reveal_strlit("Max-Age=0");
    reveal_strlit("Max-Age=");
    reveal_strlit("Max-Age=2592000");
    assert(roster_age(policy, tokens) =~= "Max-Age="@ + age);
    reveal_strlit(".accounts=");
    reveal_strlit(".accounts");
    reveal_strlit("=");
    reveal_strlit("; ");
    reveal_strlit(";");
    reveal_strlit("; Path=");
    reveal_strlit("; Max-Age=");
    assert(".accounts="@ =~= ".accounts"@ + "="@);
    assert("; Max-Age="@ =~= "; "@ + "Max-Age="@);
    reveal_strlit("; SameSite=Lax; HttpOnly");
    reveal_strlit("; SameSite=Lax; HttpOnly; Secure");
    reveal_strlit("; Secure");
    reveal_strlit("");
    assert("; SameSite=Lax; HttpOnly; Secure"@ =~= "; SameSite=Lax; HttpOnly"@ + "; Secure"@);
    assert("; SameSite=Lax; HttpOnly"@ =~= ";"@ + "; SameSite=Lax; HttpOnly"@.skip(1));
    let head = policy.name@ + ".accounts="@ + crate::text::joined(tokens, ","@) + "; Path="@
        + policy.path@ + "; Max-Age="@ + age + ";"@;
    let last = if policy.secure {
        "; Secure"@
    } else {
        ""@
    };
    let rest = "; SameSite=Lax; HttpOnly"@.skip(1) + last;
    assert(c =~= head + rest);
    assert(c.subrange(0, head.len() as int) =~= head);
    let tail = "; SameSite=Lax; HttpOnly"@ + last;
    assert(tail =~= if policy.secure {
        "; SameSite=Lax; HttpOnly; Secure"@
    } else {
        "; SameSite=Lax; HttpOnly"@
    });
    assert(c.subrange(c.len() - tail.len(), c.len() as int) =~= tail);
}

} // verus!
