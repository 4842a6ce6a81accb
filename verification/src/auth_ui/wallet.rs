//! Signing in with an Ethereum wallet.
//!
//! A wallet signs whatever it is handed, so the server composes the message:
//! the domain line is what stops a signature from being used elsewhere.

use crate::auth_ui::engine::{CookiePolicy, SessionBundle};
use crate::auth_ui::last_login::HintCookie;
use crate::auth_ui::login::{client_ip, path_of, signed_in};
use crate::auth_ui::page::Reply;
use crate::text::{cat3, copy};
use vstd::prelude::*;

verus! {

/// The message for a nonce.
pub open spec fn message_for(domain: Seq<char>, base: Seq<char>, nonce: Seq<char>) -> Seq<char> {
    domain + "\nSign in to "@ + domain + "\n\nURI: "@ + base
        + "\nVersion: 1\nChain ID: 1\nNonce: "@ + nonce
}

/// The message to sign: the domain on the first line, and the nonce on the
/// last.
pub fn compose(domain: &str, base: &str, nonce: &str) -> (res: String)
    ensures
        res@ == message_for(domain@, base@, nonce@),
{
    let mut message = cat3(domain, "\nSign in to ", domain);
    message.append("\n\nURI: ");
    message.append(base);
    message.append("\nVersion: 1\nChain ID: 1\nNonce: ");
    message.append(nonce);
    message
}

/// What a script is answered with, under which status.
#[derive(Clone, Debug, PartialEq, Eq)]
pub enum WalletReply {
    /// 200, a message to sign and its nonce.
    Sign { message: String, nonce: String },
    /// 400 or 401, in words.
    Refused { status: u16, error: String },
    /// 200, the location as JSON and the cookies.
    SignedIn(Reply),
}

/// `POST /login/wallet/begin` — a nonce, inside a message to sign.
pub fn begin(domain: &str, base: &str, nonce: Result<String, String>) -> (res: WalletReply)
    ensures
        match nonce {
            Ok(n) => res matches WalletReply::Sign { message, nonce: shown } && message@
                == message_for(domain@, base@, n@) && shown@ == n@,
            Err(e) => res matches WalletReply::Refused { status, error } && status == 400 && error@
                == e@,
        },
{
    match nonce {
        Ok(n) => WalletReply::Sign { message: compose(domain, base, n.as_str()), nonce: n },
        Err(e) => WalletReply::Refused { status: 400, error: e },
    }
}

#[derive(Clone, Debug, PartialEq, Eq)]
pub struct FinishSignIn {
    pub message: String,
    pub signature: String,
    pub return_to: Option<String>,
}

/// The check of a signature that is asked of the engine.
#[derive(Clone, Debug, PartialEq, Eq)]
pub struct VerifySiweMessage {
    pub message: String,
    pub signature: String,
    pub ip_address: Option<String>,
    pub user_agent: Option<String>,
}

/// `POST /login/wallet/complete`
pub fn complete(
    body: &FinishSignIn,
    forwarded_for: Option<&str>,
    user_agent: Option<String>,
) -> (res: VerifySiweMessage)
    ensures
        res.message@ == body.message@,
        res.signature@ == body.signature@,
        crate::text::opt_view(res.ip_address) == crate::auth_ui::login::forwarded(forwarded_for),
        res.user_agent == user_agent,
{
    VerifySiweMessage {
        message: copy(&body.message),
        signature: copy(&body.signature),
        ip_address: client_ip(forwarded_for),
        user_agent,
    }
}

/// A wallet is one factor: an account that owes a second goes to the
/// challenge.
pub fn completed(
    body: &FinishSignIn,
    outcome: Result<SessionBundle, String>,
    policy: &CookiePolicy,
    hint: &HintCookie,
    headers: &Vec<String>,
) -> (res: WalletReply)
    ensures
        match outcome {
            Ok(bundle) => res matches WalletReply::SignedIn(reply)
                && crate::auth_ui::login::signs_in(
                reply,
                bundle,
                crate::auth_ui::login::onward(
                    bundle.session.active,
                    crate::auth_ui::login::path_in(body.return_to),
                ),
                *policy,
                *hint,
                crate::text::views(headers@),
            ),
            Err(e) => res matches WalletReply::Refused { status, error } && status == 401 && error@
                == e@,
        },
{
    match outcome {
        Ok(bundle) => WalletReply::SignedIn(
            signed_in(bundle, path_of(&body.return_to), policy, hint, headers),
        ),
        Err(e) => WalletReply::Refused { status: 401, error: e },
    }
}

/// A message opens with the line of the domain that composed it.
pub proof fn law_a_message_opens_with_its_domain(domain: Seq<char>, base: Seq<char>, nonce: Seq<char>)
    requires
        crate::text::free_of(domain, '\n'),
    ensures
        crate::text::cut_at(message_for(domain, base, nonce), '\n') matches Some((line, _))
            && line == domain,
{
    reveal_strlit("\nSign in to ");
    let message = message_for(domain, base, nonce);
    assert(message[domain.len() as int] == '\n');
    crate::text::lemma_first_char(message, '\n', 0);
    assert forall|i: int| 0 <= i < domain.len() implies message[i] != '\n' by {
        assert(message[i] == domain[i]);
    }
    assert(message.take(domain.len() as int) =~= domain);
}

/// A message to sign names the domain twice, then where it is signed in to, the version,
/// the chain and the nonce, each on a line of its own.
pub proof fn law_a_message_is_told_line_by_line(
    domain: Seq<char>,
    base: Seq<char>,
    nonce: Seq<char>,
)
    requires
        crate::text::free_of(domain, '\n'),
        crate::text::free_of(base, '\n'),
        crate::text::free_of(nonce, '\n'),
    ensures
        crate::text::pieces(message_for(domain, base, nonce), '\n') == seq![
            domain,
            "Sign in to "@ + domain,
            Seq::<char>::empty(),
            "URI: "@ + base,
            "Version: 1"@,
            "Chain ID: 1"@,
            "Nonce: "@ + nonce,
        ],
{
    let nothing = Seq::<char>::empty();
    let lines = seq![
        domain,
        "Sign in to "@ + domain,
        nothing,
        "URI: "@ + base,
        "Version: 1"@,
        "Chain ID: 1"@,
        "Nonce: "@ + nonce,
    ];
    reveal_strlit("\nSign in to ");
    reveal_strlit("Sign in to ");
    reveal_strlit("\n\nURI: ");
    reveal_strlit("URI: ");
    reveal_strlit("\nVersion: 1\nChain ID: 1\nNonce: ");
    reveal_strlit("Version: 1");
    reveal_strlit("Chain ID: 1");
    reveal_strlit("Nonce: ");
    let nl = seq!['\n'];
    let written = domain + nl + ("Sign in to "@ + domain) + nl + nothing + nl + ("URI: "@ + base)
        + nl + "Version: 1"@ + nl + "Chain ID: 1"@ + nl + ("Nonce: "@ + nonce);
    assert(message_for(domain, base, nonce) =~= written);
    assert(crate::text::joined(lines, nl) == written) by {
        lemma_seven(lines, nl);
    }
    assert forall|i: int| 0 <= i < lines.len() implies crate::text::free_of(#[trigger] lines[i], '\n') by {
        lemma_free_sum("Sign in to "@, domain);
        lemma_free_sum("URI: "@, base);
        lemma_free_sum("Nonce: "@, nonce);
    }
    crate::text::law_split_undoes_join(lines, '\n');
}

proof fn lemma_free_sum(a: Seq<char>, b: Seq<char>)
    requires
        crate::text::free_of(a, '\n'),
        crate::text::free_of(b, '\n'),
    ensures
        crate::text::free_of(a + b, '\n'),
{
    assert forall|i: int| 0 <= i < (a + b).len() implies (a + b)[i] != '\n' by {
        if i < a.len() {
            assert((a + b)[i] == a[i]);
        } else {
            assert((a + b)[i] == b[i - a.len()]);
        }
    }
}

proof fn lemma_seven(v: Seq<Seq<char>>, sep: Seq<char>)
    requires
        v.len() == 7,
    ensures
        crate::text::joined(v, sep) == v[0] + sep + v[1] + sep + v[2] + sep + v[3] + sep + v[4] + sep
            + v[5] + sep + v[6],
{
    let a = v.drop_last();
    let b = a.drop_last();
    let c = b.drop_last();
    let d = c.drop_last();
    let e = d.drop_last();
    let f = e.drop_last();
    assert(crate::text::joined(f, sep) == v[0]);
    assert(crate::text::joined(e, sep) == v[0] + sep + v[1]);
    assert(crate::text::joined(d, sep) == v[0] + sep + v[1] + sep + v[2]);
    assert(crate::text::joined(c, sep) == v[0] + sep + v[1] + sep + v[2] + sep + v[3]);
    assert(crate::text::joined(b, sep) == v[0] + sep + v[1] + sep + v[2] + sep + v[3] + sep + v[4]);
    assert(crate::text::joined(a, sep) == v[0] + sep + v[1] + sep + v[2] + sep + v[3] + sep + v[4]
        + sep + v[5]);
}

} // verus!
