//! Pulling a sanitised copy of a running server's database.
//!
//! The credential is read from the environment rather than an argument, which
//! would land in shell history and in the process table; it goes into a header
//! rather than the URL, which reaches every proxy log on the path.

use crate::text::{cat, cat3, chars_of, contains, decimal_of, string_of, trim, trim_end_matches};
use vstd::prelude::*;

verus! {

/// The environment variable holding the administrator's session token.
pub const TOKEN_VAR: &'static str = "AUTH_ADMIN_TOKEN";

/// One request for a snapshot.
#[derive(Clone, Debug, PartialEq, Eq)]
pub struct Fetch {
    pub url: String,
    pub header: String,
}

/// Where a server hands out its snapshot.
pub open spec fn snapshot_url(from: Seq<char>, redact_emails: bool) -> Seq<char> {
    crate::text::without_trailing(from, '/') + "/admin/snapshot"@ + (if redact_emails {
        "?redact_emails=true"@
    } else {
        Seq::empty()
    })
}

/// How to come by a token, for someone who has not set one.
pub open spec fn no_token(from: Seq<char>) -> Seq<char> {
    "set "@ + TOKEN_VAR@
        + " to an administrator's session token.\n\nGet one by signing in to "@ + from
        + " as an administrator and copying the token from\nthe `architect_session` cookie, or:\n\n  curl -sS "@
        + from
        + "/auth/sign-in/email \\\n    -H 'content-type: application/json' \\\n    -d '{\"email\":\"you@example.com\",\"password\":\"…\"}' | jq -r .token\n\nIt is read from the environment rather than taken as an argument so it does not\nland in shell history or the process table."@
}

/// What to ask the server, or what to tell someone without a token.
pub fn request(from: &str, token: Option<&str>, redact_emails: bool) -> (res: Result<Fetch, String>)
    ensures
        match token {
            Some(t) => res matches Ok(f) && f.url@ == snapshot_url(from@, redact_emails)
                && f.header@ == "authorization: Bearer "@ + t@,
            None => res matches Err(e) && e@ == no_token(from@),
        },
{
    match token {
        Some(t) => {
            let mut url: String = cat(trim_end_matches(from, '/').as_str(), "/admin/snapshot");
            if redact_emails {
                url.append("?redact_emails=true");
            }
            assert(url@ =~= snapshot_url(from@, redact_emails));
            Ok(Fetch { url, header: cat("authorization: Bearer ", t) })
        },
        None => {
            let mut out: String = cat3(
                "set ",
                TOKEN_VAR,
                " to an administrator's session token.\n\nGet one by signing in to ",
            );
            out.append(from);
            out.append(
                " as an administrator and copying the token from\nthe `architect_session` cookie, or:\n\n  curl -sS ",
            );
            out.append(from);
            out.append(
                "/auth/sign-in/email \\\n    -H 'content-type: application/json' \\\n    -d '{\"email\":\"you@example.com\",\"password\":\"…\"}' | jq -r .token\n\nIt is read from the environment rather than taken as an argument so it does not\nland in shell history or the process table.",
            );
            assert(out@ =~= no_token(from@));
            Err(out)
        },
    }
}

/// A text on a line of its own, where it says anything.
pub open spec fn on_a_line(s: Seq<char>) -> Seq<char> {
    if crate::text::trimmed(s).len() == 0 {
        Seq::empty()
    } else {
        "\n  "@ + crate::text::trimmed(s)
    }
}

fn line_of(s: &str) -> (res: String)
    ensures
        res@ == on_a_line(s@),
{
    let t: String = trim(s);
    if t.as_str().unicode_len() == 0 {
        String::new()
    } else {
        cat("\n  ", t.as_str())
    }
}

/// Whether a text is a snapshot: anything else, such as a refusal in JSON, must
/// not be written to disk as though it were one.
pub open spec fn is_snapshot(text: Seq<char>) -> bool {
    crate::text::holds(text, "\"users\""@) && crate::text::holds(text, "\"organizations\""@)
}

/// The first characters of a text.
pub open spec fn beginning(s: Seq<char>) -> Seq<char> {
    if s.len() <= 200 {
        s
    } else {
        s.take(200)
    }
}

/// How a fetch ended.
pub struct Fetched<'a> {
    pub succeeded: bool,
    /// The exit status, in words.
    pub status: &'a str,
    pub body: &'a str,
    pub complaints: &'a str,
}

/// Whether what came back is a snapshot that may be written.
pub fn accept(url: &str, fetched: &Fetched) -> (res: Result<(), String>)
    ensures
        res is Ok <==> fetched.succeeded && is_snapshot(fetched.body@),
        res matches Err(e) ==> e@ == (if !fetched.succeeded {
            "fetching "@ + url@ + ": "@ + fetched.status@ + on_a_line(fetched.body@) + on_a_line(
                fetched.complaints@,
            )
        } else {
            url@ + " did not answer with a snapshot. The first 200 bytes were:\n  "@ + beginning(
                fetched.body@,
            )
        }),
{
    if !fetched.succeeded {
        let mut out: String = cat3("fetching ", url, ": ");
        out.append(fetched.status);
        out.append(line_of(fetched.body).as_str());
        out.append(line_of(fetched.complaints).as_str());
        return Err(out);
    }
    if contains(fetched.body, "\"users\"") && contains(fetched.body, "\"organizations\"") {
        return Ok(());
    }
    let cs: Vec<char> = chars_of(fetched.body);
    let keep: usize = if cs.len() < 200 {
        cs.len()
    } else {
        200
    };
    let head: String = string_of(&cs, 0, keep);
    assert(head@ =~= beginning(fetched.body@));
    Err(
        cat3(
            url,
            " did not answer with a snapshot. The first 200 bytes were:\n  ",
            head.as_str(),
        ),
    )
}

/// What to say once the snapshot is written.
pub fn conclude(out_path: &str, bytes: u64) -> (res: String)
    ensures
        res@ == "wrote "@ + out_path@ + " ("@ + crate::text::decimal(bytes as nat)
            + " bytes)\n\nLoad it into a local server with:\n  AUTH_DATABASE_URL=sqlite://./auth-local.db?mode=rwc \\\n  AUTH_IMPORT_SNAPSHOT="@
            + out_path@ + " \\\n  cargo run -p auth-server\n"@,
{
    let mut out: String = cat3("wrote ", out_path, " (");
    out.append(decimal_of(bytes).as_str());
    out.append(
        " bytes)\n\nLoad it into a local server with:\n  AUTH_DATABASE_URL=sqlite://./auth-local.db?mode=rwc \\\n  AUTH_IMPORT_SNAPSHOT=",
    );
    out.append(out_path);
    out.append(" \\\n  cargo run -p auth-server\n");
    out
}

/// Slashes at the end of the server's address do not matter, and the snapshot is
/// asked for below it; leaving out addresses of people is one parameter more.
pub proof fn law_the_snapshot_is_asked_for_below_the_server(from: Seq<char>, redact_emails: bool)
    ensures
        snapshot_url(from + seq!['/'], redact_emails) == snapshot_url(from, redact_emails),
        from.len() > 0 && from.last() != '/' ==> snapshot_url(from, false) == from
            + "/admin/snapshot"@,
        snapshot_url(from, true) == snapshot_url(from, false) + "?redact_emails=true"@,
{
    assert((from + seq!['/']).drop_last() =~= from);
    assert(snapshot_url(from, false) =~= crate::text::without_trailing(from, '/')
        + "/admin/snapshot"@);
    assert(snapshot_url(from, true) =~= snapshot_url(from, false) + "?redact_emails=true"@);
}

/// What is told of an answer that is too long is how it begins.
pub proof fn law_a_long_answer_is_told_by_its_beginning(s: Seq<char>)
    ensures
        beginning(s).len() <= 200,
        crate::text::begins(s, beginning(s)),
        s.len() <= 200 ==> beginning(s) == s,
        s.len() > 200 ==> beginning(s).len() == 200,
{
    assert(s.subrange(0, beginning(s).len() as int) =~= beginning(s));
}

/// A complaint is told on a line of its own, without the white space around it, and not at
/// all where there is none.
pub proof fn law_a_complaint_is_told_on_a_line_of_its_own(a: Seq<char>, words: Seq<char>, b: Seq<char>)
    requires
        crate::text::blank(a),
        crate::text::blank(b),
        crate::text::trim_free(words),
    ensures
        words.len() == 0 ==> on_a_line(a + words + b).len() == 0,
        words.len() > 0 ==> on_a_line(a + words + b) == seq!['\n', ' ', ' '] + words,
{
    crate::text::law_trimming_takes_the_white_space_around(a, words, b);
    reveal_strlit("\n  ");
    assert("\n  "@ =~= seq!['\n', ' ', ' ']);
}

/// A snapshot names users and organizations both, in either order and whatever stands
/// around them; one that names but one of them is none.
pub proof fn law_a_snapshot_names_users_and_organizations(
    a: Seq<char>,
    b: Seq<char>,
    c: Seq<char>,
    text: Seq<char>,
)
    ensures
        is_snapshot(a + "\"users\""@ + b + "\"organizations\""@ + c),
        is_snapshot(a + "\"organizations\""@ + b + "\"users\""@ + c),
        !crate::text::holds(text, "\"users\""@) ==> !is_snapshot(text),
        !crate::text::holds(text, "\"organizations\""@) ==> !is_snapshot(text),
{
    let users = "\"users\""@;
    let orgs = "\"organizations\""@;
    crate::text::law_what_a_part_holds_the_whole_holds(a, b + orgs + c, users);
    assert(a + users + (b + orgs + c) =~= a + users + b + orgs + c);
    crate::text::law_what_a_part_holds_the_whole_holds(a + users + b, c, orgs);
    crate::text::law_what_a_part_holds_the_whole_holds(a, b + users + c, orgs);
    assert(a + orgs + (b + users + c) =~= a + orgs + b + users + c);
    crate::text::law_what_a_part_holds_the_whole_holds(a + orgs + b, c, users);
}

/// Without a token one is told which variable to set, and where to sign in.
pub proof fn law_a_missing_token_is_asked_for(from: Seq<char>)
    ensures
        crate::text::begins(no_token(from), "set AUTH_ADMIN_TOKEN to "@),
        crate::text::holds(no_token(from), " "@ + from + " as an administrator"@),
{
    let whole = no_token(from);
    reveal_strlit("set ");
    reveal_strlit("AUTH_ADMIN_TOKEN");
    reveal_strlit("set AUTH_ADMIN_TOKEN to ");
    reveal_strlit(" to an administrator's session token.\n\nGet one by signing in to ");
    reveal_strlit(" as an administrator and copying the token from\nthe `architect_session` cookie, or:\n\n  curl -sS ");
    reveal_strlit(" as an administrator");
    reveal_strlit(" ");
    let head = "set AUTH_ADMIN_TOKEN to "@;
    assert(whole.subrange(0, head.len() as int) =~= head);
    let words = " "@ + from + " as an administrator"@;
    let before = "set "@ + TOKEN_VAR@
        + " to an administrator's session token.\n\nGet one by signing in to "@;
    let at = before.len() - 1;
    assert(whole.subrange(at, at + words.len()) =~= words);
    assert(crate::text::stands_at(whole, words, at));
}

} // verus!
