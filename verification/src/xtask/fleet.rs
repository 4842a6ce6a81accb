//! Repointing a consumer at one release tag.
//!
//! A consuming repo depends on many crates that all live in this repo, and a
//! partial bump leaves it with several checkouts of it in one lockfile. So every
//! line is rewritten at once, or the caller is told why it cannot be.

use crate::text::{
    cat, cat3, chars_of, contains, contains_white_space, decimal_of, ends_with, find_char,
    find_from, join, lines, pad_left, same, split_once, starts_with, string_of, trim, trim_start,
};
use vstd::prelude::*;

verus! {

/// The repo URL a dependency must point at to be ours.
pub const REPO_MARKER: &'static str = "FastTrackStudios/architect";

/// Whether `key` is `prefix` or continues it after a hyphen.
pub open spec fn named_after(key: Seq<char>, prefix: Seq<char>) -> bool {
    key == prefix || crate::text::begins(key, prefix + "-"@)
}

/// Whether `key` is one of the crates this repo publishes.
pub open spec fn owned(key: Seq<char>) -> bool {
    ||| named_after(key, "architect"@)
    ||| named_after(key, "auth"@)
    ||| named_after(key, "crdt"@)
    ||| named_after(key, "ui-snapshot"@)
}

fn is_named_after(key: &str, prefix: &str) -> (res: bool)
    ensures
        res == named_after(key@, prefix@),
{
    same(key, prefix) || starts_with(key, cat(prefix, "-").as_str())
}

/// Is `key` one of the crates this repo publishes? A key matches as a whole or
/// as `prefix-*`, so a new crate is picked up by its name.
pub fn is_owned(key: &str) -> (res: bool)
    ensures
        res == owned(key@),
{
    is_named_after(key, "architect") || is_named_after(key, "auth") || is_named_after(key, "crdt")
        || is_named_after(key, "ui-snapshot")
}

/// The dependency key that a `key = …` line declares, if it is one.
pub open spec fn key_of(line: Seq<char>) -> Option<Seq<char>> {
    let t = crate::text::trimmed_start(line);
    if t.len() > 0 && t[0] == '#' {
        None
    } else {
        match crate::text::cut_at(t, '=') {
            Some(parts) => {
                let key = crate::text::trimmed(parts.0);
                if key.len() == 0 || crate::text::has_white_space(key) || !crate::text::free_of(
                    key,
                    '.',
                ) {
                    None
                } else {
                    Some(key)
                }
            },
            None => None,
        }
    }
}

fn is_free_of(s: &str, c: char) -> (res: bool)
    ensures
        res == crate::text::free_of(s@, c),
{
    let cs: Vec<char> = chars_of(s);
    let found: Option<usize> = find_char(&cs, c, 0);
    proof {
        crate::text::lemma_first_char(s@, c, 0);
    }
    found.is_none()
}

/// The dependency key a `key = …` line declares, if it is one.
pub fn dependency_key(line: &str) -> (res: Option<String>)
    ensures
        crate::text::opt_view(res) == key_of(line@),
{
    let t: String = trim_start(line);
    let cs: Vec<char> = chars_of(t.as_str());
    if cs.len() > 0 && cs[0] == '#' {
        return None;
    }
    let before: String = match split_once(t.as_str(), '=') {
        Some((before, _)) => before,
        None => {
            return None;
        },
    };
    let key: String = trim(before.as_str());
    if key.as_str().unicode_len() == 0 || contains_white_space(key.as_str()) || !is_free_of(
        key.as_str(),
        '.',
    ) {
        return None;
    }
    Some(key)
}

// ---------------------------------------------------------------------------
// One line
// ---------------------------------------------------------------------------

/// What begins the value of a field.
pub open spec fn opening(field: Seq<char>) -> Seq<char> {
    field + " = \""@
}

/// The line with the value of its first `field` replaced by a tag. The outer
/// option is empty where the line has no such field, the inner one where the
/// value does not end.
pub open spec fn with_field(line: Seq<char>, field: Seq<char>, tag: Seq<char>) -> Option<
    Option<Seq<char>>,
> {
    match crate::text::first_from(line, opening(field), 0) {
        Some(start) => match crate::text::first_char(line, '"', start + opening(field).len()) {
            Some(end) => Some(
                Some(line.take(start) + "tag = \""@ + tag + "\""@ + line.skip(end + 1)),
            ),
            None => Some(None),
        },
        None => None,
    }
}

/// The line with its tag, or else its revision, or else its branch replaced by a
/// tag.
pub open spec fn repointed(line: Seq<char>, tag: Seq<char>) -> Option<Seq<char>> {
    match with_field(line, "tag"@, tag) {
        Some(done) => done,
        None => match with_field(line, "rev"@, tag) {
            Some(done) => done,
            None => match with_field(line, "branch"@, tag) {
                Some(done) => done,
                None => None,
            },
        },
    }
}

fn set_field(line: &str, field: &str, tag: &str) -> (res: Option<Option<String>>)
    ensures
        match res {
            Some(done) => with_field(line@, field@, tag@) == Some(crate::text::opt_view(done)),
            None => with_field(line@, field@, tag@) is None,
        },
{
    let cs: Vec<char> = chars_of(line);
    let needle: Vec<char> = chars_of(cat(field, " = \"").as_str());
    let start: usize = match find_from(&cs, &needle, 0) {
        Some(start) => start,
        None => {
            return None;
        },
    };
    proof {
        crate::text::lemma_first_from(line@, opening(field@), 0);
    }
    let len: usize = cs.len();
    let end: usize = match find_char(&cs, '"', start + needle.len()) {
        Some(end) => end,
        None => {
            return Some(None);
        },
    };
    let mut out: String = string_of(&cs, 0, start);
    assert(out@ =~= line@.take(start as int));
    out.append("tag = \"");
    out.append(tag);
    out.append("\"");
    let tail: String = string_of(&cs, end + 1, len);
    assert(tail@ =~= line@.skip(end + 1));
    out.append(tail.as_str());
    Some(Some(out))
}

/// Replace a `tag = "…"`, `rev = "…"` or `branch = "…"` with `tag = "<tag>"`.
pub fn repoint(line: &str, tag: &str) -> (res: Option<String>)
    ensures
        crate::text::opt_view(res) == repointed(line@, tag@),
{
    match set_field(line, "tag", tag) {
        Some(done) => done,
        None => match set_field(line, "rev", tag) {
            Some(done) => done,
            None => match set_field(line, "branch", tag) {
                Some(done) => done,
                None => None,
            },
        },
    }
}

// ---------------------------------------------------------------------------
// A manifest
// ---------------------------------------------------------------------------

/// What becomes of a line.
pub enum Fate {
    /// It is none of ours, or already points at the tag.
    Stays,
    /// It is ours, and says nothing that could be replaced.
    Stuck(Seq<char>),
    /// It is ours, and is rewritten.
    Becomes(Seq<char>, Seq<char>),
}

pub open spec fn fate(line: Seq<char>, tag: Seq<char>) -> Fate {
    match key_of(line) {
        None => Fate::Stays,
        Some(key) => if !owned(key) || !crate::text::holds(line, REPO_MARKER@) {
            Fate::Stays
        } else {
            match repointed(line, tag) {
                None => Fate::Stuck(key),
                Some(new_line) => if new_line == line {
                    Fate::Stays
                } else {
                    Fate::Becomes(key, new_line)
                },
            }
        },
    }
}

/// One rewritten dependency line.
#[derive(Clone, Debug, PartialEq, Eq)]
pub struct Change {
    pub line_no: usize,
    pub key: String,
    pub before: String,
    pub after: String,
}

/// A change, in the mathematical model.
pub struct ChangeModel {
    pub line_no: int,
    pub key: Seq<char>,
    pub before: Seq<char>,
    pub after: Seq<char>,
}

impl Change {
    pub open spec fn model(self) -> ChangeModel {
        ChangeModel {
            line_no: self.line_no as int,
            key: self.key@,
            before: self.before@,
            after: self.after@,
        }
    }
}

pub open spec fn change_models(v: Seq<Change>) -> Seq<ChangeModel> {
    Seq::new(v.len(), |i: int| v[i].model())
}

/// The changes to the first `n` lines, in order.
pub open spec fn changes_among(text: Seq<Seq<char>>, tag: Seq<char>, n: nat) -> Seq<ChangeModel>
    decreases n,
{
    if n == 0 {
        Seq::empty()
    } else {
        let before = changes_among(text, tag, (n - 1) as nat);
        let line = text[n - 1];
        match fate(line, tag) {
            Fate::Becomes(key, new_line) => before.push(
                ChangeModel {
                    line_no: n as int,
                    key,
                    before: crate::text::trimmed(line),
                    after: crate::text::trimmed(new_line),
                },
            ),
            _ => before,
        }
    }
}

/// The first line from `from` on that is stuck.
pub open spec fn first_stuck(text: Seq<Seq<char>>, tag: Seq<char>, from: int) -> Option<int>
    decreases text.len() - from,
{
    if from >= text.len() {
        None
    } else if fate(text[from], tag) is Stuck {
        Some(from)
    } else {
        first_stuck(text, tag, from + 1)
    }
}

/// What is said of a stuck line.
pub open spec fn stuck_message(path: Seq<char>, line_no: int, key: Seq<char>, line: Seq<char>) -> Seq<
    char,
> {
    path + ":"@ + crate::text::decimal(line_no as nat) + ": `"@ + key
        + "` points at this repo but has neither `tag = \"…\"` nor `rev = \"…\"`; rewrite it by hand:\n  "@
        + crate::text::trimmed(line)
}

/// The white space a line begins with.
pub open spec fn indent(line: Seq<char>) -> Seq<char>
    decreases line.len(),
{
    if line.len() > 0 && crate::text::white_space(line[0]) {
        seq![line[0]] + indent(line.skip(1))
    } else {
        Seq::empty()
    }
}

/// A line as it is written back.
pub open spec fn written_back(line: Seq<char>, tag: Seq<char>) -> Seq<char> {
    match fate(line, tag) {
        Fate::Becomes(_, new_line) => indent(line) + crate::text::trimmed(new_line),
        _ => line,
    }
}

/// The manifest as it is written back: its lines with plain newlines between
/// them, and one at the end where there was one.
pub open spec fn rewritten(original: Seq<char>, tag: Seq<char>) -> Seq<char> {
    let text = crate::text::text_lines(original);
    crate::text::joined(Seq::new(text.len(), |i: int| written_back(text[i], tag)), "\n"@) + (
    if crate::text::ends(original, "\n"@) {
        "\n"@
    } else {
        Seq::empty()
    })
}

fn indent_of(line: &str) -> (res: String)
    ensures
        res@ == indent(line@),
{
    let cs: Vec<char> = chars_of(line);
    let mut n: usize = 0;
    assert(line@.skip(0) =~= line@);
    assert(line@.take(0) + indent(line@) =~= indent(line@));
    while n < cs.len() && crate::text::is_white_space(cs[n])
        invariant
            n <= cs@.len(),
            cs@ == line@,
            indent(line@) == line@.take(n as int) + indent(line@.skip(n as int)),
        decreases cs@.len() - n,
    {
        assert(line@.skip(n as int).skip(1) =~= line@.skip(n + 1));
        assert(line@.take(n as int) + (seq![line@[n as int]] + indent(line@.skip(n + 1)))
            =~= line@.take(n + 1) + indent(line@.skip(n + 1)));
        n = n + 1;
    }
    let out: String = string_of(&cs, 0, n);
    assert(out@ =~= indent(line@));
    out
}

/// What is to be done about a line.
enum Verdict {
    Stays,
    Stuck(String),
    Becomes(String, String),
}

fn judge(line: &str, tag: &str) -> (res: Verdict)
    ensures
        match res {
            Verdict::Stays => fate(line@, tag@) is Stays,
            Verdict::Stuck(key) => fate(line@, tag@) == Fate::Stuck(key@),
            Verdict::Becomes(key, new_line) => fate(line@, tag@) == Fate::Becomes(
                key@,
                new_line@,
            ),
        },
{
    let key: String = match dependency_key(line) {
        Some(key) => key,
        None => {
            return Verdict::Stays;
        },
    };
    if !is_owned(key.as_str()) || !contains(line, REPO_MARKER) {
        return Verdict::Stays;
    }
    match repoint(line, tag) {
        None => Verdict::Stuck(key),
        Some(new_line) => if same(new_line.as_str(), line) {
            Verdict::Stays
        } else {
            Verdict::Becomes(key, new_line)
        },
    }
}

fn stuck_error(path: &str, line_no: usize, key: &str, line: &str) -> (res: String)
    ensures
        res@ == stuck_message(path@, line_no as int, key@, line@),
{
    let mut out: String = cat3(path, ":", decimal_of(line_no as u64).as_str());
    out.append(": `");
    out.append(key);
    out.append(
        "` points at this repo but has neither `tag = \"…\"` nor `rev = \"…\"`; rewrite it by hand:\n  ",
    );
    out.append(trim(line).as_str());
    assert(out@ =~= stuck_message(path@, line_no as int, key@, line@));
    out
}

/// What a bump comes to: the changes, and the manifest with them made.
pub struct Plan {
    pub changes: Vec<Change>,
    pub text: String,
}

/// Work out how to repoint every line of a manifest that is ours. A line that
/// cannot be repointed stops everything: `path` is how it is named then.
pub fn plan(path: &str, original: &str, tag: &str) -> (res: Result<Plan, String>)
    ensures
        ({
            let text = crate::text::text_lines(original@);
            match first_stuck(text, tag@, 0) {
                Some(i) => res matches Err(e) && e@ == stuck_message(
                    path@,
                    i + 1,
                    fate(text[i], tag@)->Stuck_0,
                    text[i],
                ),
                None => res matches Ok(p) && change_models(p.changes@) == changes_among(
                    text,
                    tag@,
                    text.len(),
                ) && p.text@ == rewritten(original@, tag@),
            }
        }),
{
    let text: Vec<String> = lines(original);
    let ghost all = crate::text::text_lines(original@);
    let total: usize = text.len();
    let mut changes: Vec<Change> = Vec::new();
    let mut out: Vec<String> = Vec::new();
    let mut i: usize = 0;
    assert(change_models(changes@) =~= changes_among(all, tag@, 0));
    while i < text.len()
        invariant
            i <= text@.len() == total,
            all == crate::text::text_lines(original@),
            crate::text::views(text@) == all,
            first_stuck(all, tag@, 0) == first_stuck(all, tag@, i as int),
            change_models(changes@) == changes_among(all, tag@, i as nat),
            out@.len() == i,
            forall|j: int| 0 <= j < i ==> (#[trigger] out@[j])@ == written_back(all[j], tag@),
        decreases text@.len() - i,
    {
        assert(all[i as int] == text@[i as int]@);
        let line: &str = text[i].as_str();
        match judge(line, tag) {
            Verdict::Stays => {
                out.push(line.to_owned());
            },
            Verdict::Stuck(key) => {
                return Err(stuck_error(path, i + 1, key.as_str(), line));
            },
            Verdict::Becomes(key, new_line) => {
                let after: String = trim(new_line.as_str());
                out.push(cat(indent_of(line).as_str(), after.as_str()));
                let ghost before = change_models(changes@);
                let change: Change = Change { line_no: i + 1, key, before: trim(line), after };
                changes.push(change);
                assert(change_models(changes@) =~= before.push(change.model()));
            },
        }
        i = i + 1;
    }
    let mut joined: String = join(&out, "\n");
    assert(crate::text::views(out@) =~= Seq::new(
        all.len(),
        |i: int| written_back(all[i], tag@),
    ));
    if ends_with(original, "\n") {
        joined.append("\n");
    }
    assert(joined@ =~= rewritten(original@, tag@));
    Ok(Plan { changes, text: joined })
}

// ---------------------------------------------------------------------------
// The report
// ---------------------------------------------------------------------------

/// What is printed of the first `n` changes.
pub open spec fn change_lines(v: Seq<ChangeModel>, n: nat) -> Seq<char>
    decreases n,
{
    if n == 0 {
        Seq::empty()
    } else {
        let c = v[n - 1];
        change_lines(v, (n - 1) as nat) + ("  "@ + crate::text::padded_left(
            crate::text::decimal(c.line_no as nat),
            4,
        ) + "  "@ + c.key + "\n        - "@ + c.before + "\n        + "@ + c.after + "\n\n"@)
    }
}

/// What is printed before anything is written.
pub open spec fn announced(path: Seq<char>, tag: Seq<char>, v: Seq<ChangeModel>, dry_run: bool) -> Seq<
    char,
> {
    if v.len() == 0 {
        path + ": already on "@ + tag + " (no architect-owned git deps to change)\n"@
    } else {
        path + "\n\n"@ + change_lines(v, v.len()) + (if dry_run {
            crate::text::decimal(v.len()) + " line(s) would change (--dry-run)\n"@
        } else {
            Seq::empty()
        })
    }
}

/// What is printed once the manifest is written.
pub open spec fn concluded(tag: Seq<char>, changes: nat) -> Seq<char> {
    crate::text::decimal(changes) + " line(s) repointed to "@ + tag
        + ". Run `cargo update -p architect` (or just `cargo check`) to refresh the lockfile.\n"@
}

fn announce(path: &str, tag: &str, changes: &Vec<Change>, dry_run: bool) -> (out: String)
    ensures
        out@ == announced(path@, tag@, change_models(changes@), dry_run),
{
    if changes.len() == 0 {
        let mut out: String = cat3(path, ": already on ", tag);
        out.append(" (no architect-owned git deps to change)\n");
        return out;
    }
    let ghost all = change_models(changes@);
    let mut out: String = cat(path, "\n\n");
    let ghost heading = out@;
    let mut i: usize = 0;
    assert(heading + change_lines(all, 0) =~= heading);
    while i < changes.len()
        invariant
            i <= changes@.len(),
            all == change_models(changes@),
            out@ == heading + change_lines(all, i as nat),
        decreases changes@.len() - i,
    {
        let c: &Change = &changes[i];
        let number: String = decimal_of(c.line_no as u64);
        let mut line: String = cat3("  ", pad_left(number.as_str(), 4).as_str(), "  ");
        line.append(c.key.as_str());
        line.append("\n        - ");
        line.append(c.before.as_str());
        line.append("\n        + ");
        line.append(c.after.as_str());
        line.append("\n\n");
        assert(all[i as int] == c.model());
        out.append(line.as_str());
        i = i + 1;
        assert(out@ =~= heading + change_lines(all, i as nat));
    }
    if dry_run {
        let mut line: String = decimal_of(changes.len() as u64);
        line.append(" line(s) would change (--dry-run)\n");
        out.append(line.as_str());
    }
    assert(out@ =~= announced(path@, tag@, all, dry_run));
    out
}

/// A bump, ready to be carried out: print, and where there is a text, write it
/// and print the concluding line.
pub struct Bump {
    pub printed: String,
    pub text: Option<String>,
    pub concluding: String,
}

/// Rewrite every architect-owned git dependency of a manifest to `tag`. With
/// `dry_run` nothing is to be written, and neither where nothing changes.
pub fn run(path: &str, original: &str, tag: &str, dry_run: bool) -> (res: Result<Bump, String>)
    ensures
        ({
            let text = crate::text::text_lines(original@);
            let changes = changes_among(text, tag@, text.len());
            match first_stuck(text, tag@, 0) {
                Some(i) => res matches Err(e) && e@ == stuck_message(
                    path@,
                    i + 1,
                    fate(text[i], tag@)->Stuck_0,
                    text[i],
                ),
                None => res matches Ok(b) && {
                    &&& b.printed@ == announced(path@, tag@, changes, dry_run)
                    &&& crate::text::opt_view(b.text) == (if changes.len() == 0 || dry_run {
                        None
                    } else {
                        Some(rewritten(original@, tag@))
                    })
                    &&& b.concluding@ == concluded(tag@, changes.len())
                },
            }
        }),
{
    let plan: Plan = match plan(path, original, tag) {
        Ok(plan) => plan,
        Err(e) => {
            return Err(e);
        },
    };
    let printed: String = announce(path, tag, &plan.changes, dry_run);
    let mut concluding: String = decimal_of(plan.changes.len() as u64);
    concluding.append(" line(s) repointed to ");
    concluding.append(tag);
    concluding.append(
        ". Run `cargo update -p architect` (or just `cargo check`) to refresh the lockfile.\n",
    );
    let text: Option<String> = if plan.changes.len() == 0 || dry_run {
        None
    } else {
        Some(plan.text)
    };
    Ok(Bump { printed, text, concluding })
}

/// What stands at a path.
#[derive(Clone, Copy, Debug, PartialEq, Eq, Structural)]
pub enum Place {
    Directory { holds_manifest: bool },
    File,
    Nothing,
}

/// Where the manifest is: in the directory that was given, or itself given.
#[derive(Clone, Copy, Debug, PartialEq, Eq, Structural)]
pub enum Manifest {
    InDirectory,
    Given,
}

/// Accept either a manifest path or the directory holding one.
pub fn resolve_manifest(given: &str, place: Place) -> (res: Result<Manifest, String>)
    ensures
        match place {
            Place::Directory { holds_manifest: true } => res == Ok::<Manifest, String>(
                Manifest::InDirectory,
            ),
            Place::Directory { holds_manifest: false } => res matches Err(e) && e@
                == "no Cargo.toml in "@ + given@,
            Place::File => res == Ok::<Manifest, String>(Manifest::Given),
            Place::Nothing => res matches Err(e) && e@ == "no such path: "@ + given@,
        },
{
    match place {
        Place::Directory { holds_manifest } => if holds_manifest {
            Ok(Manifest::InDirectory)
        } else {
            Err(cat("no Cargo.toml in ", given))
        },
        Place::File => Ok(Manifest::Given),
        Place::Nothing => Err(cat("no such path: ", given)),
    }
}

// ---------------------------------------------------------------------------
// Laws
// ---------------------------------------------------------------------------

proof fn lemma_first_from_is(hay: Seq<char>, needle: Seq<char>, from: int, at: int)
    requires
        0 <= from <= at,
        crate::text::stands_at(hay, needle, at),
        forall|q: int| from <= q < at ==> !crate::text::stands_at(hay, needle, q),
    ensures
        crate::text::first_from(hay, needle, from) == Some(at),
    decreases at - from,
{
    if from < at {
        assert(!crate::text::stands_at(hay, needle, from));
        lemma_first_from_is(hay, needle, from + 1, at);
    }
}

proof fn lemma_first_char_is(s: Seq<char>, c: char, from: int, at: int)
    requires
        0 <= from <= at < s.len(),
        s[at] == c,
        forall|j: int| from <= j < at ==> s[j] != c,
    ensures
        crate::text::first_char(s, c, from) == Some(at),
    decreases at - from,
{
    if from < at {
        lemma_first_char_is(s, c, from + 1, at);
    }
}

/// A line with a tag.
spec fn tagged(head: Seq<char>, tag: Seq<char>, tail: Seq<char>) -> Seq<char> {
    head + "tag = \""@ + tag + "\""@ + tail
}

/// A line whose first tag opens after `head` gets the new tag in its place.
proof fn lemma_tag_replaced(head: Seq<char>, was: Seq<char>, tail: Seq<char>, tag: Seq<char>)
    requires
        crate::text::free_of(was, '"'),
        forall|q: int|
            0 <= q < head.len() ==> !crate::text::stands_at(
                tagged(head, was, tail),
                opening("tag"@),
                q,
            ),
    ensures
        repointed(tagged(head, was, tail), tag) == Some(tagged(head, tag, tail)),
{
    let line = tagged(head, was, tail);
    reveal_strlit("tag");
    reveal_strlit(" = \"");
    reveal_strlit("tag = \"");
    reveal_strlit("\"");
    let needle = opening("tag"@);
    let start = head.len() as int;
    let end = start + needle.len() + was.len();
    assert(needle =~= "tag = \""@);
    assert(line.subrange(start, start + needle.len()) =~= needle);
    lemma_first_from_is(line, needle, 0, start);
    assert(line[end] == '"');
    assert forall|j: int| start + needle.len() <= j < end implies line[j] != '"' by {
        assert(line[j] == was[j - start - needle.len()]);
    }
    lemma_first_char_is(line, '"', start + needle.len(), end);
    assert(line.take(start) =~= head);
    assert(line.skip(end + 1) =~= tail);
}

/// Where nothing of the kind stands in `line`, it does not stand across the
/// place where a tag was put in either.
proof fn lemma_nothing_across(line: Seq<char>, start: int, rest: Seq<char>, q: int)
    requires
        0 <= q < start <= line.len(),
        !crate::text::stands_at(line, opening("tag"@), q),
        rest.len() >= opening("tag"@).len(),
        rest.take(opening("tag"@).len() as int) == opening("tag"@),
    ensures
        !crate::text::stands_at(line.take(start) + rest, opening("tag"@), q),
{
    reveal_strlit("tag");
    reveal_strlit(" = \"");
    let needle = opening("tag"@);
    assert(needle =~= seq!['t', 'a', 'g', ' ', '=', ' ', '"']);
    let new_line = line.take(start) + rest;
    if crate::text::stands_at(new_line, needle, q) {
        let seen = new_line.subrange(q, q + 7);
        if q + 7 <= start {
            assert(line.subrange(q, q + 7) =~= seen);
            assert(false);
        } else {
            // The place where the tag begins lies within the needle, whose first
            // character occurs in it only once.
            let k = start - q;
            assert(seen[k] == rest[0]);
            assert(rest.take(7)[0] == 't');
            assert(needle[k] == 't');
            assert(false);
        }
    }
}

/// Where a line is repointed: what stands before the field and after its value.
proof fn lemma_repointed(line: Seq<char>, tag: Seq<char>) -> (cut: (int, int))
    requires
        repointed(line, tag) is Some,
    ensures
        0 <= cut.0 < cut.1 <= line.len(),
        !crate::text::white_space(line[cut.0]),
        forall|other: Seq<char>|
            #[trigger] repointed(line, other) == Some(
                tagged(line.take(cut.0), other, line.skip(cut.1)),
            ),
        forall|q: int, other: Seq<char>, tail: Seq<char>|
            0 <= q < cut.0 ==> !(#[trigger] crate::text::stands_at(
                tagged(line.take(cut.0), other, tail),
                opening("tag"@),
                q,
            )),
{
    let field = if with_field(line, "tag"@, tag) is Some {
        "tag"@
    } else if with_field(line, "rev"@, tag) is Some {
        "rev"@
    } else {
        "branch"@
    };
    let start = crate::text::first_from(line, opening(field), 0)->0;
    let end = crate::text::first_char(line, '"', start + opening(field).len())->0;
    crate::text::lemma_first_from(line, opening(field), 0);
    crate::text::lemma_first_from(line, opening("tag"@), 0);
    crate::text::lemma_first_char(line, '"', start + opening(field).len());
    reveal_strlit("tag");
    reveal_strlit("rev");
    reveal_strlit("branch");
    reveal_strlit(" = \"");
    reveal_strlit("tag = \"");
    assert(line.subrange(start, start + opening(field).len())[0] == opening(field)[0]);
    assert forall|q: int, other: Seq<char>, tail: Seq<char>| 0 <= q < start implies !(
    #[trigger] crate::text::stands_at(
        tagged(line.take(start), other, tail),
        opening("tag"@),
        q,
    )) by {
        let rest = "tag = \""@ + other + "\""@ + tail;
        assert(rest.take(7) =~= opening("tag"@));
        assert(tagged(line.take(start), other, tail) =~= line.take(start) + rest);
        lemma_nothing_across(line, start, rest, q);
    }
    (start, end + 1)
}

/// Repointing twice is repointing once: a line that has been pointed at a tag is
/// already on it.
pub proof fn law_repointing_is_final(line: Seq<char>, tag: Seq<char>, new_line: Seq<char>)
    requires
        crate::text::free_of(tag, '"'),
        repointed(line, tag) == Some(new_line),
    ensures
        repointed(new_line, tag) == Some(new_line),
{
    let (start, end) = lemma_repointed(line, tag);
    lemma_tag_replaced(line.take(start), tag, line.skip(end), tag);
}

/// The last tag wins: pointing a line at one tag and then at another is pointing
/// it at the other.
pub proof fn law_the_last_tag_wins(
    line: Seq<char>,
    first: Seq<char>,
    last: Seq<char>,
    between: Seq<char>,
)
    requires
        crate::text::free_of(first, '"'),
        crate::text::free_of(last, '"'),
        repointed(line, first) == Some(between),
    ensures
        repointed(between, last) == repointed(line, last),
{
    let (start, end) = lemma_repointed(line, first);
    assert(repointed(line, last) == Some(tagged(line.take(start), last, line.skip(end))));
    lemma_tag_replaced(line.take(start), first, line.skip(end), last);
}

proof fn lemma_indent(s: Seq<char>) -> (k: int)
    ensures
        0 <= k <= s.len(),
        forall|i: int| 0 <= i < k ==> crate::text::white_space(#[trigger] s[i]),
        k < s.len() ==> !crate::text::white_space(s[k]),
        indent(s) == s.take(k),
    decreases s.len(),
{
    if s.len() > 0 && crate::text::white_space(s[0]) {
        let k = lemma_indent(s.skip(1));
        assert(seq![s[0]] + s.skip(1).take(k) =~= s.take(k + 1));
        assert forall|i: int| 0 <= i < k + 1 implies crate::text::white_space(#[trigger] s[i]) by {
            if i > 0 {
                assert(s.skip(1)[i - 1] == s[i]);
            }
        }
        k + 1
    } else {
        assert(indent(s) =~= s.take(0));
        0
    }
}

proof fn lemma_trimmed_start_is(s: Seq<char>, k: int)
    requires
        0 <= k < s.len(),
        forall|i: int| 0 <= i < k ==> crate::text::white_space(#[trigger] s[i]),
        !crate::text::white_space(s[k]),
    ensures
        crate::text::trimmed_start(s) == s.skip(k),
    decreases k,
{
    if k > 0 {
        assert forall|i: int| 0 <= i < k - 1 implies crate::text::white_space(
            #[trigger] s.skip(1)[i],
        ) by {
            assert(s.skip(1)[i] == s[i + 1]);
        }
        lemma_trimmed_start_is(s.skip(1), k - 1);
        assert(s.skip(1).skip(k - 1) =~= s.skip(k));
    } else {
        assert(s.skip(0) =~= s);
    }
}

proof fn lemma_trimmed_end_of(a: Seq<char>, b: Seq<char>)
    requires
        a.len() > 0,
        !crate::text::white_space(a.last()),
    ensures
        crate::text::trimmed_end(a + b) == a + crate::text::trimmed_end(b),
        crate::text::trimmed_end(b).len() <= b.len(),
        crate::text::trimmed_end(b) == b.take(crate::text::trimmed_end(b).len() as int),
    decreases b.len(),
{
    if b.len() == 0 {
        assert(a + b =~= a);
        assert(crate::text::trimmed_end(b) =~= b);
    } else if crate::text::white_space(b.last()) {
        assert((a + b).drop_last() =~= a + b.drop_last());
        lemma_trimmed_end_of(a, b.drop_last());
        let n = crate::text::trimmed_end(b).len() as int;
        assert(b.drop_last().take(n) =~= b.take(n));
    } else {
        assert(b.take(b.len() as int) =~= b);
    }
}

/// What a rewritten line is written back as.
proof fn lemma_written_back(line: Seq<char>, tag: Seq<char>)
    requires
        crate::text::free_of(tag, '"'),
        fate(line, tag) is Becomes,
    ensures
        fate(written_back(line, tag), tag) is Stays,
        written_back(line, tag).len() > 0,
        crate::text::free_of(line, '\n') && crate::text::free_of(tag, '\n')
            ==> crate::text::free_of(written_back(line, tag), '\n'),
        !crate::text::white_space(line.last()) ==> repointed(line, tag) == Some(
            written_back(line, tag),
        ),
{
    let new_line = repointed(line, tag)->0;
    let (start, end) = lemma_repointed(line, tag);
    let head = line.take(start);
    let tail = line.skip(end);
    let k = lemma_indent(line);
    reveal_strlit("tag = \"");
    reveal_strlit("\"");
    assert(k <= start);
    assert forall|i: int| 0 <= i < k implies crate::text::white_space(#[trigger] new_line[i]) by {
        assert(new_line[i] == line[i]);
    }
    assert(!crate::text::white_space(new_line[k])) by {
        if k < start {
            assert(new_line[k] == line[k]);
        } else {
            assert(new_line[k] == 't');
        }
    }
    lemma_trimmed_start_is(new_line, k);
    let kept = head.skip(k) + "tag = \""@ + tag + "\""@;
    assert(new_line.skip(k) =~= kept + tail);
    assert(kept.last() == '"');
    lemma_trimmed_end_of(kept, tail);
    let rest = crate::text::trimmed_end(tail);
    let back = written_back(line, tag);
    assert(back =~= tagged(head, tag, rest));
    lemma_tag_replaced(head, tag, rest, tag);
    if crate::text::free_of(line, '\n') && crate::text::free_of(tag, '\n') {
        assert forall|i: int| 0 <= i < back.len() implies (#[trigger] back[i]) != '\n' by {
            let from = head.len() + 7;
            if i < head.len() {
                assert(back[i] == line[i]);
            } else if i < from {
                assert(back[i] == "tag = \""@[i - head.len()]);
            } else if i < from + tag.len() {
                assert(back[i] == tag[i - from]);
            } else if i > from + tag.len() {
                assert(back[i] == rest[i - from - tag.len() - 1]);
                assert(back[i] == line[end + (i - from - tag.len() - 1)]);
            }
        }
    }
    if !crate::text::white_space(line.last()) {
        if tail.len() > 0 {
            assert(tail.last() == line.last());
        }
        assert(rest =~= tail);
        assert(back =~= new_line);
    }
}

/// The lines of a manifest as they are written back.
pub open spec fn written_lines(original: Seq<char>, tag: Seq<char>) -> Seq<Seq<char>> {
    let text = crate::text::text_lines(original);
    Seq::new(text.len(), |i: int| written_back(text[i], tag))
}

/// A bump touches our lines alone: line for line, the manifest that is written
/// back holds the repointed line where a line is ours, and the line as it was
/// everywhere else; and it ends in a newline where it did.
///
/// A line written back loses the white space at its end. Lines that end in a
/// carriage return besides the one of the line's end are left out.
pub proof fn law_a_bump_touches_our_lines_alone(original: Seq<char>, tag: Seq<char>)
    requires
        crate::text::free_of(tag, '"'),
        crate::text::free_of(tag, '\n'),
        forall|i: int|
            0 <= i < written_lines(original, tag).len() ==> !crate::text::ends(
                #[trigger] written_lines(original, tag)[i],
                seq!['\r'],
            ),
    ensures
        crate::text::text_lines(rewritten(original, tag)) == written_lines(original, tag),
        crate::text::ends(rewritten(original, tag), "\n"@) == crate::text::ends(original, "\n"@),
        forall|i: int|
            #![trigger written_lines(original, tag)[i]]
            0 <= i < written_lines(original, tag).len() ==> {
                let line = crate::text::text_lines(original)[i];
                &&& fate(line, tag) !is Becomes ==> written_lines(original, tag)[i] == line
                &&& fate(line, tag) is Becomes && !crate::text::white_space(line.last())
                    ==> repointed(line, tag) == Some(written_lines(original, tag)[i])
            },
{
    reveal_strlit("\n");
    let text = crate::text::text_lines(original);
    let back = written_lines(original, tag);
    let parts = crate::text::pieces(original, '\n');
    crate::text::lemma_pieces_nonempty(original, '\n');
    crate::text::law_pieces_hold_no_separator(original, '\n');
    crate::text::law_join_undoes_split(original, '\n');
    assert("\n"@ =~= seq!['\n']);
    assert forall|i: int| 0 <= i < back.len() implies crate::text::free_of(
        #[trigger] back[i],
        '\n',
    ) && (fate(text[i], tag) is Becomes ==> back[i].len() > 0) && (fate(text[i], tag) is Becomes
        && !crate::text::white_space(text[i].last()) ==> repointed(text[i], tag) == Some(
        back[i],
    )) by {
        assert(crate::text::free_of(parts[i], '\n'));
        assert(crate::text::free_of(text[i], '\n'));
        if fate(text[i], tag) is Becomes {
            lemma_written_back(text[i], tag);
        }
    }
    let empty = Seq::<char>::empty();
    let now = rewritten(original, tag);
    let wide = back.push(empty);
    assert(wide.drop_last() =~= back);
    if crate::text::ends(original, "\n"@) {
        assert(parts.len() > 1) by {
            if parts.len() == 1 {
                assert(parts.drop_last() =~= Seq::<Seq<char>>::empty());
                assert(parts[0] == original);
                assert(original.last() == '\n');
                assert(original.skip(original.len() - 1)[0] == original.last());
            }
        }
        assert(parts.last().len() == 0) by {
            if parts.last().len() > 0 {
                let last = parts[parts.len() - 1];
                assert(original.last() == last.last());
                assert(original.skip(original.len() - 1)[0] == original.last());
                assert(last[last.len() - 1] != '\n');
            }
        }
        assert(back.len() > 0);
        assert(now =~= crate::text::joined(wide, "\n"@));
        assert forall|i: int| 0 <= i < wide.len() implies crate::text::free_of(
            #[trigger] wide[i],
            '\n',
        ) by {
            if i < back.len() {
                assert(wide[i] == back[i]);
            }
        }
        crate::text::law_split_undoes_join(wide, '\n');
        assert forall|i: int| 0 <= i < back.len() implies crate::text::without_cr(wide[i])
            == #[trigger] back[i] by {
            lemma_no_cr(back[i]);
        }
        assert(crate::text::text_lines(now) =~= back);
        assert(now.skip(now.len() - 1) =~= "\n"@);
    } else if back.len() == 0 {
        assert(now =~= empty);
        crate::text::lemma_pieces_of_free(empty, '\n');
        assert(crate::text::text_lines(now) =~= back);
    } else {
        assert(parts.last().len() > 0) by {
            if parts.last().len() == 0 {
                assert(parts.len() > 1);
                assert(original.skip(original.len() - 1) =~= "\n"@);
            }
        }
        assert(text.last() == parts.last());
        assert(back.last() == back[back.len() - 1]);
        assert(back.last().len() > 0);
        assert(now =~= crate::text::joined(back, "\n"@));
        crate::text::law_split_undoes_join(back, '\n');
        assert forall|i: int| 0 <= i < back.len() implies crate::text::without_cr(back[i])
            == #[trigger] back[i] by {
            lemma_no_cr(back[i]);
        }
        assert(crate::text::text_lines(now) =~= back);
        assert(now.last() == back.last().last());
        if crate::text::ends(now, "\n"@) {
            assert(now.skip(now.len() - 1)[0] == now.last());
            assert(back.last()[back.last().len() - 1] != '\n');
        }
    }
}

proof fn lemma_no_cr(line: Seq<char>)
    requires
        !crate::text::ends(line, seq!['\r']),
    ensures
        crate::text::without_cr(line) == line,
{
    if line.len() > 0 && line.last() == '\r' {
        assert(line.skip(line.len() - 1) =~= seq!['\r']);
    }
}

proof fn lemma_nothing_left(text: Seq<Seq<char>>, tag: Seq<char>, n: nat)
    requires
        n <= text.len(),
        forall|i: int| 0 <= i < text.len() ==> fate(#[trigger] text[i], tag) is Stays,
    ensures
        changes_among(text, tag, n).len() == 0,
    decreases n,
{
    if n > 0 {
        lemma_nothing_left(text, tag, (n - 1) as nat);
    }
}

proof fn lemma_nothing_stuck(text: Seq<Seq<char>>, tag: Seq<char>, from: int)
    requires
        0 <= from,
        forall|i: int| 0 <= i < text.len() ==> fate(#[trigger] text[i], tag) is Stays,
    ensures
        first_stuck(text, tag, from) is None,
    decreases text.len() - from,
{
    if from < text.len() {
        lemma_nothing_stuck(text, tag, from + 1);
    }
}

proof fn lemma_not_stuck(text: Seq<Seq<char>>, tag: Seq<char>, from: int, i: int)
    requires
        0 <= from <= i < text.len(),
        first_stuck(text, tag, from) is None,
    ensures
        fate(text[i], tag) !is Stuck,
    decreases i - from,
{
    if from < i {
        lemma_not_stuck(text, tag, from + 1, i);
    }
}

/// A second bump to the same tag finds nothing to change, and leaves the manifest
/// as the first one wrote it.
pub proof fn law_a_second_bump_changes_nothing(original: Seq<char>, tag: Seq<char>)
    requires
        crate::text::free_of(tag, '"'),
        crate::text::free_of(tag, '\n'),
        first_stuck(crate::text::text_lines(original), tag, 0) is None,
        forall|i: int|
            0 <= i < written_lines(original, tag).len() ==> !crate::text::ends(
                #[trigger] written_lines(original, tag)[i],
                seq!['\r'],
            ),
    ensures
        ({
            let text = crate::text::text_lines(rewritten(original, tag));
            &&& first_stuck(text, tag, 0) is None
            &&& changes_among(text, tag, text.len()).len() == 0
        }),
        rewritten(rewritten(original, tag), tag) == rewritten(original, tag),
{
    law_a_bump_touches_our_lines_alone(original, tag);
    let text = crate::text::text_lines(original);
    let back = written_lines(original, tag);
    let now = rewritten(original, tag);
    assert forall|i: int| 0 <= i < back.len() implies fate(#[trigger] back[i], tag) is Stays by {
        lemma_not_stuck(text, tag, 0, i);
        if fate(text[i], tag) is Becomes {
            lemma_written_back(text[i], tag);
        }
    }
    lemma_nothing_left(back, tag, back.len());
    lemma_nothing_stuck(back, tag, 0);
    assert(written_lines(now, tag) =~= back);
}

/// Whether a pin opens at place `q` of a line: a tag, a revision or a branch.
pub open spec fn pin_opens_at(line: Seq<char>, q: int) -> bool {
    ||| crate::text::stands_at(line, "tag = \""@, q)
    ||| crate::text::stands_at(line, "rev = \""@, q)
    ||| crate::text::stands_at(line, "branch = \""@, q)
}

/// A line pinned by `field`.
pub open spec fn pinned(head: Seq<char>, field: Seq<char>, value: Seq<char>, tail: Seq<char>) -> Seq<
    char,
> {
    head + field + " = \""@ + value + "\""@ + tail
}

proof fn lemma_openings()
    ensures
        opening("tag"@) == "tag = \""@,
        opening("rev"@) == "rev = \""@,
        opening("branch"@) == "branch = \""@,
        "tag = \""@.len() == 7,
        "rev = \""@.len() == 7,
        "branch = \""@.len() == 10,
        "tag = \""@[0] == 't',
        "rev = \""@[0] == 'r',
        "branch = \""@[0] == 'b',
        "\""@ == seq!['"'],
{
    reveal_strlit("tag");
    reveal_strlit("rev");
    reveal_strlit("branch");
    reveal_strlit(" = \"");
    reveal_strlit("tag = \"");
    reveal_strlit("rev = \"");
    reveal_strlit("branch = \"");
    reveal_strlit("\"");
    assert(opening("tag"@) =~= "tag = \""@);
    assert(opening("rev"@) =~= "rev = \""@);
    assert(opening("branch"@) =~= "branch = \""@);
    assert("\""@ =~= seq!['"']);
}

proof fn lemma_nowhere(hay: Seq<char>, needle: Seq<char>, from: int)
    requires
        0 <= from,
        forall|q: int| from <= q ==> !#[trigger] crate::text::stands_at(hay, needle, q),
    ensures
        crate::text::first_from(hay, needle, from) is None,
    decreases hay.len() + 1 - from,
{
    crate::text::lemma_first_from(hay, needle, from);
    if let Some(at) = crate::text::first_from(hay, needle, from) {
        assert(crate::text::stands_at(hay, needle, at));
    }
}

/// A dependency is repointed whatever it is pinned by: where a line has one pin, a
/// tag, a revision or a branch alike, the whole pin is replaced by the tag, and the
/// rest of the line stays.
pub proof fn law_every_pin_is_replaced(
    head: Seq<char>,
    field: Seq<char>,
    value: Seq<char>,
    tail: Seq<char>,
    tag: Seq<char>,
)
    requires
        field == "tag"@ || field == "rev"@ || field == "branch"@,
        crate::text::free_of(value, '"'),
        forall|q: int|
            q != head.len() ==> !#[trigger] pin_opens_at(pinned(head, field, value, tail), q),
    ensures
        repointed(pinned(head, field, value, tail), tag) == Some(
            head + "tag = \""@ + tag + "\""@ + tail,
        ),
{
    let line = pinned(head, field, value, tail);
    let at = head.len() as int;
    let open = opening(field);
    lemma_openings();
    assert(line =~= head + open + value + "\""@ + tail);
    assert(line.subrange(at, at + open.len()) =~= open);
    assert(crate::text::stands_at(line, open, at));
    assert(line[at] == open[0]);
    let fields = seq!["tag"@, "rev"@, "branch"@];
    assert forall|f: int| 0 <= f < 3 implies crate::text::first_from(
        line,
        opening(#[trigger] fields[f]),
        0,
    ) == (if fields[f] == field {
        Some(at)
    } else {
        None::<int>
    }) by {
        let needle = opening(fields[f]);
        assert forall|q: int| q != at implies !#[trigger] crate::text::stands_at(
            line,
            needle,
            q,
        ) by {
            assert(!pin_opens_at(line, q));
        }
        if fields[f] == field {
            lemma_first_from_is(line, needle, 0, at);
        } else {
            if crate::text::stands_at(line, needle, at) {
                assert(line.subrange(at, at + needle.len())[0] == needle[0]);
                assert(open[0] == needle[0]);
            }
            lemma_nowhere(line, needle, 0);
        }
    }
    assert(fields[0] == "tag"@ && fields[1] == "rev"@ && fields[2] == "branch"@);
    let from = at + open.len();
    let end = from + value.len();
    assert(line[end] == '"');
    assert forall|j: int| from <= j < end implies line[j] != '"' by {
        assert(line[j] == value[j - from]);
    }
    lemma_first_char_is(line, '"', from, end);
    assert(line.take(at) =~= head);
    assert(line.skip(end + 1) =~= tail);
    reveal_strlit("tag");
    reveal_strlit("rev");
    reveal_strlit("branch");
    assert("tag"@[0] == 't' && "rev"@[0] == 'r' && "branch"@[0] == 'b');
}

/// A tag comes before a revision and a branch: where a line has a tag, its first tag
/// is replaced, and any other pin stays as it is.
pub proof fn law_a_tag_comes_first(
    head: Seq<char>,
    value: Seq<char>,
    tail: Seq<char>,
    tag: Seq<char>,
)
    requires
        crate::text::free_of(value, '"'),
        forall|q: int|
            q < head.len() ==> !#[trigger] crate::text::stands_at(
                pinned(head, "tag"@, value, tail),
                "tag = \""@,
                q,
            ),
    ensures
        repointed(pinned(head, "tag"@, value, tail), tag) == Some(
            head + "tag = \""@ + tag + "\""@ + tail,
        ),
{
    lemma_openings();
    let line = pinned(head, "tag"@, value, tail);
    assert(line =~= tagged(head, value, tail)) by {
        assert(head + "tag"@ + " = \""@ =~= head + opening("tag"@));
    }
    lemma_tag_replaced(head, value, tail, tag);
}

/// A line without a pin cannot be repointed.
pub proof fn law_a_line_without_a_pin_is_not_repointed(line: Seq<char>, tag: Seq<char>)
    requires
        forall|q: int| !#[trigger] pin_opens_at(line, q),
    ensures
        repointed(line, tag) is None,
{
    lemma_openings();
    assert forall|q: int|
        !#[trigger] crate::text::stands_at(line, "tag = \""@, q) && !crate::text::stands_at(
            line,
            "rev = \""@,
            q,
        ) && !crate::text::stands_at(line, "branch = \""@, q) by {
        assert(!pin_opens_at(line, q));
    }
    assert forall|q: int| !#[trigger] crate::text::stands_at(line, "rev = \""@, q) by {
        assert(!pin_opens_at(line, q));
    }
    assert forall|q: int| !#[trigger] crate::text::stands_at(line, "branch = \""@, q) by {
        assert(!pin_opens_at(line, q));
    }
    lemma_nowhere(line, "tag = \""@, 0);
    lemma_nowhere(line, "rev = \""@, 0);
    lemma_nowhere(line, "branch = \""@, 0);
}

/// Whether a key is a name or continues it after a hyphen.
pub open spec fn is_or_continues(key: Seq<char>, name: Seq<char>) -> bool {
    key == name || key.len() > name.len() && key.take(name.len() as int) == name
        && key[name.len() as int] == '-'
}

/// The crates that are ours: those named after one of four families, and no others.
pub proof fn law_four_families_are_ours(key: Seq<char>)
    ensures
        owned(key) <==> is_or_continues(key, "architect"@) || is_or_continues(key, "auth"@)
            || is_or_continues(key, "crdt"@) || is_or_continues(key, "ui-snapshot"@),
{
    reveal_strlit("-");
    lemma_named_after(key, "architect"@);
    lemma_named_after(key, "auth"@);
    lemma_named_after(key, "crdt"@);
    lemma_named_after(key, "ui-snapshot"@);
}

proof fn lemma_named_after(key: Seq<char>, name: Seq<char>)
    ensures
        named_after(key, name) == is_or_continues(key, name),
{
    reveal_strlit("-");
    let wanted = name + "-"@;
    let n = name.len() as int;
    if key.len() > n {
        let seen = key.subrange(0, n + 1);
        if crate::text::begins(key, wanted) {
            assert(seen == wanted);
            assert(key.take(n) =~= wanted.take(n));
            assert(wanted.take(n) =~= name);
            assert(key[n] == seen[n]);
        }
        if key.take(n) == name && key[n] == '-' {
            assert(seen =~= wanted) by {
                assert forall|i: int| 0 <= i < n implies seen[i] == wanted[i] by {
                    assert(key.take(n)[i] == name[i]);
                }
            }
        }
    }
}

/// A name that can stand before an equals sign.
pub open spec fn is_key(key: Seq<char>) -> bool {
    &&& key.len() > 0
    &&& key[0] != '#'
    &&& !crate::text::has_white_space(key)
    &&& crate::text::free_of(key, '.')
    &&& crate::text::free_of(key, '=')
}

/// A line that declares a dependency: white space, its key, and what stands behind
/// the equals sign.
pub open spec fn declares(blank: Seq<char>, key: Seq<char>, rest: Seq<char>) -> Seq<char> {
    blank + key + " ="@ + rest
}

/// A dependency line declares the key that stands before its equals sign, however it
/// is indented.
pub proof fn law_the_key_is_read(blank: Seq<char>, key: Seq<char>, rest: Seq<char>)
    requires
        forall|i: int| 0 <= i < blank.len() ==> crate::text::white_space(#[trigger] blank[i]),
        is_key(key),
    ensures
        key_of(declares(blank, key, rest)) == Some(key),
{
    reveal_strlit(" =");
    let line = declares(blank, key, rest);
    let k = blank.len() as int;
    let n = key.len() as int;
    assert(line[k] == key[0]);
    assert(!crate::text::white_space(key[0]));
    assert forall|i: int| 0 <= i < k implies crate::text::white_space(#[trigger] line[i]) by {
        assert(line[i] == blank[i]);
    }
    lemma_trimmed_start_is(line, k);
    let t = line.skip(k);
    assert(t =~= key + " ="@ + rest);
    assert(t[n + 1] == '=');
    assert forall|j: int| 0 <= j < n + 1 implies t[j] != '=' by {
        if j < n {
            assert(t[j] == key[j]);
        }
    }
    lemma_first_char_is(t, '=', 0, n + 1);
    let before = t.take(n + 1);
    assert(before =~= key + seq![' ']);
    lemma_trimmed_start_is(before, 0);
    assert(before.skip(0) =~= before);
    assert(!crate::text::white_space(key[n - 1]));
    lemma_trimmed_end_of(key, seq![' ']);
    let end = seq![' '];
    assert(end.last() == ' ');
    assert(end.drop_last() =~= Seq::<char>::empty());
    assert(crate::text::trimmed_end(end) =~= Seq::<char>::empty()) by {
        reveal_with_fuel(crate::text::trimmed_end, 2);
    }
    assert(key + Seq::<char>::empty() =~= key);
    assert(crate::text::trimmed(before) == key);
}

/// A bump repoints each of our dependencies that points at this repo, whatever it is
/// pinned by, and however it is indented: the pin becomes the tag, and the rest of
/// the line stays.
pub proof fn law_our_dependencies_are_bumped(
    blank: Seq<char>,
    key: Seq<char>,
    head: Seq<char>,
    field: Seq<char>,
    value: Seq<char>,
    tail: Seq<char>,
    tag: Seq<char>,
)
    requires
        forall|i: int| 0 <= i < blank.len() ==> crate::text::white_space(#[trigger] blank[i]),
        is_key(key),
        is_or_continues(key, "architect"@) || is_or_continues(key, "auth"@) || is_or_continues(
            key,
            "crdt"@,
        ) || is_or_continues(key, "ui-snapshot"@),
        crate::text::holds(head, "FastTrackStudios/architect"@),
        field == "tag"@ || field == "rev"@ || field == "branch"@,
        crate::text::free_of(value, '"'),
        crate::text::free_of(tag, '"'),
        tail.len() > 0 ==> !crate::text::white_space(tail.last()),
        forall|q: int|
            q != declares(blank, key, head).len() ==> !#[trigger] pin_opens_at(
                pinned(declares(blank, key, head), field, value, tail),
                q,
            ),
    ensures
        ({
            let line = pinned(declares(blank, key, head), field, value, tail);
            &&& fate(line, tag) !is Stuck
            &&& fate(line, tag) is Stays <==> field == "tag"@ && value == tag
            &&& written_back(line, tag) == declares(blank, key, head) + "tag = \""@ + tag
                + "\""@ + tail
        }),
{
    let front = declares(blank, key, head);
    let line = pinned(front, field, value, tail);
    let rest = head + field + " = \""@ + value + "\""@ + tail;
    assert(line =~= declares(blank, key, rest));
    law_the_key_is_read(blank, key, rest);
    law_four_families_are_ours(key);
    law_every_pin_is_replaced(front, field, value, tail, tag);
    let marker = "FastTrackStudios/architect"@;
    let at = choose|at: int| crate::text::stands_at(head, marker, at);
    let place = front.len() - head.len() + at;
    assert(line.subrange(place, place + marker.len()) =~= head.subrange(at, at + marker.len()));
    assert(crate::text::stands_at(line, marker, place));
    let new_line = front + "tag = \""@ + tag + "\""@ + tail;
    lemma_openings();
    assert(line.last() == (if tail.len() > 0 {
        tail.last()
    } else {
        '"'
    }));
    assert(!crate::text::white_space(line.last()));
    if fate(line, tag) is Becomes {
        lemma_written_back(line, tag);
    }
    if field == "tag"@ && value == tag {
        assert(front + "tag"@ + " = \""@ =~= front + "tag = \""@) by {
            assert(opening("tag"@) == "tag = \""@);
            assert(front + "tag"@ + " = \""@ =~= front + opening("tag"@));
        }
        assert(line =~= new_line);
    } else if line == new_line {
        let n = front.len() as int;
        let open = opening(field);
        assert(line =~= front + open + value + "\""@ + tail);
        assert(line[n] == open[0]);
        assert(new_line[n] == 't');
        reveal_strlit("tag");
        reveal_strlit("rev");
        reveal_strlit("branch");
        assert(field == "tag"@);
        assert(line.len() == new_line.len());
        assert(value.len() == tag.len());
        assert(line.subrange(n + 7, n + 7 + value.len()) =~= value);
        assert(new_line.subrange(n + 7, n + 7 + tag.len()) =~= tag);
    }
}

/// A bump leaves alone what is not ours: a comment, a line that does not point at
/// this repo, and a dependency of another name.
pub proof fn law_other_lines_are_left_alone(
    line: Seq<char>,
    tag: Seq<char>,
    blank: Seq<char>,
    key: Seq<char>,
    rest: Seq<char>,
)
    requires
        forall|i: int| 0 <= i < blank.len() ==> crate::text::white_space(#[trigger] blank[i]),
    ensures
        !crate::text::holds(line, "FastTrackStudios/architect"@) ==> fate(line, tag) is Stays
            && written_back(line, tag) == line,
        fate(blank + seq!['#'] + rest, tag) is Stays,
        written_back(blank + seq!['#'] + rest, tag) == blank + seq!['#'] + rest,
        is_key(key) && !is_or_continues(key, "architect"@) && !is_or_continues(key, "auth"@)
            && !is_or_continues(key, "crdt"@) && !is_or_continues(key, "ui-snapshot"@) ==> fate(
            declares(blank, key, rest),
            tag,
        ) is Stays && written_back(declares(blank, key, rest), tag) == declares(blank, key, rest),
{
    let comment = blank + seq!['#'] + rest;
    let k = blank.len() as int;
    assert(comment[k] == '#');
    assert forall|i: int| 0 <= i < k implies crate::text::white_space(#[trigger] comment[i]) by {
        assert(comment[i] == blank[i]);
    }
    lemma_trimmed_start_is(comment, k);
    assert(comment.skip(k)[0] == '#');
    if is_key(key) {
        law_the_key_is_read(blank, key, rest);
        law_four_families_are_ours(key);
    }
}

/// The changes that are told are the lines that are rewritten: one for each, by its
/// number counted from one, in order, with the line before and after less the white
/// space around it.
pub proof fn law_changes_tell_the_rewritten_lines(text: Seq<Seq<char>>, tag: Seq<char>, n: nat)
    requires
        n <= text.len(),
    ensures
        forall|c: int|
            0 <= c < changes_among(text, tag, n).len() ==> {
                let told = #[trigger] changes_among(text, tag, n)[c];
                let line = text[told.line_no - 1];
                &&& 1 <= told.line_no <= n
                &&& key_of(line) == Some(told.key)
                &&& told.before == crate::text::trimmed(line)
                &&& repointed(line, tag) is Some
                &&& told.after == crate::text::trimmed(repointed(line, tag)->0)
                &&& repointed(line, tag) != Some(line)
            },
        forall|c: int, d: int|
            0 <= c < d < changes_among(text, tag, n).len() ==> (#[trigger] changes_among(
                text,
                tag,
                n,
            )[c]).line_no < (#[trigger] changes_among(text, tag, n)[d]).line_no,
        forall|i: int|
            0 <= i < n ==> ((#[trigger] fate(text[i], tag)) is Becomes <==> exists|c: int|
                0 <= c < changes_among(text, tag, n).len() && (#[trigger] changes_among(
                    text,
                    tag,
                    n,
                )[c]).line_no == i + 1),
    decreases n,
{
    if n > 0 {
        law_changes_tell_the_rewritten_lines(text, tag, (n - 1) as nat);
        let before = changes_among(text, tag, (n - 1) as nat);
        let now = changes_among(text, tag, n);
        assert forall|c: int| 0 <= c < before.len() implies now[c] == #[trigger] before[c] by {}
        assert forall|c: int| 0 <= c < now.len() implies {
            let told = #[trigger] now[c];
            let line = text[told.line_no - 1];
            &&& 1 <= told.line_no <= n
            &&& key_of(line) == Some(told.key)
            &&& told.before == crate::text::trimmed(line)
            &&& repointed(line, tag) is Some
            &&& told.after == crate::text::trimmed(repointed(line, tag)->0)
            &&& repointed(line, tag) != Some(line)
        } by {
            if c < before.len() {
                assert(now[c] == before[c]);
            }
        }
        assert forall|c: int, d: int| 0 <= c < d < now.len() implies (#[trigger] now[c]).line_no < (
        #[trigger] now[d]).line_no by {
            assert(now[c] == before[c]);
            if d < before.len() {
                assert(now[d] == before[d]);
            }
        }
        assert forall|i: int| 0 <= i < n implies ((#[trigger] fate(text[i], tag)) is Becomes
            <==> exists|c: int| 0 <= c < now.len() && (#[trigger] now[c]).line_no == i + 1) by {
            if i < n - 1 {
                if fate(text[i], tag) is Becomes {
                    let c = choose|c: int|
                        0 <= c < before.len() && (#[trigger] before[c]).line_no == i + 1;
                    assert(now[c].line_no == i + 1);
                }
                if exists|c: int| 0 <= c < now.len() && (#[trigger] now[c]).line_no == i + 1 {
                    let c = choose|c: int|
                        0 <= c < now.len() && (#[trigger] now[c]).line_no == i + 1;
                    assert(c < before.len());
                    assert(before[c].line_no == i + 1);
                }
            } else {
                if fate(text[i], tag) is Becomes {
                    assert(now[now.len() - 1].line_no == i + 1);
                }
                if exists|c: int| 0 <= c < now.len() && (#[trigger] now[c]).line_no == i + 1 {
                    let c = choose|c: int|
                        0 <= c < now.len() && (#[trigger] now[c]).line_no == i + 1;
                    if c < before.len() {
                        assert(before[c].line_no <= n - 1);
                    }
                }
            }
        }
    }
}

/// The first line that is stuck is the one told about, if there is any.
pub proof fn law_the_first_stuck_line_is_told(text: Seq<Seq<char>>, tag: Seq<char>, from: int)
    requires
        0 <= from <= text.len(),
    ensures
        match first_stuck(text, tag, from) {
            Some(at) => from <= at < text.len() && fate(text[at], tag) is Stuck && forall|i: int|
                from <= i < at ==> fate(#[trigger] text[i], tag) !is Stuck,
            None => forall|i: int|
                from <= i < text.len() ==> fate(#[trigger] text[i], tag) !is Stuck,
        },
    decreases text.len() - from,
{
    if from < text.len() && fate(text[from], tag) !is Stuck {
        law_the_first_stuck_line_is_told(text, tag, from + 1);
    }
}

/// A line that is stuck is told by its file, its number and its key, and shown without the
/// white space around it.
pub proof fn law_a_stuck_line_is_told_by_its_place(
    path: Seq<char>,
    line_no: int,
    key: Seq<char>,
    a: Seq<char>,
    line: Seq<char>,
    b: Seq<char>,
)
    requires
        0 <= line_no,
        crate::text::blank(a),
        crate::text::blank(b),
        crate::text::trim_free(line),
    ensures
        crate::text::begins(
            stuck_message(path, line_no, key, a + line + b),
            path + seq![':'] + crate::text::decimal(line_no as nat) + seq![':', ' ', '`'] + key
                + seq!['`'],
        ),
        crate::text::ends(stuck_message(path, line_no, key, a + line + b), seq![' '] + line),
{
    crate::text::law_trimming_takes_the_white_space_around(a, line, b);
    let m = stuck_message(path, line_no, key, a + line + b);
    reveal_strlit(":");
    reveal_strlit(": `");
    reveal_strlit("` points at this repo but has neither `tag = \"…\"` nor `rev = \"…\"`; rewrite it by hand:\n  ");
    let head = path + seq![':'] + crate::text::decimal(line_no as nat) + seq![':', ' ', '`'] + key
        + seq!['`'];
    assert(m.subrange(0, head.len() as int) =~= head);
    let tail = seq![' '] + line;
    assert(m.subrange(m.len() - tail.len(), m.len() as int) =~= tail);
}

/// Every change is announced by its line, its key, and the line before and after.
pub proof fn law_every_change_is_announced(
    path: Seq<char>,
    tag: Seq<char>,
    v: Seq<ChangeModel>,
    dry_run: bool,
    i: int,
)
    requires
        0 <= i < v.len(),
    ensures
        crate::text::holds(
            announced(path, tag, v, dry_run),
            crate::text::decimal(v[i].line_no as nat) + "  "@ + v[i].key + "\n        - "@
                + v[i].before + "\n        + "@ + v[i].after + "\n"@,
        ),
        crate::text::begins(announced(path, tag, v, dry_run), path),
        announced(path, tag, v, true) == announced(path, tag, v, false) + crate::text::decimal(
            v.len(),
        ) + " line(s) would change (--dry-run)\n"@,
{
    let words = crate::text::decimal(v[i].line_no as nat) + "  "@ + v[i].key + "\n        - "@
        + v[i].before + "\n        + "@ + v[i].after + "\n"@;
    lemma_change_told(v, v.len(), i);
    let lines = change_lines(v, v.len());
    let last = if dry_run {
        crate::text::decimal(v.len()) + " line(s) would change (--dry-run)\n"@
    } else {
        Seq::empty()
    };
    crate::text::law_what_a_part_holds_the_whole_holds(path + "\n\n"@, lines, words);
    crate::text::law_what_a_part_holds_the_whole_holds(path + "\n\n"@ + lines, last, words);
    let whole = announced(path, tag, v, dry_run);
    assert(whole.subrange(0, path.len() as int) =~= path);
    assert(announced(path, tag, v, true) =~= announced(path, tag, v, false) + crate::text::decimal(
        v.len(),
    ) + " line(s) would change (--dry-run)\n"@);
}

proof fn lemma_change_told(v: Seq<ChangeModel>, n: nat, i: int)
    requires
        0 <= i < n <= v.len(),
    ensures
        crate::text::holds(
            change_lines(v, n),
            crate::text::decimal(v[i].line_no as nat) + "  "@ + v[i].key + "\n        - "@
                + v[i].before + "\n        + "@ + v[i].after + "\n"@,
        ),
    decreases n,
{
    let c = v[n - 1];
    let before = change_lines(v, (n - 1) as nat);
    let number = crate::text::decimal(c.line_no as nat);
    let padded = crate::text::padded_left(number, 4);
    let last = "  "@ + padded + "  "@ + c.key + "\n        - "@ + c.before + "\n        + "@
        + c.after + "\n\n"@;
    let words = crate::text::decimal(v[i].line_no as nat) + "  "@ + v[i].key + "\n        - "@
        + v[i].before + "\n        + "@ + v[i].after + "\n"@;
    if i < n - 1 {
        lemma_change_told(v, (n - 1) as nat, i);
        crate::text::law_what_a_part_holds_the_whole_holds(before, last, words);
    } else {
        crate::text::law_padding_fills_up_to_the_width(number, 4);
        let front = padded.take(padded.len() - number.len());
        assert(padded.subrange(padded.len() - number.len(), padded.len() as int) == number);
        assert(padded =~= front + number);
        lemma_gathered(padded, c.key, c.before, c.after);
        lemma_gathered(number, c.key, c.before, c.after);
        let rest = "  "@ + c.key + "\n        - "@ + c.before + "\n        + "@ + c.after;
        lemma_regrouped(before, front, number, rest);
        crate::text::law_what_a_part_holds_the_whole_holds(before + "  "@ + front, "\n"@, words);
    }
}

/// The words of a change, taken together.
proof fn lemma_gathered(number: Seq<char>, key: Seq<char>, was: Seq<char>, now: Seq<char>)
    ensures
        number + "  "@ + key + "\n        - "@ + was + "\n        + "@ + now + "\n"@ == number + ("  "@
            + key + "\n        - "@ + was + "\n        + "@ + now) + "\n"@,
        "  "@ + number + "  "@ + key + "\n        - "@ + was + "\n        + "@ + now + "\n\n"@ == "  "@
            + number + ("  "@ + key + "\n        - "@ + was + "\n        + "@ + now) + "\n\n"@,
{
    let a = "  "@;
    let b = "\n        - "@;
    let c = "\n        + "@;
    lemma_six(number, a, key, b, was, c, now);
    lemma_six("  "@ + number, a, key, b, was, c, now);
}

proof fn lemma_six(
    front: Seq<char>,
    a: Seq<char>,
    b: Seq<char>,
    c: Seq<char>,
    d: Seq<char>,
    e: Seq<char>,
    f: Seq<char>,
)
    ensures
        front + a + b + c + d + e + f == front + (a + b + c + d + e + f),
{
    assert(front + a + b =~= front + (a + b));
    assert(front + (a + b) + c =~= front + (a + b + c));
    assert(front + (a + b + c) + d =~= front + (a + b + c + d));
    assert(front + (a + b + c + d) + e =~= front + (a + b + c + d + e));
    assert(front + (a + b + c + d + e) + f =~= front + (a + b + c + d + e + f));
}

proof fn lemma_regrouped(before: Seq<char>, front: Seq<char>, number: Seq<char>, rest: Seq<char>)
    ensures
        before + ("  "@ + (front + number) + rest + "\n\n"@) == before + "  "@ + front + (number + rest
            + "\n"@) + "\n"@,
{
    reveal_strlit("\n\n");
    reveal_strlit("\n");
    assert("\n\n"@ =~= "\n"@ + "\n"@);
    assert(before + ("  "@ + (front + number) + rest + "\n\n"@) =~= before + "  "@ + front + (number
        + rest + "\n"@) + "\n"@);
}

/// Where nothing changes the file is said to be on the tag already; in the end the number
/// of lines is told, and the tag.
pub proof fn law_the_end_tells_how_many_lines(
    path: Seq<char>,
    tag: Seq<char>,
    dry_run: bool,
    changes: nat,
)
    ensures
        crate::text::begins(
            announced(path, tag, Seq::empty(), dry_run),
            path + ": already on "@ + tag,
        ),
        crate::text::begins(
            concluded(tag, changes),
            crate::text::decimal(changes) + " line(s) repointed to "@ + tag + seq!['.'],
        ),
{
    let said = announced(path, tag, Seq::empty(), dry_run);
    let head = path + ": already on "@ + tag;
    assert(said.subrange(0, head.len() as int) =~= head);
    reveal_strlit(". Run `cargo update -p architect` (or just `cargo check`) to refresh the lockfile.\n");
    let end = concluded(tag, changes);
    let first = crate::text::decimal(changes) + " line(s) repointed to "@ + tag + seq!['.'];
    assert(end.subrange(0, first.len() as int) =~= first);
}

/// A revision comes before a branch: where a line has no tag, its first revision is
/// replaced, and a branch beside it stays as it is.
pub proof fn law_a_revision_comes_before_a_branch(
    head: Seq<char>,
    value: Seq<char>,
    tail: Seq<char>,
    tag: Seq<char>,
)
    requires
        crate::text::free_of(value, '"'),
        forall|q: int|
            !#[trigger] crate::text::stands_at(
                pinned(head, "rev"@, value, tail),
                "tag = \""@,
                q,
            ),
        forall|q: int|
            q < head.len() ==> !#[trigger] crate::text::stands_at(
                pinned(head, "rev"@, value, tail),
                "rev = \""@,
                q,
            ),
    ensures
        repointed(pinned(head, "rev"@, value, tail), tag) == Some(
            head + "tag = \""@ + tag + "\""@ + tail,
        ),
{
    lemma_openings();
    let line = pinned(head, "rev"@, value, tail);
    let at = head.len() as int;
    let open = opening("rev"@);
    assert(line =~= head + open + value + "\""@ + tail);
    assert(line.subrange(at, at + open.len()) =~= open);
    assert(crate::text::stands_at(line, open, at));
    lemma_nowhere(line, opening("tag"@), 0);
    lemma_first_from_is(line, open, 0, at);
    let from = at + open.len();
    let end = from + value.len();
    assert(line[end] == '"');
    assert forall|j: int| from <= j < end implies line[j] != '"' by {
        assert(line[j] == value[j - from]);
    }
    lemma_first_char_is(line, '"', from, end);
    assert(line.take(at) =~= head);
    assert(line.skip(end + 1) =~= tail);
}

/// A tag whose quotes are never closed cannot be replaced.
pub proof fn law_an_open_end_cannot_be_replaced(
    head: Seq<char>,
    rest: Seq<char>,
    tag: Seq<char>,
)
    requires
        crate::text::free_of(rest, '"'),
        forall|q: int|
            q < head.len() ==> !#[trigger] crate::text::stands_at(
                head + "tag = \""@ + rest,
                "tag = \""@,
                q,
            ),
    ensures
        repointed(head + "tag = \""@ + rest, tag) is None,
{
    lemma_openings();
    let line = head + "tag = \""@ + rest;
    let at = head.len() as int;
    let open = opening("tag"@);
    assert(line.subrange(at, at + open.len()) =~= open);
    assert(crate::text::stands_at(line, open, at));
    lemma_first_from_is(line, open, 0, at);
    let from = at + open.len();
    crate::text::lemma_first_char(line, '"', from);
    if let Some(end) = crate::text::first_char(line, '"', from) {
        assert(line[end] == rest[end - from]);
    }
}

/// A line declares what stands before its first `=`, without the white space around it,
/// where that is one word without a dot; a comment and a line without `=` declare nothing.
pub proof fn law_only_one_plain_word_is_a_key(
    blank: Seq<char>,
    word: Seq<char>,
    gap: Seq<char>,
    rest: Seq<char>,
)
    requires
        crate::text::blank(blank),
        crate::text::blank(gap),
        word.len() > 0,
        crate::text::trim_free(word),
        word[0] != '#',
        crate::text::free_of(word, '='),
    ensures
        key_of(blank + word + gap + seq!['='] + rest) == if crate::text::has_white_space(word)
            || !crate::text::free_of(word, '.') {
            None
        } else {
            Some(word)
        },
        key_of(blank + word + gap) is None,
{
    let line = blank + word + gap + seq!['='] + rest;
    let front = word + gap;
    assert(!crate::text::white_space('='));
    assert(crate::text::free_of(front, '=')) by {
        assert forall|i: int| 0 <= i < front.len() implies front[i] != '=' by {
            if i < word.len() {
                assert(front[i] == word[i]);
            } else {
                assert(front[i] == gap[i - word.len()]);
            }
        }
    }
    let k = blank.len() as int;
    assert(line[k] == word[0]);
    assert forall|i: int| 0 <= i < k implies crate::text::white_space(#[trigger] line[i]) by {
        assert(line[i] == blank[i]);
    }
    lemma_trimmed_start_is(line, k);
    let t = line.skip(k);
    assert(t =~= front + seq!['='] + rest);
    assert(t[0] == word[0]);
    crate::text::law_a_text_is_cut_at_the_first(front, rest, '=');
    let nothing = Seq::<char>::empty();
    assert(nothing + word + gap =~= front);
    crate::text::law_trimming_takes_the_white_space_around(nothing, word, gap);
    let bare = blank + word + gap;
    assert(bare[k] == word[0]);
    assert forall|i: int| 0 <= i < k implies crate::text::white_space(#[trigger] bare[i]) by {
        assert(bare[i] == blank[i]);
    }
    lemma_trimmed_start_is(bare, k);
    assert(bare.skip(k) =~= front);
}

} // verus!
