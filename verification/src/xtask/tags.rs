//! The release-tag ordering guard.
//!
//! Other repos pin this one by tag, and the only useful question they ask of a
//! tag is whether they are ahead of or behind another repo. That has an answer
//! only if the numbers order the commits the way the graph does: every release
//! tag must be a descendant of every lower-numbered one.

use crate::text::{cat, cat3, chars_of, copy, decimal_of, first_bytes, pad_right, same, string_of};
use crate::xtask::git::{Tag, Version};
use vstd::prelude::*;

verus! {

/// The one tag whose number does not match its place in history.
pub const GRANDFATHERED: &'static str = "v0.0.2";

/// Why it is kept.
pub const GRANDFATHERED_WHY: &'static str =
    "Numbered before the v0.1.0 line but cut from a commit between v0.5.0 and v0.6.0. `signal` pins it. Retire by re-pinning signal to a correctly-numbered tag for the same commit, then deleting this.";

// ---------------------------------------------------------------------------
// The listing
// ---------------------------------------------------------------------------

/// `s`, or as much of it as leaves room for an ellipsis within `max` characters.
pub open spec fn truncated(s: Seq<char>, max: int) -> Seq<char> {
    if s.len() <= max {
        s
    } else if max == 0 {
        seq!['…']
    } else {
        s.take(max - 1).push('…')
    }
}

pub fn truncate(s: &str, max: usize) -> (res: String)
    ensures
        res@ == truncated(s@, max as int),
{
    let cs: Vec<char> = chars_of(s);
    if cs.len() <= max {
        return s.to_owned();
    }
    let keep: usize = if max == 0 {
        0
    } else {
        max - 1
    };
    let mut head: String = string_of(&cs, 0, keep);
    head.push('…');
    assert(head@ =~= truncated(s@, max as int));
    head
}

/// One line of the listing: name, short commit, day and subject.
pub open spec fn listing_line(tag: crate::xtask::git::TagModel) -> Seq<char> {
    "  "@ + crate::text::padded_right(tag.name, 10) + " "@ + crate::text::byte_prefix(tag.commit, 8)
        + "  "@ + crate::text::byte_prefix(tag.date, 10) + "  "@ + truncated(tag.subject, 52)
        + "\n"@
}

/// The lines for the first `n` tags.
pub open spec fn listing_lines(tags: Seq<Tag>, n: nat) -> Seq<char>
    decreases n,
{
    if n == 0 {
        Seq::empty()
    } else {
        listing_lines(tags, (n - 1) as nat) + listing_line(tags[n - 1].model())
    }
}

/// The listing, with its heading.
pub open spec fn listing(tags: Seq<Tag>) -> Seq<char> {
    "release tags, in semver order:\n\n"@ + listing_lines(tags, tags.len()) + "\n"@
}

fn list(tags: &Vec<Tag>) -> (res: String)
    ensures
        res@ == listing(tags@),
{
    let mut out: String = "release tags, in semver order:\n\n".to_owned();
    let ghost heading = out@;
    let mut i: usize = 0;
    assert(heading + listing_lines(tags@, 0) =~= heading);
    while i < tags.len()
        invariant
            i <= tags@.len(),
            heading == "release tags, in semver order:\n\n"@,
            out@ == heading + listing_lines(tags@, i as nat),
        decreases tags@.len() - i,
    {
        let tag: &Tag = &tags[i];
        let mut line: String = cat3("  ", pad_right(tag.name.as_str(), 10).as_str(), " ");
        line.append(first_bytes(tag.commit.as_str(), 8).as_str());
        line.append("  ");
        line.append(first_bytes(tag.date.as_str(), 10).as_str());
        line.append("  ");
        line.append(truncate(tag.subject.as_str(), 52).as_str());
        line.append("\n");
        assert(line@ == listing_line(tags@[i as int].model()));
        out.append(line.as_str());
        i = i + 1;
        assert(out@ =~= heading + listing_lines(tags@, i as nat));
    }
    out.append("\n");
    out
}

// ---------------------------------------------------------------------------
// The verdict
// ---------------------------------------------------------------------------

/// The first tag from `from` on that does not descend from tag `i`:
/// `descends[i][j]` says whether tag `j` descends from tag `i`.
pub open spec fn first_stray(descends: Seq<Vec<bool>>, i: int, from: int) -> Option<int>
    decreases descends.len() - from,
{
    if from >= descends.len() {
        None
    } else if !descends[i]@[from] {
        Some(from)
    } else {
        first_stray(descends, i, from + 1)
    }
}

/// The first higher-numbered tag that does not descend from tag `i`.
pub open spec fn stray(descends: Seq<Vec<bool>>, i: int) -> Option<int> {
    first_stray(descends, i, i + 1)
}

/// Whether a tag is excused from the order.
pub open spec fn excused(tag: Tag) -> bool {
    tag.name@ == GRANDFATHERED@
}

/// Whether every tag strictly between the two is an ancestor of tag `j` or
/// excused: then nothing closer to `j` is out of order with it.
pub open spec fn nearest(tags: Seq<Tag>, descends: Seq<Vec<bool>>, i: int, j: int) -> bool {
    forall|k: int| i < k < j ==> (#[trigger] descends[k]@[j]) || excused(tags[k])
}

/// The higher-numbered tag that tag `i` is reported to be out of order with: the
/// first that does not descend from it, unless tag `i` is excused or a tag between
/// the two is out of order with that one as well, and so is reported itself.
pub open spec fn reported(tags: Seq<Tag>, descends: Seq<Vec<bool>>, i: int) -> Option<int> {
    match stray(descends, i) {
        Some(j) => if !excused(tags[i]) && nearest(tags, descends, i, j) {
            Some(j)
        } else {
            None
        },
        None => None,
    }
}

/// The reported ones of the first `n` tags, each with the tag it is out of order
/// with.
pub open spec fn breaking(tags: Seq<Tag>, descends: Seq<Vec<bool>>, n: nat) -> Seq<(int, int)>
    decreases n,
{
    if n == 0 {
        Seq::empty()
    } else {
        let before = breaking(tags, descends, (n - 1) as nat);
        match reported(tags, descends, n - 1) {
            Some(j) => before.push((n - 1, j)),
            None => before,
        }
    }
}

/// A list of pairs, in the mathematical model.
pub open spec fn pairs(v: Seq<(usize, usize)>) -> Seq<(int, int)> {
    Seq::new(v.len(), |i: int| (v[i].0 as int, v[i].1 as int))
}

/// An answer for each two tags.
pub open spec fn is_table(tags: Seq<Tag>, descends: Seq<Vec<bool>>) -> bool {
    &&& descends.len() == tags.len()
    &&& forall|i: int| 0 <= i < descends.len() ==> (#[trigger] descends[i])@.len() == tags.len()
}

proof fn lemma_first_stray(descends: Seq<Vec<bool>>, i: int, from: int)
    requires
        0 <= from,
    ensures
        match first_stray(descends, i, from) {
            Some(j) => from <= j < descends.len() && !descends[i]@[j] && forall|k: int|
                from <= k < j ==> #[trigger] descends[i]@[k],
            None => forall|k: int| from <= k < descends.len() ==> #[trigger] descends[i]@[k],
        },
    decreases descends.len() - from,
{
    if from < descends.len() && descends[i]@[from] {
        lemma_first_stray(descends, i, from + 1);
    }
}

fn find_stray(tags: &Vec<Tag>, descends: &Vec<Vec<bool>>, i: usize) -> (res: Option<usize>)
    requires
        is_table(tags@, descends@),
        i < tags@.len(),
    ensures
        crate::text::as_place(res) == stray(descends@, i as int),
        res matches Some(j) ==> i < j < tags@.len(),
{
    let count: usize = tags.len();
    let mut j: usize = i;
    while j < count - 1
        invariant
            is_table(tags@, descends@),
            count == tags@.len(),
            i <= j < count,
            stray(descends@, i as int) == first_stray(descends@, i as int, j + 1),
        decreases count - j,
    {
        j = j + 1;
        assert(descends@[i as int]@.len() == tags@.len());
        if !descends[i][j] {
            return Some(j);
        }
    }
    None
}

fn is_nearest(tags: &Vec<Tag>, descends: &Vec<Vec<bool>>, i: usize, j: usize) -> (res: bool)
    requires
        is_table(tags@, descends@),
        i < j < tags@.len(),
    ensures
        res == nearest(tags@, descends@, i as int, j as int),
{
    let mut k: usize = i + 1;
    while k < j
        invariant
            is_table(tags@, descends@),
            i < k <= j < tags@.len(),
            forall|m: int|
                i < m < k ==> (#[trigger] descends@[m]@[j as int]) || excused(tags@[m]),
        decreases j - k,
    {
        assert(descends@[k as int]@.len() == tags@.len());
        if !descends[k][j] && !same(tags[k].name.as_str(), GRANDFATHERED) {
            assert(!descends@[k as int]@[j as int]);
            return false;
        }
        k = k + 1;
    }
    true
}

/// The tags that are out of order, lowest first, each with the higher-numbered tag
/// that does not descend from it.
pub fn violations(tags: &Vec<Tag>, descends: &Vec<Vec<bool>>) -> (res: Vec<(usize, usize)>)
    requires
        is_table(tags@, descends@),
    ensures
        pairs(res@) == breaking(tags@, descends@, tags@.len()),
        forall|i: int|
            0 <= i < res@.len() ==> (#[trigger] res@[i]).0 < tags@.len() && res@[i].1 < tags@.len(),
{
    let mut out: Vec<(usize, usize)> = Vec::new();
    let mut i: usize = 0;
    assert(pairs(out@) =~= breaking(tags@, descends@, 0));
    while i < tags.len()
        invariant
            i <= tags@.len(),
            is_table(tags@, descends@),
            pairs(out@) == breaking(tags@, descends@, i as nat),
            forall|k: int|
                0 <= k < out@.len() ==> (#[trigger] out@[k]).0 < tags@.len() && out@[k].1
                    < tags@.len(),
        decreases tags@.len() - i,
    {
        let ghost before = pairs(out@);
        match find_stray(tags, descends, i) {
            Some(j) => {
                if !same(tags[i].name.as_str(), GRANDFATHERED) && is_nearest(tags, descends, i, j) {
                    out.push((i, j));
                    assert(pairs(out@) =~= before.push((i as int, j as int)));
                }
            },
            None => {},
        }
        i = i + 1;
    }
    out
}

proof fn lemma_some_report(tags: Seq<Tag>, descends: Seq<Vec<bool>>, i: int, j: int) -> (m: int)
    requires
        0 <= i < j < descends.len(),
        !descends[i]@[j],
        !excused(tags[i]),
    ensures
        i <= m < descends.len(),
        reported(tags, descends, m) is Some,
    decreases descends.len() - i,
{
    lemma_first_stray(descends, i, i + 1);
    let first = stray(descends, i)->0;
    if nearest(tags, descends, i, first) {
        i
    } else {
        let k = choose|k: int| i < k < first && !(#[trigger] descends[k]@[first]) && !excused(tags[k]);
        lemma_some_report(tags, descends, k, first)
    }
}

proof fn lemma_reports(tags: Seq<Tag>, descends: Seq<Vec<bool>>, n: nat)
    ensures
        breaking(tags, descends, n).len() == 0 <==> forall|i: int|
            0 <= i < n ==> (#[trigger] reported(tags, descends, i)) is None,
    decreases n,
{
    if n > 0 {
        lemma_reports(tags, descends, (n - 1) as nat);
        assert(reported(tags, descends, n - 1) is None || reported(tags, descends, n - 1) is Some);
    }
}

proof fn lemma_breaking(tags: Seq<Tag>, descends: Seq<Vec<bool>>)
    ensures
        breaking(tags, descends, descends.len()).len() == 0 <==> forall|i: int, j: int|
            0 <= i < j < descends.len() ==> (#[trigger] descends[i]@[j]) || excused(tags[i]),
{
    lemma_reports(tags, descends, descends.len());
    if forall|i: int|
        0 <= i < descends.len() ==> (#[trigger] reported(tags, descends, i)) is None {
        assert forall|i: int, j: int| 0 <= i < j < descends.len() implies (
        #[trigger] descends[i]@[j]) || excused(tags[i]) by {
            if !descends[i]@[j] && !excused(tags[i]) {
                let m = lemma_some_report(tags, descends, i, j);
                assert(reported(tags, descends, m) is None);
            }
        }
    } else {
        let m = choose|m: int|
            0 <= m < descends.len() && (#[trigger] reported(tags, descends, m)) is Some;
        lemma_first_stray(descends, m, m + 1);
        assert(!descends[m]@[stray(descends, m)->0]);
    }
}

/// A version, or none, comes before another: none comes before any.
pub open spec fn lower(a: Option<Version>, b: Option<Version>) -> bool {
    match (a, b) {
        (Some(x), Some(y)) => x.below(y),
        (None, Some(_)) => true,
        _ => false,
    }
}

/// Whether tag `i` may be where `tag` belongs: another tag, and an ancestor.
pub open spec fn qualifies(tags: Seq<Tag>, tag: Seq<char>, ancestors: Seq<bool>, i: int) -> bool {
    tags[i].name@ != tag && ancestors[i]
}

/// The highest-numbered of the first `n` tags that qualifies, the earliest among
/// equals.
pub open spec fn highest(tags: Seq<Tag>, tag: Seq<char>, ancestors: Seq<bool>, n: nat) -> Option<
    int,
>
    decreases n,
{
    if n == 0 {
        None
    } else {
        let before = highest(tags, tag, ancestors, (n - 1) as nat);
        if !qualifies(tags, tag, ancestors, n - 1) {
            before
        } else {
            match before {
                None => Some(n - 1),
                Some(b) => if lower(
                    crate::xtask::git::version_of(tags[b].name@),
                    crate::xtask::git::version_of(tags[n - 1].name@),
                ) {
                    Some(n - 1)
                } else {
                    before
                },
            }
        }
    }
}

fn is_lower(a: &Option<Version>, b: &Option<Version>) -> (res: bool)
    ensures
        res == lower(*a, *b),
{
    match (a, b) {
        (Some(x), Some(y)) => x.is_below(y),
        (None, Some(_)) => true,
        _ => false,
    }
}

/// The highest-numbered tag that is an ancestor of `tag`, which is where it
/// really belongs: `ancestors[i]` says whether tag `i` is one.
pub fn suggest_placement(tags: &Vec<Tag>, tag: &Tag, ancestors: &Vec<bool>) -> (res: Option<String>)
    requires
        ancestors@.len() == tags@.len(),
    ensures
        match highest(tags@, tag.name@, ancestors@, tags@.len()) {
            Some(i) => res matches Some(name) && name@ == tags@[i].name@,
            None => res is None,
        },
{
    let mut best: Option<usize> = None;
    let mut i: usize = 0;
    while i < tags.len()
        invariant
            i <= tags@.len(),
            ancestors@.len() == tags@.len(),
            crate::text::as_place(best) == highest(tags@, tag.name@, ancestors@, i as nat),
            best matches Some(b) ==> b < i,
        decreases tags@.len() - i,
    {
        if !same(tags[i].name.as_str(), tag.name.as_str()) && ancestors[i] {
            let better: bool = match best {
                None => true,
                Some(b) => is_lower(
                    &Version::parse(tags[b].name.as_str()),
                    &Version::parse(tags[i].name.as_str()),
                ),
            };
            if better {
                best = Some(i);
            }
        }
        i = i + 1;
    }
    match best {
        Some(b) => Some(copy(&tags[b].name)),
        None => None,
    }
}

// ---------------------------------------------------------------------------
// The report
// ---------------------------------------------------------------------------

/// A notice for each of the first `n` tags that is excused though the next one does
/// not descend from it.
pub open spec fn excuses(tags: Seq<Tag>, descends: Seq<Vec<bool>>, n: nat) -> Seq<char>
    decreases n,
{
    if n == 0 {
        Seq::empty()
    } else {
        let before = excuses(tags, descends, (n - 1) as nat);
        if n < tags.len() && !descends[n - 1]@[n as int] && excused(tags[n - 1]) {
            before + ("grandfathered: "@ + tags[n - 1].name@ + " — "@ + GRANDFATHERED_WHY@
                + "\n\n"@)
        } else {
            before
        }
    }
}

/// What is said of a tag that another does not descend from, and where it belongs
/// where that is known.
pub open spec fn complaint(a: Tag, b: Tag, placement: Option<Seq<char>>) -> Seq<char> {
    "\n  "@ + a.name@ + " is numbered below "@ + b.name@
        + ", but its commit is NOT an ancestor of it.\n    "@ + a.name@ + "  "@ + a.date@
        + "\n    "@ + b.name@ + "  "@ + b.date@ + "\n"@ + (match placement {
        Some(p) => "    `"@ + a.name@ + "`'s commit really sits just after `"@ + p + "`.\n"@,
        None => Seq::empty(),
    })
}

/// Which tags are ancestors of tag `i`.
pub open spec fn ancestry(descends: Seq<Vec<bool>>, i: int) -> Seq<bool> {
    Seq::new(descends.len(), |k: int| descends[k]@[i])
}

/// The name of the tag that tag `i` belongs after.
pub open spec fn placement(tags: Seq<Tag>, descends: Seq<Vec<bool>>, i: int) -> Option<Seq<char>> {
    match highest(tags, tags[i].name@, ancestry(descends, i), tags.len()) {
        Some(k) => Some(tags[k].name@),
        None => None,
    }
}

/// The complaints about the first `n` broken pairs.
pub open spec fn complaints(
    tags: Seq<Tag>,
    descends: Seq<Vec<bool>>,
    broken: Seq<(int, int)>,
    n: nat,
) -> Seq<char>
    decreases n,
{
    if n == 0 {
        Seq::empty()
    } else {
        complaints(tags, descends, broken, (n - 1) as nat) + complaint(
            tags[broken[n - 1].0],
            tags[broken[n - 1].1],
            placement(tags, descends, broken[n - 1].0),
        )
    }
}

pub open spec fn advice() -> Seq<char> {
    "\nA tag is the only thing a consuming repo can reason about. Cut a new\ncorrectly-numbered tag rather than moving or renumbering a published one,\nand re-pin the consumers with `cargo xtask fleet-bump`.\n"@
}

/// What the guard prints, and how it ends.
pub struct Report {
    pub printed: String,
    pub result: Result<(), String>,
}

/// What is printed, given which tags descend from which.
pub open spec fn printed(verbose: bool, tags: Seq<Tag>, descends: Seq<Vec<bool>>) -> Seq<char> {
    if tags.len() == 0 {
        "no `vX.Y.Z` release tags found\n"@
    } else {
        (if verbose {
            listing(tags)
        } else {
            Seq::empty()
        }) + excuses(tags, descends, tags.len()) + (if breaking(tags, descends, tags.len()).len()
            == 0 {
            "ok: "@ + crate::text::decimal((tags.len() - 1) as nat)
                + " tag transition(s) are monotonic in history\n"@
        } else {
            Seq::empty()
        })
    }
}

/// What is complained of.
pub open spec fn complained(tags: Seq<Tag>, descends: Seq<Vec<bool>>) -> Seq<char> {
    let broken = breaking(tags, descends, tags.len());
    "release tags are out of order:\n"@ + complaints(tags, descends, broken, broken.len())
        + advice()
}

fn excuse(tags: &Vec<Tag>, descends: &Vec<Vec<bool>>) -> (out: String)
    requires
        is_table(tags@, descends@),
    ensures
        out@ == excuses(tags@, descends@, tags@.len()),
{
    let mut out: String = String::new();
    let mut i: usize = 0;
    while i < tags.len()
        invariant
            i <= tags@.len(),
            is_table(tags@, descends@),
            out@ == excuses(tags@, descends@, i as nat),
        decreases tags@.len() - i,
    {
        assert(descends@[i as int]@.len() == tags@.len());
        if i < tags.len() - 1 && !descends[i][i + 1] && same(tags[i].name.as_str(), GRANDFATHERED) {
            let mut line: String = cat3("grandfathered: ", tags[i].name.as_str(), " — ");
            line.append(GRANDFATHERED_WHY);
            line.append("\n\n");
            out.append(line.as_str());
        }
        i = i + 1;
    }
    out
}

/// Where tag `i` really belongs.
fn place_of(tags: &Vec<Tag>, descends: &Vec<Vec<bool>>, i: usize) -> (res: Option<String>)
    requires
        is_table(tags@, descends@),
        i < tags@.len(),
    ensures
        crate::text::opt_view(res) == placement(tags@, descends@, i as int),
{
    let mut ancestors: Vec<bool> = Vec::new();
    let mut k: usize = 0;
    while k < descends.len()
        invariant
            is_table(tags@, descends@),
            i < tags@.len(),
            k <= descends@.len(),
            ancestors@ == ancestry(descends@, i as int).take(k as int),
        decreases descends@.len() - k,
    {
        assert(descends@[k as int]@.len() == tags@.len());
        ancestors.push(descends[k][i]);
        k = k + 1;
        assert(ancestors@ =~= ancestry(descends@, i as int).take(k as int));
    }
    assert(ancestors@ =~= ancestry(descends@, i as int));
    suggest_placement(tags, &tags[i], &ancestors)
}

fn complain(a: &Tag, b: &Tag, placement: &Option<String>) -> (out: String)
    ensures
        out@ == complaint(*a, *b, crate::text::opt_view(*placement)),
{
    let mut out: String = cat3("\n  ", a.name.as_str(), " is numbered below ");
    out.append(b.name.as_str());
    out.append(", but its commit is NOT an ancestor of it.\n    ");
    out.append(a.name.as_str());
    out.append("  ");
    out.append(a.date.as_str());
    out.append("\n    ");
    out.append(b.name.as_str());
    out.append("  ");
    out.append(b.date.as_str());
    out.append("\n");
    match placement {
        Some(p) => {
            let mut hint: String = cat3("    `", a.name.as_str(), "`'s commit really sits just after `");
            hint.append(p.as_str());
            hint.append("`.\n");
            out.append(hint.as_str());
        },
        None => {},
    }
    assert(out@ =~= complaint(*a, *b, crate::text::opt_view(*placement)));
    out
}

/// The ordering report over release tags in version order: `descends[i][j]` says
/// whether tag `j` descends from tag `i`. Every tag must descend from every
/// lower-numbered one that is not excused, and where one does not, that is an
/// error.
pub fn run(verbose: bool, tags: &Vec<Tag>, descends: &Vec<Vec<bool>>) -> (res: Report)
    requires
        is_table(tags@, descends@),
    ensures
        res.printed@ == printed(verbose, tags@, descends@),
        res.result is Ok <==> forall|i: int, j: int|
            0 <= i < j < tags@.len() ==> (#[trigger] descends@[i]@[j]) || tags@[i].name@
                == GRANDFATHERED@,
        res.result matches Err(e) ==> e@ == complained(tags@, descends@),
{
    proof {
        lemma_breaking(tags@, descends@);
    }
    if tags.len() == 0 {
        return Report {
            printed: "no `vX.Y.Z` release tags found\n".to_owned(),
            result: Ok(()),
        };
    }
    let mut out: String = if verbose {
        list(tags)
    } else {
        String::new()
    };
    out.append(excuse(tags, descends).as_str());
    let broken: Vec<(usize, usize)> = violations(tags, descends);
    let ghost all = breaking(tags@, descends@, tags@.len());
    if broken.len() == 0 {
        let mut line: String = cat("ok: ", decimal_of((tags.len() - 1) as u64).as_str());
        line.append(" tag transition(s) are monotonic in history\n");
        out.append(line.as_str());
        assert(out@ =~= printed(verbose, tags@, descends@));
        return Report { printed: out, result: Ok(()) };
    }
    assert(all.len() == broken@.len());
    assert(out@ =~= printed(verbose, tags@, descends@));
    let mut message: String = "release tags are out of order:\n".to_owned();
    let ghost heading = message@;
    let mut i: usize = 0;
    assert(heading + complaints(tags@, descends@, all, 0) =~= heading);
    while i < broken.len()
        invariant
            i <= broken@.len(),
            is_table(tags@, descends@),
            pairs(broken@) == all,
            forall|j: int|
                0 <= j < broken@.len() ==> (#[trigger] broken@[j]).0 < tags@.len() && broken@[j].1
                    < tags@.len(),
            heading == "release tags are out of order:\n"@,
            message@ == heading + complaints(tags@, descends@, all, i as nat),
        decreases broken@.len() - i,
    {
        let (low, high): (usize, usize) = broken[i];
        assert(all[i as int] == (low as int, high as int));
        let place: Option<String> = place_of(tags, descends, low);
        message.append(complain(&tags[low], &tags[high], &place).as_str());
        i = i + 1;
        assert(message@ =~= heading + complaints(tags@, descends@, all, i as nat));
    }
    message.append(
        "\nA tag is the only thing a consuming repo can reason about. Cut a new\ncorrectly-numbered tag rather than moving or renumbering a published one,\nand re-pin the consumers with `cargo xtask fleet-bump`.\n",
    );
    Report { printed: out, result: Err(message) }
}

// ---------------------------------------------------------------------------
// Laws
// ---------------------------------------------------------------------------

proof fn lemma_highest(tags: Seq<Tag>, tag: Seq<char>, ancestors: Seq<bool>, n: nat)
    ensures
        match highest(tags, tag, ancestors, n) {
            Some(b) => 0 <= b < n && qualifies(tags, tag, ancestors, b) && forall|i: int|
                0 <= i < n && qualifies(tags, tag, ancestors, i) ==> !lower(
                    crate::xtask::git::version_of(tags[b].name@),
                    crate::xtask::git::version_of((#[trigger] tags[i]).name@),
                ),
            None => forall|i: int| 0 <= i < n ==> !#[trigger] qualifies(tags, tag, ancestors, i),
        },
    decreases n,
{
    if n > 0 {
        lemma_highest(tags, tag, ancestors, (n - 1) as nat);
    }
}

/// The suggested place is an ancestor of the tag, and no ancestor is numbered
/// higher; there is none exactly where the tag has no ancestor among the others.
pub proof fn law_the_suggestion_is_the_highest_ancestor(
    tags: Seq<Tag>,
    tag: Seq<char>,
    ancestors: Seq<bool>,
)
    ensures
        match highest(tags, tag, ancestors, tags.len()) {
            Some(b) => 0 <= b < tags.len() && qualifies(tags, tag, ancestors, b) && forall|i: int|
                0 <= i < tags.len() && qualifies(tags, tag, ancestors, i) ==> !lower(
                    crate::xtask::git::version_of(tags[b].name@),
                    crate::xtask::git::version_of((#[trigger] tags[i]).name@),
                ),
            None => forall|i: int|
                0 <= i < tags.len() ==> !#[trigger] qualifies(tags, tag, ancestors, i),
        },
{
    lemma_highest(tags, tag, ancestors, tags.len());
}

/// A subject is told in full where it fits, and else cut short with an ellipsis.
pub proof fn law_a_long_subject_is_cut_short(s: Seq<char>, max: int)
    requires
        0 < max,
    ensures
        truncated(s, max).len() <= max,
        s.len() <= max ==> truncated(s, max) == s,
        s.len() > max ==> truncated(s, max).len() == max && truncated(s, max).last() == '…'
            && truncated(s, max).drop_last() == s.take(max - 1),
{
    if s.len() > max {
        assert(truncated(s, max).drop_last() =~= s.take(max - 1));
    }
}

/// What is reported is out of order: the lower tag is not excused, and is no
/// ancestor of the higher one; each tag is reported once at most, lowest first.
pub proof fn law_what_is_reported_is_out_of_order(
    tags: Seq<Tag>,
    descends: Seq<Vec<bool>>,
    n: nat,
)
    requires
        n <= descends.len(),
    ensures
        forall|b: int|
            0 <= b < breaking(tags, descends, n).len() ==> {
                let pair = #[trigger] breaking(tags, descends, n)[b];
                &&& 0 <= pair.0 < n
                &&& pair.0 < pair.1 < descends.len()
                &&& !descends[pair.0]@[pair.1]
                &&& tags[pair.0].name@ != "v0.0.2"@
                &&& forall|k: int|
                    pair.0 < k < pair.1 ==> #[trigger] descends[pair.0]@[k] && (
                    descends[k]@[pair.1] || tags[k].name@ == "v0.0.2"@)
            },
        forall|b: int, c: int|
            0 <= b < c < breaking(tags, descends, n).len() ==> (#[trigger] breaking(
                tags,
                descends,
                n,
            )[b]).0 < (#[trigger] breaking(tags, descends, n)[c]).0,
    decreases n,
{
    if n > 0 {
        law_what_is_reported_is_out_of_order(tags, descends, (n - 1) as nat);
        lemma_first_stray(descends, n - 1, n as int);
        let before = breaking(tags, descends, (n - 1) as nat);
        let now = breaking(tags, descends, n);
        assert forall|b: int| 0 <= b < now.len() implies {
            let pair = #[trigger] now[b];
            &&& 0 <= pair.0 < n
            &&& pair.0 < pair.1 < descends.len()
            &&& !descends[pair.0]@[pair.1]
            &&& tags[pair.0].name@ != "v0.0.2"@
            &&& forall|k: int|
                pair.0 < k < pair.1 ==> #[trigger] descends[pair.0]@[k] && (descends[k]@[pair.1]
                    || tags[k].name@ == "v0.0.2"@)
        } by {
            if b < before.len() {
                assert(now[b] == before[b]);
            } else {
                let pair = now[b];
                assert(nearest(tags, descends, pair.0, pair.1));
                assert forall|k: int| pair.0 < k < pair.1 implies #[trigger] descends[pair.0]@[k]
                    && (descends[k]@[pair.1] || tags[k].name@ == "v0.0.2"@) by {
                    assert(descends[k]@[pair.1] || excused(tags[k]));
                }
            }
        }
        assert forall|b: int, c: int| 0 <= b < c < now.len() implies (#[trigger] now[b]).0 < (
        #[trigger] now[c]).0 by {
            assert(now[b] == before[b]);
            if c < before.len() {
                assert(now[c] == before[c]);
            }
        }
    }
}

/// Where a tag is said to belong: behind another tag that is an ancestor of it, and
/// than which no other ancestor has a higher version.
pub proof fn law_a_tag_belongs_behind_its_highest_ancestor(
    tags: Seq<Tag>,
    descends: Seq<Vec<bool>>,
    i: int,
)
    requires
        is_table(tags, descends),
        0 <= i < tags.len(),
    ensures
        match placement(tags, descends, i) {
            Some(name) => exists|b: int|
                {
                    &&& 0 <= b < tags.len()
                    &&& (#[trigger] tags[b]).name@ == name
                    &&& name != tags[i].name@
                    &&& descends[b]@[i]
                    &&& forall|k: int|
                        0 <= k < tags.len() && (#[trigger] tags[k]).name@ != tags[i].name@
                            && descends[k]@[i] ==> match (
                            crate::xtask::git::version_of(name),
                            crate::xtask::git::version_of(tags[k].name@),
                        ) {
                            (Some(x), Some(y)) => !x.below(y),
                            (None, Some(_)) => false,
                            _ => true,
                        }
                },
            None => forall|k: int|
                0 <= k < tags.len() && (#[trigger] tags[k]).name@ != tags[i].name@
                    ==> !descends[k]@[i],
        },
{
    let ancestors = ancestry(descends, i);
    law_the_suggestion_is_the_highest_ancestor(tags, tags[i].name@, ancestors);
    assert forall|k: int| 0 <= k < tags.len() implies (#[trigger] qualifies(
        tags,
        tags[i].name@,
        ancestors,
        k,
    ) <==> tags[k].name@ != tags[i].name@ && descends[k]@[i]) by {}
    match highest(tags, tags[i].name@, ancestors, tags.len()) {
        Some(b) => {
            assert(qualifies(tags, tags[i].name@, ancestors, b));
            assert(tags[b].name@ == placement(tags, descends, i)->0);
            assert forall|k: int|
                0 <= k < tags.len() && (#[trigger] tags[k]).name@ != tags[i].name@
                    && descends[k]@[i] implies match (
                crate::xtask::git::version_of(tags[b].name@),
                crate::xtask::git::version_of(tags[k].name@),
            ) {
                (Some(x), Some(y)) => !x.below(y),
                (None, Some(_)) => false,
                _ => true,
            } by {
                assert(qualifies(tags, tags[i].name@, ancestors, k));
            }
        },
        None => {
            assert forall|k: int|
                0 <= k < tags.len() && (#[trigger] tags[k]).name@ != tags[i].name@ implies
                !descends[k]@[i] by {
                assert(!qualifies(tags, tags[i].name@, ancestors, k));
            }
        },
    }
}

/// Every pair that is reported is told of in words, in the order of the pairs.
pub proof fn law_every_report_is_told(
    tags: Seq<Tag>,
    descends: Seq<Vec<bool>>,
    broken: Seq<(int, int)>,
    n: nat,
    b: int,
)
    requires
        0 <= b < n <= broken.len(),
    ensures
        crate::text::holds(
            complaints(tags, descends, broken, n),
            tags[broken[b].0].name@ + " is numbered below "@ + tags[broken[b].1].name@
                + ", but its commit is NOT an ancestor of it."@,
        ),
    decreases n,
{
    let before = complaints(tags, descends, broken, (n - 1) as nat);
    let now = complaints(tags, descends, broken, n);
    let words = tags[broken[b].0].name@ + " is numbered below "@ + tags[broken[b].1].name@
        + ", but its commit is NOT an ancestor of it."@;
    if b < n - 1 {
        law_every_report_is_told(tags, descends, broken, (n - 1) as nat, b);
        let at = choose|at: int| crate::text::stands_at(before, words, at);
        assert(now.subrange(at, at + words.len()) =~= before.subrange(at, at + words.len()));
        assert(crate::text::stands_at(now, words, at));
    } else {
        reveal_strlit("\n  ");
        reveal_strlit(", but its commit is NOT an ancestor of it.\n    ");
        reveal_strlit(", but its commit is NOT an ancestor of it.");
        let at = before.len() as int + 3;
        assert(", but its commit is NOT an ancestor of it.\n    "@.take(42)
            =~= ", but its commit is NOT an ancestor of it."@);
        assert(now.subrange(at, at + words.len()) =~= words);
        assert(crate::text::stands_at(now, words, at));
    }
}

/// A listed tag stands in columns: the name, eight characters of the commit, the day, and
/// the subject, cut short where it has more than fifty-two.
pub proof fn law_a_tag_is_listed_in_columns(tag: crate::xtask::git::TagModel)
    requires
        tag.name.len() <= 10,
        crate::text::all_ascii(tag.commit),
        tag.commit.len() >= 8,
        crate::text::all_ascii(tag.date),
        tag.date.len() >= 10,
    ensures
        ({
            let line = listing_line(tag);
            &&& line.subrange(2, 2 + tag.name.len() as int) == tag.name
            &&& forall|i: int| 2 + tag.name.len() <= i < 13 ==> #[trigger] line[i] == ' '
            &&& line.subrange(13, 21) == tag.commit.take(8)
            &&& line.subrange(23, 33) == tag.date.take(10)
            &&& line.last() == '\n'
            &&& tag.subject.len() <= 52 ==> line.subrange(35, line.len() - 1) == tag.subject
            &&& tag.subject.len() > 52 ==> line.len() == 88 && line.subrange(35, 86)
                == tag.subject.take(51) && line[86] == '…'
        }),
{
    let line = listing_line(tag);
    crate::text::law_plain_text_is_cut_by_characters(tag.commit, 8);
    crate::text::law_plain_text_is_cut_by_characters(tag.date, 10);
    crate::text::law_padding_fills_up_to_the_width(tag.name, 10);
    law_a_long_subject_is_cut_short(tag.subject, 52);
    reveal_strlit("  ");
    reveal_strlit(" ");
    reveal_strlit("\n");
    let name = crate::text::padded_right(tag.name, 10);
    let commit = tag.commit.take(8);
    let date = tag.date.take(10);
    let subject = truncated(tag.subject, 52);
    assert(line =~= "  "@ + name + " "@ + commit + "  "@ + date + "  "@ + subject + "\n"@);
    assert(name.subrange(0, tag.name.len() as int) == tag.name);
    assert forall|i: int| 0 <= i < tag.name.len() implies line[2 + i] == #[trigger] tag.name[i] by {
        assert(name.subrange(0, tag.name.len() as int)[i] == name[i]);
    }
    assert(line.subrange(2, 2 + tag.name.len() as int) =~= tag.name);
    assert forall|i: int| 2 + tag.name.len() <= i < 13 implies #[trigger] line[i] == ' ' by {
        if i < 12 {
            assert(line[i] == name[i - 2]);
        }
    }
    assert(line.subrange(13, 21) =~= commit);
    assert(line.subrange(23, 33) =~= date);
    assert(line.subrange(35, line.len() - 1) =~= subject);
    if tag.subject.len() > 52 {
        assert(line[86] == subject[51]);
        assert(line.subrange(35, 86) =~= subject.drop_last());
    }
}

/// Every tag is listed, each on the line of its place.
pub proof fn law_every_tag_is_listed(tags: Seq<Tag>, n: nat, i: int)
    requires
        0 <= i < n <= tags.len(),
    ensures
        crate::text::holds(listing_lines(tags, n), listing_line(tags[i].model())),
        crate::text::holds(listing(tags), listing_line(tags[i].model())),
        crate::text::begins(listing_lines(tags, tags.len()), listing_lines(tags, n)),
    decreases tags.len() + tags.len() - n,
{
    lemma_listed(tags, n, i);
    lemma_listed(tags, tags.len(), i);
    let head = "release tags, in semver order:\n\n"@;
    let lines = listing_lines(tags, tags.len());
    let line = listing_line(tags[i].model());
    crate::text::law_what_a_part_holds_the_whole_holds(head, lines, line);
    crate::text::law_what_a_part_holds_the_whole_holds(head + lines, "\n"@, line);
    lemma_listing_grows(tags, n, tags.len());
}

proof fn lemma_listed(tags: Seq<Tag>, n: nat, i: int)
    requires
        0 <= i < n <= tags.len(),
    ensures
        crate::text::holds(listing_lines(tags, n), listing_line(tags[i].model())),
    decreases n,
{
    let before = listing_lines(tags, (n - 1) as nat);
    let last = listing_line(tags[n - 1].model());
    let line = listing_line(tags[i].model());
    if i < n - 1 {
        lemma_listed(tags, (n - 1) as nat, i);
        crate::text::law_what_a_part_holds_the_whole_holds(before, last, line);
    } else {
        crate::text::law_what_a_part_holds_the_whole_holds(before, Seq::empty(), line);
        assert(before + line + Seq::<char>::empty() =~= before + last);
    }
}

proof fn lemma_listing_grows(tags: Seq<Tag>, n: nat, m: nat)
    requires
        n <= m,
    ensures
        crate::text::begins(listing_lines(tags, m), listing_lines(tags, n)),
    decreases m - n,
{
    let short = listing_lines(tags, n);
    let long = listing_lines(tags, m);
    if n == m {
        assert(long.subrange(0, short.len() as int) =~= short);
    } else {
        lemma_listing_grows(tags, n, (m - 1) as nat);
        let between = listing_lines(tags, (m - 1) as nat);
        assert(long.subrange(0, short.len() as int) =~= between.subrange(0, short.len() as int));
    }
}

/// A complaint tells when each of the two tags was made, and behind which tag the first one
/// belongs where that is known.
pub proof fn law_a_complaint_tells_both_days(a: Tag, b: Tag, placement: Option<Seq<char>>)
    ensures
        crate::text::holds(complaint(a, b, placement), a.name@ + "  "@ + a.date@),
        crate::text::holds(complaint(a, b, placement), b.name@ + "  "@ + b.date@),
        placement matches Some(p) ==> crate::text::ends(
            complaint(a, b, placement),
            a.name@ + "`'s commit really sits just after `"@ + p + "`.\n"@,
        ),
        placement is None ==> crate::text::ends(
            complaint(a, b, placement),
            b.name@ + "  "@ + b.date@ + "\n"@,
        ),
{
    let head = "\n  "@ + a.name@ + " is numbered below "@ + b.name@
        + ", but its commit is NOT an ancestor of it.\n    "@;
    let first = a.name@ + "  "@ + a.date@;
    let second = b.name@ + "  "@ + b.date@;
    let last = match placement {
        Some(p) => "    `"@ + a.name@ + "`'s commit really sits just after `"@ + p + "`.\n"@,
        None => Seq::empty(),
    };
    let whole = complaint(a, b, placement);
    assert(whole =~= head + first + ("\n    "@ + second + "\n"@ + last));
    crate::text::law_what_a_part_holds_the_whole_holds(
        head,
        "\n    "@ + second + "\n"@ + last,
        first,
    );
    assert(whole =~= head + first + "\n    "@ + second + ("\n"@ + last));
    crate::text::law_what_a_part_holds_the_whole_holds(
        head + first + "\n    "@,
        "\n"@ + last,
        second,
    );
    match placement {
        Some(p) => {
            let tail = a.name@ + "`'s commit really sits just after `"@ + p + "`.\n"@;
            assert(whole.subrange(whole.len() - tail.len(), whole.len() as int) =~= tail);
        },
        None => {
            let tail = second + "\n"@;
            assert(whole.subrange(whole.len() - tail.len(), whole.len() as int) =~= tail);
        },
    }
}

/// The one tag that is excused is told about exactly where it is out of order with the next.
pub proof fn law_an_excuse_is_told_where_it_is_needed(
    tags: Seq<Tag>,
    descends: Seq<Vec<bool>>,
    n: nat,
    i: int,
)
    requires
        n <= tags.len(),
    ensures
        0 <= i < n && i + 1 < tags.len() && !descends[i]@[i + 1] && tags[i].name@ == "v0.0.2"@
            ==> crate::text::holds(excuses(tags, descends, n), "grandfathered: "@ + tags[i].name@),
        (forall|k: int|
            0 <= k < n && k + 1 < tags.len() ==> (#[trigger] descends[k])@[k + 1] || tags[k].name@
                != "v0.0.2"@) ==> excuses(tags, descends, n).len() == 0,
    decreases n,
{
    if n > 0 {
        law_an_excuse_is_told_where_it_is_needed(tags, descends, (n - 1) as nat, i);
        let before = excuses(tags, descends, (n - 1) as nat);
        let words = "grandfathered: "@ + tags[n - 1].name@;
        let rest = " — "@ + GRANDFATHERED_WHY@ + "\n\n"@;
        let told = "grandfathered: "@ + tags[n - 1].name@ + " — "@ + GRANDFATHERED_WHY@ + "\n\n"@;
        assert(told =~= words + rest);
        crate::text::law_what_a_part_holds_the_whole_holds(before, rest, words);
        assert(before + words + rest =~= before + told);
        if 0 <= i < n - 1 {
            crate::text::law_what_a_part_holds_the_whole_holds(
                before,
                told,
                "grandfathered: "@ + tags[i].name@,
            );
        }
        if forall|k: int|
            0 <= k < n && k + 1 < tags.len() ==> (#[trigger] descends[k])@[k + 1] || tags[k].name@
                != "v0.0.2"@ {
            assert(n < tags.len() ==> descends[n - 1]@[n as int] || tags[n - 1].name@ != "v0.0.2"@);
        }
    }
}

/// The list is printed where it was asked for and only before the rest, which is the same
/// either way; all is well exactly where nothing is reported, and each step from a tag to
/// the next counts.
pub proof fn law_asking_for_more_adds_the_list(tags: Seq<Tag>, descends: Seq<Vec<bool>>)
    ensures
        tags.len() > 0 ==> printed(true, tags, descends) == listing(tags) + printed(
            false,
            tags,
            descends,
        ),
        tags.len() > 0 && breaking(tags, descends, tags.len()).len() == 0 ==> crate::text::ends(
            printed(false, tags, descends),
            "ok: "@ + crate::text::decimal((tags.len() - 1) as nat)
                + " tag transition(s) are monotonic in history\n"@,
        ),
        tags.len() > 0 && breaking(tags, descends, tags.len()).len() > 0 ==> printed(
            false,
            tags,
            descends,
        ) == excuses(tags, descends, tags.len()),
        tags.len() == 0 ==> printed(true, tags, descends) == printed(false, tags, descends),
        crate::text::begins(complained(tags, descends), "release tags are out of order:\n"@),
        crate::text::ends(complained(tags, descends), advice()),
{
    let quiet = printed(false, tags, descends);
    let loud = printed(true, tags, descends);
    if tags.len() > 0 {
        assert(loud =~= listing(tags) + quiet);
        if breaking(tags, descends, tags.len()).len() == 0 {
            let tail = "ok: "@ + crate::text::decimal((tags.len() - 1) as nat)
                + " tag transition(s) are monotonic in history\n"@;
            assert(quiet.subrange(quiet.len() - tail.len(), quiet.len() as int) =~= tail);
        } else {
            assert(quiet =~= excuses(tags, descends, tags.len()));
        }
    }
    let words = complained(tags, descends);
    let head = "release tags are out of order:\n"@;
    assert(words.subrange(0, head.len() as int) =~= head);
    assert(words.subrange(words.len() - advice().len(), words.len() as int) =~= advice());
}

proof fn lemma_lower_goes_on(a: Option<Version>, b: Option<Version>, c: Option<Version>)
    ensures
        lower(a, b) && lower(b, c) ==> lower(a, c),
        !lower(b, a) && lower(b, c) ==> lower(a, c),
{
    match (a, b, c) {
        (Some(x), Some(y), Some(z)) => {
            crate::xtask::git::law_versions_are_totally_ordered(x, y, z);
        },
        _ => {},
    }
}

/// Of ancestors of one version the first is the one suggested: every one before it is lower.
pub proof fn law_the_first_of_equal_ancestors_is_suggested(
    tags: Seq<Tag>,
    tag: Seq<char>,
    ancestors: Seq<bool>,
    n: nat,
)
    requires
        n <= tags.len(),
    ensures
        highest(tags, tag, ancestors, n) matches Some(b) ==> 0 <= b < n && forall|i: int|
            0 <= i < b && (#[trigger] tags[i]).name@ != tag && ancestors[i] ==> lower(
                crate::xtask::git::version_of(tags[i].name@),
                crate::xtask::git::version_of(tags[b].name@),
            ),
    decreases n,
{
    if n > 0 {
        law_the_first_of_equal_ancestors_is_suggested(tags, tag, ancestors, (n - 1) as nat);
        lemma_highest(tags, tag, ancestors, (n - 1) as nat);
        let before = highest(tags, tag, ancestors, (n - 1) as nat);
        if qualifies(tags, tag, ancestors, n - 1) {
            if let Some(b) = before {
                let new = crate::xtask::git::version_of(tags[n - 1].name@);
                let was = crate::xtask::git::version_of(tags[b].name@);
                if lower(was, new) {
                    assert forall|i: int| 0 <= i < n - 1 && (#[trigger] tags[i]).name@ != tag
                        && ancestors[i] implies lower(
                        crate::xtask::git::version_of(tags[i].name@),
                        new,
                    ) by {
                        assert(qualifies(tags, tag, ancestors, i));
                        lemma_lower_goes_on(
                            crate::xtask::git::version_of(tags[i].name@),
                            was,
                            new,
                        );
                    }
                }
            }
        }
    }
}

} // verus!
