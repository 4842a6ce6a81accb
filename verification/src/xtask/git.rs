//! What is made of git's answers about release tags.

use crate::text::{cat3, decimal_of, parse_number, split, split_once, strip_prefix, trim};
use vstd::prelude::*;

verus! {

/// A tag name plus the commit it resolves to.
#[derive(Clone, Debug, PartialEq, Eq)]
pub struct Tag {
    pub name: String,
    pub commit: String,
    pub date: String,
    pub subject: String,
}

/// A tag, in the mathematical model.
pub struct TagModel {
    pub name: Seq<char>,
    pub commit: Seq<char>,
    pub date: Seq<char>,
    pub subject: Seq<char>,
}

impl Tag {
    pub open spec fn model(self) -> TagModel {
        TagModel {
            name: self.name@,
            commit: self.commit@,
            date: self.date@,
            subject: self.subject@,
        }
    }
}

/// A `vMAJOR.MINOR.PATCH` release version.
#[derive(Clone, Copy, PartialEq, Eq, PartialOrd, Ord, Debug, Structural)]
pub struct Version(pub u64, pub u64, pub u64);

impl Version {
    /// Numeric order, part by part.
    pub open spec fn below(self, other: Version) -> bool {
        ||| self.0 < other.0
        ||| self.0 == other.0 && self.1 < other.1
        ||| self.0 == other.0 && self.1 == other.1 && self.2 < other.2
    }

    /// The version as it is written.
    pub open spec fn text(self) -> Seq<char> {
        "v"@ + crate::text::decimal(self.0 as nat) + "."@ + crate::text::decimal(self.1 as nat)
            + "."@ + crate::text::decimal(self.2 as nat)
    }

    /// Parse `vX.Y.Z`, or `None` for anything else.
    pub fn parse(name: &str) -> (res: Option<Version>)
        ensures
            res == version_of(name@),
    {
        let rest: String = match strip_prefix(name, "v") {
            Some(rest) => rest,
            None => {
                return None;
            },
        };
        let parts: Vec<String> = split(rest.as_str(), '.');
        let ghost all = crate::text::pieces(rest@, '.');
        assert(all.len() == parts@.len());
        if parts.len() != 3 {
            return None;
        }
        assert(all[0] == parts@[0]@ && all[1] == parts@[1]@ && all[2] == parts@[2]@);
        match (
            parse_number(parts[0].as_str()),
            parse_number(parts[1].as_str()),
            parse_number(parts[2].as_str()),
        ) {
            (Some(major), Some(minor), Some(patch)) => Some(Version(major, minor, patch)),
            _ => None,
        }
    }

    /// The version as it is written.
    pub fn display(&self) -> (res: String)
        ensures
            res@ == self.text(),
    {
        let mut out: String = cat3("v", decimal_of(self.0).as_str(), ".");
        out.append(decimal_of(self.1).as_str());
        out.append(".");
        out.append(decimal_of(self.2).as_str());
        assert(out@ =~= self.text());
        out
    }

    /// Whether this version comes before the other.
    pub fn is_below(&self, other: &Version) -> (res: bool)
        ensures
            res == self.below(*other),
    {
        self.0 < other.0 || (self.0 == other.0 && (self.1 < other.1 || (self.1 == other.1 && self.2
            < other.2)))
    }
}

/// The version a name spells: a `v` and three numbers with dots between them.
pub open spec fn version_of(name: Seq<char>) -> Option<Version> {
    match crate::text::without_prefix(name, "v"@) {
        Some(rest) => {
            let parts = crate::text::pieces(rest, '.');
            if parts.len() == 3 {
                match (
                    crate::text::number(parts[0]),
                    crate::text::number(parts[1]),
                    crate::text::number(parts[2]),
                ) {
                    (Some(major), Some(minor), Some(patch)) => Some(Version(major, minor, patch)),
                    _ => None,
                }
            } else {
                None
            }
        },
        None => None,
    }
}

// ---------------------------------------------------------------------------
// Which tags to ask about
// ---------------------------------------------------------------------------

/// The names among the first `n` lines of a listing that are release tags.
pub open spec fn names_among(lines: Seq<Seq<char>>, n: nat) -> Seq<Seq<char>>
    decreases n,
{
    if n == 0 {
        Seq::empty()
    } else {
        let before = names_among(lines, (n - 1) as nat);
        let name = crate::text::trimmed(lines[n - 1]);
        if version_of(name) is Some {
            before.push(name)
        } else {
            before
        }
    }
}

/// The release tags in a listing of tags, one on each line, in the order they
/// are listed. A name that is no `vX.Y.Z` is passed over.
pub fn release_names(listing: &str) -> (res: Vec<String>)
    ensures
        ({
            let lines = crate::text::pieces(listing@, '\n');
            crate::text::views(res@) == names_among(lines, lines.len())
        }),
{
    let lines: Vec<String> = split(listing, '\n');
    let ghost all = crate::text::pieces(listing@, '\n');
    let mut out: Vec<String> = Vec::new();
    let mut i: usize = 0;
    assert(crate::text::views(out@) =~= names_among(all, 0));
    while i < lines.len()
        invariant
            i <= lines@.len(),
            crate::text::views(lines@) == all,
            crate::text::views(out@) == names_among(all, i as nat),
        decreases lines@.len() - i,
    {
        assert(all[i as int] == lines@[i as int]@);
        let ghost before = crate::text::views(out@);
        let name: String = trim(lines[i].as_str());
        match Version::parse(name.as_str()) {
            Some(_) => {
                out.push(name);
                assert(crate::text::views(out@) =~= before.push(name@));
            },
            None => {},
        }
        i = i + 1;
    }
    out
}

// ---------------------------------------------------------------------------
// What git answers
// ---------------------------------------------------------------------------

/// The character git is asked to put between a tag's date and its subject.
pub const FIELD_SEPARATOR: char = '\u{1f}';

/// The tag that git's answers describe: the commit on a line of its own, and the
/// date and subject with the separator between them.
pub open spec fn described(name: Seq<char>, commit: Seq<char>, log: Seq<char>) -> TagModel {
    let meta = crate::text::trimmed(log);
    let (date, subject) = match crate::text::cut_at(meta, FIELD_SEPARATOR) {
        Some(parts) => parts,
        None => (meta, Seq::empty()),
    };
    TagModel { name, commit: crate::text::trimmed(commit), date, subject }
}

/// Name a tag and what git answered about it.
pub fn describe_tag(name: &str, commit: &str, log: &str) -> (res: Tag)
    ensures
        res.model() == described(name@, commit@, log@),
{
    let meta: String = trim(log);
    let (date, subject): (String, String) = match split_once(meta.as_str(), FIELD_SEPARATOR) {
        Some(parts) => parts,
        None => (meta, String::new()),
    };
    Tag { name: name.to_owned(), commit: trim(commit), date, subject }
}

/// Where a version goes in an ordered list: after every one that is not above it.
pub open spec fn place(ordered: Seq<(Version, TagModel)>, v: Version, from: int) -> int
    decreases ordered.len() - from,
{
    if from >= ordered.len() || v.below(ordered[from].0) {
        from
    } else {
        place(ordered, v, from + 1)
    }
}

/// The release tags among the first `n`, lowest version first, and tags of one
/// version in the order they came in.
pub open spec fn in_order(tags: Seq<TagModel>, n: nat) -> Seq<(Version, TagModel)>
    decreases n,
{
    if n == 0 {
        Seq::empty()
    } else {
        let before = in_order(tags, (n - 1) as nat);
        match version_of(tags[n - 1].name) {
            Some(v) => before.insert(place(before, v, 0), (v, tags[n - 1])),
            None => before,
        }
    }
}

pub open spec fn models(tags: Seq<Tag>) -> Seq<TagModel> {
    Seq::new(tags.len(), |i: int| tags[i].model())
}

/// The release tags, in version order.
pub open spec fn ordered_tags(tags: Seq<TagModel>) -> Seq<TagModel> {
    let ordered = in_order(tags, tags.len());
    Seq::new(ordered.len(), |i: int| ordered[i].1)
}

proof fn lemma_place(ordered: Seq<(Version, TagModel)>, v: Version, from: int)
    requires
        0 <= from <= ordered.len(),
    ensures
        from <= place(ordered, v, from) <= ordered.len(),
        forall|i: int|
            from <= i < place(ordered, v, from) ==> !v.below((#[trigger] ordered[i]).0),
        place(ordered, v, from) < ordered.len() ==> v.below(ordered[place(ordered, v, from)].0),
    decreases ordered.len() - from,
{
    if from < ordered.len() && !v.below(ordered[from].0) {
        lemma_place(ordered, v, from + 1);
    }
}

/// The release tags among `tags`, in version order: by number, not by letter.
pub fn release_tags(tags: Vec<Tag>) -> (res: Vec<Tag>)
    ensures
        models(res@) == ordered_tags(models(tags@)),
{
    let ghost all = models(tags@);
    let mut versions: Vec<Version> = Vec::new();
    let mut out: Vec<Tag> = Vec::new();
    let total: usize = tags.len();
    for tag in it: tags
        invariant
            it.seq() == tags@,
            all == models(tags@),
            all.len() == total,
            versions@.len() == out@.len() <= it.index(),
            out@.len() == in_order(all, it.index() as nat).len(),
            forall|j: int|
                #![trigger in_order(all, it.index() as nat)[j]]
                0 <= j < out@.len() ==> in_order(all, it.index() as nat)[j] == (
                    versions@[j],
                    out@[j].model(),
                ),
    {
        let ghost n = it.index() as nat;
        let ghost before = in_order(all, n);
        assert(all[n as int] == tag.model());
        match Version::parse(tag.name.as_str()) {
            Some(v) => {
                let mut at: usize = 0;
                while at < versions.len() && !v.is_below(&versions[at])
                    invariant
                        at <= versions@.len(),
                        before.len() == versions@.len(),
                        forall|j: int|
                            0 <= j < versions@.len() ==> (#[trigger] before[j]).0 == versions@[j],
                        place(before, v, 0) == place(before, v, at as int),
                    decreases versions@.len() - at,
                {
                    assert(before[at as int].0 == versions@[at as int]);
                    at = at + 1;
                }
                proof {
                    if at < versions@.len() {
                        assert(before[at as int].0 == versions@[at as int]);
                    }
                    lemma_place(before, v, 0);
                }
                let ghost old_versions = versions@;
                let ghost old_out = out@;
                versions.insert(at, v);
                out.insert(at, tag);
                proof {
                    let now = in_order(all, (n + 1) as nat);
                    assert(now == before.insert(at as int, (v, tag.model())));
                    assert forall|j: int|
                        #![trigger now[j]]
                        0 <= j < out@.len() implies now[j] == (versions@[j], out@[j].model()) by {
                        if j < at {
                            assert(now[j] == before[j]);
                        } else if j > at {
                            assert(now[j] == before[j - 1]);
                        }
                    }
                }
            },
            None => {},
        }
    }
    proof {
        let ordered = in_order(all, all.len());
        assert forall|j: int| 0 <= j < out@.len() implies models(out@)[j] == ordered_tags(all)[j] by {
            assert(ordered[j] == (versions@[j], out@[j].model()));
        }
        assert(models(out@) =~= ordered_tags(all));
    }
    out
}

/// What `git merge-base --is-ancestor` says by its exit code.
pub fn ancestor_answer(code: Option<i32>, ancestor: &str, descendant: &str, stderr: &str) -> (res:
    Result<bool, String>)
    ensures
        match code {
            Some(0) => res == Ok::<bool, String>(true),
            Some(1) => res == Ok::<bool, String>(false),
            _ => res matches Err(e) && e@ == "git merge-base --is-ancestor "@ + ancestor@ + " "@
                + descendant@ + ": "@ + crate::text::trimmed(stderr@),
        },
{
    match code {
        Some(0) => Ok(true),
        Some(1) => Ok(false),
        _ => {
            let mut out: String = cat3("git merge-base --is-ancestor ", ancestor, " ");
            out.append(descendant);
            out.append(": ");
            out.append(trim(stderr).as_str());
            Err(out)
        },
    }
}

/// The words for a git command that failed.
pub fn git_failed(args: &str, stderr: &str) -> (res: String)
    ensures
        res@ == "`git "@ + args@ + "` failed: "@ + crate::text::trimmed(stderr@),
{
    let mut out: String = cat3("`git ", args, "` failed: ");
    out.append(trim(stderr).as_str());
    out
}

// ---------------------------------------------------------------------------
// Laws
// ---------------------------------------------------------------------------

/// Every version is parsed back from how it is written.
pub proof fn law_versions_are_parsed_back(v: Version)
    ensures
        version_of(v.text()) == Some(v),
{
    let a = crate::text::decimal(v.0 as nat);
    let b = crate::text::decimal(v.1 as nat);
    let c = crate::text::decimal(v.2 as nat);
    let parts = seq![a, b, c];
    reveal_strlit("v");
    reveal_strlit(".");
    let rest = a + "."@ + b + "."@ + c;
    assert(v.text() =~= "v"@ + rest);
    assert(v.text().subrange(0, 1) =~= "v"@);
    assert(v.text().skip(1) =~= rest);
    assert("."@ =~= seq!['.']);
    crate::text::lemma_decimal_is_read_back(v.0 as nat);
    crate::text::lemma_decimal_is_read_back(v.1 as nat);
    crate::text::lemma_decimal_is_read_back(v.2 as nat);
    crate::text::law_numbers_are_read_back(v.0);
    crate::text::law_numbers_are_read_back(v.1);
    crate::text::law_numbers_are_read_back(v.2);
    assert forall|i: int| 0 <= i < parts.len() implies crate::text::free_of(
        #[trigger] parts[i],
        '.',
    ) by {
        assert(crate::text::all_digits(parts[i]));
        assert forall|j: int| 0 <= j < parts[i].len() implies parts[i][j] != '.' by {
            assert(crate::text::ascii_digit(parts[i][j]));
        }
    }
    crate::text::law_split_undoes_join(parts, '.');
    assert(parts.drop_last() =~= seq![a, b]);
    assert(seq![a, b].drop_last() =~= seq![a]);
    reveal_with_fuel(crate::text::joined, 4);
    assert(crate::text::joined(parts, seq!['.']) =~= rest);
}

/// The order of versions is numeric, and total.
pub proof fn law_versions_are_totally_ordered(a: Version, b: Version, c: Version)
    ensures
        a.below(b) || b.below(a) || a == b,
        !(a.below(b) && b.below(a)),
        a.below(b) && b.below(c) ==> a.below(c),
{
}

/// Release tags come out lowest version first.
pub proof fn law_release_tags_ascend(tags: Seq<TagModel>, n: nat)
    ensures
        forall|i: int, j: int|
            0 <= i <= j < in_order(tags, n).len() ==> !(#[trigger] in_order(tags, n)[j]).0.below(
                (#[trigger] in_order(tags, n)[i]).0,
            ),
    decreases n,
{
    if n > 0 {
        law_release_tags_ascend(tags, (n - 1) as nat);
        let before = in_order(tags, (n - 1) as nat);
        let now = in_order(tags, n);
        match version_of(tags[n - 1].name) {
            Some(v) => {
                let at = place(before, v, 0);
                lemma_place(before, v, 0);
                assert forall|i: int, j: int| 0 <= i <= j < now.len() implies !(
                #[trigger] now[j]).0.below((#[trigger] now[i]).0) by {
                    let x = if i < at {
                        before[i]
                    } else {
                        before[i - 1]
                    };
                    let y = if j < at {
                        before[j]
                    } else {
                        before[j - 1]
                    };
                    if j == at && i < at {
                        assert(now[i] == before[i]);
                    } else if i == at && j > at {
                        assert(now[j] == before[j - 1]);
                        assert(!before[j - 1].0.below(before[at].0));
                    }
                }
            },
            None => {},
        }
    }
}

/// A name is a release where it is a `v` and three numbers between dots, and then it
/// is the version of those numbers.
pub proof fn law_a_release_is_three_numbers(a: Seq<char>, b: Seq<char>, c: Seq<char>)
    requires
        crate::text::free_of(a, '.'),
        crate::text::free_of(b, '.'),
        crate::text::free_of(c, '.'),
    ensures
        ({
            let name = seq!['v'] + a + seq!['.'] + b + seq!['.'] + c;
            let (x, y, z) = (
                crate::text::number(a),
                crate::text::number(b),
                crate::text::number(c),
            );
            &&& x is Some && y is Some && z is Some ==> version_of(name) == Some(
                Version(x->0, y->0, z->0),
            )
            &&& x is None || y is None || z is None ==> version_of(name) is None
        }),
{
    reveal_strlit("v");
    let name = seq!['v'] + a + seq!['.'] + b + seq!['.'] + c;
    let rest = a + seq!['.'] + b + seq!['.'] + c;
    assert("v"@ =~= seq!['v']);
    assert(name.subrange(0, 1) =~= "v"@);
    assert(name.skip(1) =~= rest);
    crate::text::law_parts_add_up(a + seq!['.'] + b, c, '.');
    crate::text::law_parts_add_up(a, b, '.');
    crate::text::lemma_pieces_of_free(a, '.');
    crate::text::lemma_pieces_of_free(b, '.');
    crate::text::lemma_pieces_of_free(c, '.');
    assert(crate::text::pieces(rest, '.') =~= seq![a, b, c]);
}

/// What is a release has no other shape: it opens with a `v`, and there are two dots
/// in it.
pub proof fn law_nothing_else_is_a_release(name: Seq<char>)
    requires
        version_of(name) is Some,
    ensures
        name.len() > 0 && name[0] == 'v',
        crate::text::pieces(name, '.').len() == 3,
{
    reveal_strlit("v");
    assert("v"@ =~= seq!['v']);
    let rest = name.skip(1);
    assert(name.subrange(0, 1)[0] == name[0]);
    lemma_same_number_of_parts(seq![name[0]], rest);
    assert(seq![name[0]] + rest =~= name);
}

proof fn lemma_same_number_of_parts(first: Seq<char>, rest: Seq<char>)
    requires
        crate::text::free_of(first, '.'),
    ensures
        crate::text::pieces(first + rest, '.').len() == crate::text::pieces(rest, '.').len(),
    decreases rest.len(),
{
    let all = first + rest;
    if rest.len() == 0 {
        assert(all =~= first);
        crate::text::lemma_pieces_of_free(first, '.');
    } else {
        assert(all.drop_last() =~= first + rest.drop_last());
        lemma_same_number_of_parts(first, rest.drop_last());
        crate::text::lemma_pieces_nonempty(rest.drop_last(), '.');
        crate::text::lemma_pieces_nonempty(first + rest.drop_last(), '.');
    }
}

/// The first number that differs decides which version is the lower.
pub proof fn law_the_first_difference_decides(a: Version, b: Version)
    ensures
        a.0 < b.0 ==> a.below(b) && !b.below(a),
        a.0 == b.0 && a.1 < b.1 ==> a.below(b) && !b.below(a),
        a.0 == b.0 && a.1 == b.1 ==> (a.below(b) <==> a.2 < b.2),
{
}

/// A listing is read line by line, and a line is a release name, less the white
/// space around it, where it reads as a version.
pub proof fn law_listings_are_read_line_by_line(
    first: Seq<Seq<char>>,
    more: Seq<Seq<char>>,
    line: Seq<char>,
)
    ensures
        names_among(first + more, (first + more).len()) == names_among(first, first.len())
            + names_among(more, more.len()),
        version_of(crate::text::trimmed(line)) is Some ==> names_among(seq![line], 1) == seq![
            crate::text::trimmed(line),
        ],
        version_of(crate::text::trimmed(line)) is None ==> names_among(seq![line], 1).len() == 0,
{
    lemma_names_of_both(first, more, more.len());
    assert(first.len() + more.len() == (first + more).len());
    reveal_with_fuel(names_among, 2);
    assert(seq![line][0] == line);
    assert(Seq::<Seq<char>>::empty().push(crate::text::trimmed(line)) =~= seq![
        crate::text::trimmed(line),
    ]);
}

proof fn lemma_names_of_front(first: Seq<Seq<char>>, more: Seq<Seq<char>>, n: nat)
    requires
        n <= first.len(),
    ensures
        names_among(first + more, n) == names_among(first, n),
    decreases n,
{
    if n > 0 {
        lemma_names_of_front(first, more, (n - 1) as nat);
        assert((first + more)[n - 1] == first[n - 1]);
    }
}

proof fn lemma_names_of_both(first: Seq<Seq<char>>, more: Seq<Seq<char>>, n: nat)
    requires
        n <= more.len(),
    ensures
        names_among(first + more, first.len() + n) == names_among(first, first.len())
            + names_among(more, n),
    decreases n,
{
    if n > 0 {
        lemma_names_of_both(first, more, (n - 1) as nat);
        assert((first + more)[first.len() + n - 1] == more[n - 1]);
        assert(names_among(first + more, first.len() + n) =~= names_among(first, first.len())
            + names_among(more, n));
    } else {
        lemma_names_of_front(first, more, first.len());
        assert(names_among(first, first.len()) + Seq::<Seq<char>>::empty() =~= names_among(
            first,
            first.len(),
        ));
    }
}

/// What is said of a tag: its name and commit, and from the log the date before the
/// first separator and the subject behind it.
pub proof fn law_a_tag_is_described_by_its_log(
    name: Seq<char>,
    commit: Seq<char>,
    date: Seq<char>,
    subject: Seq<char>,
)
    requires
        crate::text::free_of(date, '\u{1f}'),
        crate::text::trim_free(date + seq!['\u{1f}'] + subject),
        crate::text::trim_free(commit),
    ensures
        ({
            let tag = described(name, commit, date + seq!['\u{1f}'] + subject);
            &&& tag.name == name
            &&& tag.commit == commit
            &&& tag.date == date
            &&& tag.subject == subject
        }),
{
    let log = date + seq!['\u{1f}'] + subject;
    crate::text::law_trimming_is_final(log);
    crate::text::law_trimming_is_final(commit);
    crate::text::law_a_text_is_cut_at_the_first(date, subject, '\u{1f}');
}

/// The releases among some tags, in the order they came in.
pub open spec fn releases(tags: Seq<TagModel>, n: nat) -> Seq<(Version, TagModel)>
    decreases n,
{
    if n == 0 {
        Seq::empty()
    } else {
        match version_of(tags[n - 1].name) {
            Some(v) => releases(tags, (n - 1) as nat).push((v, tags[n - 1])),
            None => releases(tags, (n - 1) as nat),
        }
    }
}

/// Ordering neither loses nor invents a release.
pub proof fn law_every_release_is_kept(tags: Seq<TagModel>, n: nat)
    ensures
        in_order(tags, n).to_multiset() == releases(tags, n).to_multiset(),
    decreases n,
{
    if n > 0 {
        law_every_release_is_kept(tags, (n - 1) as nat);
        if let Some(v) = version_of(tags[n - 1].name) {
            let before = in_order(tags, (n - 1) as nat);
            let came = releases(tags, (n - 1) as nat);
            let last = (v, tags[n - 1]);
            lemma_place(before, v, 0);
            let at = place(before, v, 0);
            let now = before.insert(at, last);
            assert(now.remove(at) =~= before);
            now.to_multiset_ensures();
            came.to_multiset_ensures();
            assert(now.contains(now[at]));
            assert(now.to_multiset() =~= now.to_multiset().remove(now[at]).insert(now[at]));
        }
    } else {
        assert(in_order(tags, n) =~= releases(tags, n));
    }
}

/// The tags of one version among some, in their order.
pub open spec fn of_version(s: Seq<(Version, TagModel)>, v: Version) -> Seq<TagModel>
    decreases s.len(),
{
    if s.len() == 0 {
        Seq::empty()
    } else if s.last().0 == v {
        of_version(s.drop_last(), v).push(s.last().1)
    } else {
        of_version(s.drop_last(), v)
    }
}

proof fn lemma_of_version_adds_up(
    a: Seq<(Version, TagModel)>,
    b: Seq<(Version, TagModel)>,
    v: Version,
)
    ensures
        of_version(a + b, v) == of_version(a, v) + of_version(b, v),
    decreases b.len(),
{
    if b.len() == 0 {
        assert(a + b =~= a);
        assert(of_version(a, v) + of_version(b, v) =~= of_version(a, v));
    } else {
        assert((a + b).drop_last() =~= a + b.drop_last());
        assert((a + b).last() == b.last());
        lemma_of_version_adds_up(a, b.drop_last(), v);
        assert(of_version(a + b, v) =~= of_version(a, v) + of_version(b, v));
    }
}

proof fn lemma_of_version_none(s: Seq<(Version, TagModel)>, v: Version)
    requires
        forall|i: int| 0 <= i < s.len() ==> (#[trigger] s[i]).0 != v,
    ensures
        of_version(s, v) == Seq::<TagModel>::empty(),
    decreases s.len(),
{
    if s.len() > 0 {
        assert(s[s.len() - 1].0 != v);
        assert forall|i: int| 0 <= i < s.drop_last().len() implies (#[trigger] s.drop_last()[i]).0
            != v by {
            assert(s.drop_last()[i] == s[i]);
        }
        lemma_of_version_none(s.drop_last(), v);
    }
}

/// Tags of one version keep the order they came in.
pub proof fn law_tags_of_one_version_keep_their_order(tags: Seq<TagModel>, n: nat, v: Version)
    ensures
        of_version(in_order(tags, n), v) == of_version(releases(tags, n), v),
    decreases n,
{
    if n > 0 {
        law_tags_of_one_version_keep_their_order(tags, (n - 1) as nat, v);
        if let Some(w) = version_of(tags[n - 1].name) {
            let before = in_order(tags, (n - 1) as nat);
            let last = (w, tags[n - 1]);
            law_release_tags_ascend(tags, (n - 1) as nat);
            lemma_place(before, w, 0);
            let at = place(before, w, 0);
            let now = before.insert(at, last);
            let front = before.take(at);
            let back = before.skip(at);
            assert(now =~= front + seq![last] + back);
            assert(before =~= front + back);
            lemma_of_version_adds_up(front, back, v);
            lemma_of_version_adds_up(front + seq![last], back, v);
            lemma_of_version_adds_up(front, seq![last], v);
            if w == v {
                assert forall|i: int| 0 <= i < back.len() implies (#[trigger] back[i]).0 != v by {
                    assert(back[i] == before[at + i]);
                    assert(!before[at + i].0.below(before[at].0));
                }
                lemma_of_version_none(back, v);
            }
            reveal_with_fuel(of_version, 2);
            assert(seq![last].drop_last() =~= Seq::<(Version, TagModel)>::empty());
            let came = releases(tags, (n - 1) as nat);
            assert(came.push(last).drop_last() =~= came);
            assert(of_version(now, v) =~= of_version(releases(tags, n), v));
        }
    } else {
        assert(in_order(tags, n) =~= releases(tags, n));
    }
}

proof fn lemma_in_order_holds_releases(tags: Seq<TagModel>, n: nat)
    ensures
        forall|i: int|
            0 <= i < in_order(tags, n).len() ==> version_of((#[trigger] in_order(tags, n)[i]).1.name)
                == Some(in_order(tags, n)[i].0),
    decreases n,
{
    if n > 0 {
        lemma_in_order_holds_releases(tags, (n - 1) as nat);
        if let Some(v) = version_of(tags[n - 1].name) {
            let before = in_order(tags, (n - 1) as nat);
            lemma_place(before, v, 0);
            let at = place(before, v, 0);
            let now = in_order(tags, n);
            assert forall|i: int| 0 <= i < now.len() implies version_of((#[trigger] now[i]).1.name)
                == Some(now[i].0) by {
                if i < at {
                    assert(now[i] == before[i]);
                } else if i > at {
                    assert(now[i] == before[i - 1]);
                }
            }
        }
    }
}

/// The tags that are listed are releases, lowest first, and as many as there are releases.
pub proof fn law_releases_are_listed_lowest_first(tags: Seq<TagModel>, i: int, j: int)
    requires
        0 <= i < j < ordered_tags(tags).len(),
    ensures
        ordered_tags(tags).len() == releases(tags, tags.len()).len(),
        version_of(ordered_tags(tags)[i].name) is Some,
        version_of(ordered_tags(tags)[j].name) is Some,
        !version_of(ordered_tags(tags)[j].name)->0.below(version_of(ordered_tags(tags)[i].name)->0),
{
    lemma_in_order_holds_releases(tags, tags.len());
    law_release_tags_ascend(tags, tags.len());
    law_every_release_is_kept(tags, tags.len());
    let ordered = in_order(tags, tags.len());
    assert(ordered_tags(tags)[i] == ordered[i].1);
    assert(ordered_tags(tags)[j] == ordered[j].1);
    ordered.to_multiset_ensures();
    releases(tags, tags.len()).to_multiset_ensures();
}

} // verus!
