//! Matching items against a query, fuzzily or exactly.
//!
//! A fuzzy match is scored by the `nucleo` matcher in every search field of an
//! item; an exact one looks for the query as it is, in any case. Either way the
//! items that match come out ranked, the best first, and items of one rank in
//! the order they came in.

use crate::launcher::item::Item;
use nucleo_matcher::pattern::{Atom, AtomKind, CaseMatching, Normalization};
use nucleo_matcher::{Config, Matcher, Utf32Str};
use vstd::prelude::*;

verus! {

// ---------------------------------------------------------------------------
// Ranking
// ---------------------------------------------------------------------------

/// A match: which of the items, how good, and where.
pub struct Hit {
    pub item: int,
    pub score: u64,
    pub positions: Seq<u32>,
}

/// Where a hit of the given score goes among ranked hits: before the first that
/// scores less, counted from place `from`.
pub open spec fn place(ranked: Seq<Hit>, score: u64, from: int) -> int
    decreases ranked.len() - from,
{
    if from >= ranked.len() || ranked[from].score < score {
        from
    } else {
        place(ranked, score, from + 1)
    }
}

/// Hits in the order they are listed: by score, the largest first, and those of
/// one score in the order they came in.
pub open spec fn ranked(hits: Seq<Hit>) -> Seq<Hit>
    decreases hits.len(),
{
    if hits.len() == 0 {
        Seq::empty()
    } else {
        let before = ranked(hits.drop_last());
        before.insert(place(before, hits.last().score, 0), hits.last())
    }
}

/// `listed` holds the items of `hits`, each with its rank and places.
pub open spec fn lists(items: Seq<Item>, hits: Seq<Hit>, listed: Seq<Item>) -> bool {
    &&& listed.len() == hits.len()
    &&& forall|i: int|
        #![trigger hits[i]]
        #![trigger listed[i]]
        0 <= i < hits.len() ==> crate::launcher::item::annotated(
            items[hits[i].item],
            listed[i],
            hits[i].score,
            hits[i].positions,
        )
}

proof fn lemma_place(ranked: Seq<Hit>, score: u64, from: int)
    requires
        0 <= from <= ranked.len(),
    ensures
        from <= place(ranked, score, from) <= ranked.len(),
        forall|i: int| from <= i < place(ranked, score, from) ==> ranked[i].score >= score,
        place(ranked, score, from) < ranked.len() ==> ranked[place(ranked, score, from)].score
            < score,
    decreases ranked.len() - from,
{
    if from < ranked.len() && ranked[from].score >= score {
        lemma_place(ranked, score, from + 1);
    }
}

/// Put a scored item in its place.
fn put(
    listed: &mut Vec<Item>,
    item: Item,
    Ghost(items): Ghost<Seq<Item>>,
    Ghost(hits): Ghost<Seq<Hit>>,
    Ghost(hit): Ghost<Hit>,
)
    requires
        lists(items, ranked(hits), old(listed)@),
        crate::launcher::item::annotated(items[hit.item], item, hit.score, hit.positions),
        old(listed)@.len() < usize::MAX,
    ensures
        lists(items, ranked(hits.push(hit)), final(listed)@),
        final(listed)@.len() == old(listed)@.len() + 1,
{
    let ghost order = ranked(hits);
    let score: u64 = item.score;
    let mut at: usize = 0;
    while at < listed.len() && listed[at].score >= score
        invariant
            at <= listed@.len(),
            lists(items, order, listed@),
            place(order, score, 0) == place(order, score, at as int),
        decreases listed@.len() - at,
    {
        assert(listed@[at as int].score == order[at as int].score);
        at = at + 1;
    }
    proof {
        if at < listed@.len() {
            assert(listed@[at as int].score == order[at as int].score);
        }
        lemma_place(order, score, 0);
        assert(hits.push(hit).drop_last() =~= hits);
    }
    let ghost was = listed@;
    listed.insert(at, item);
    proof {
        let now = order.insert(at as int, hit);
        assert(ranked(hits.push(hit)) == now);
        assert forall|i: int|
            #![trigger now[i]]
            #![trigger listed@[i]]
            0 <= i < now.len() implies crate::launcher::item::annotated(
            items[now[i].item],
            listed@[i],
            now[i].score,
            now[i].positions,
        ) by {
            if i < at {
                assert(now[i] == order[i]);
                assert(listed@[i] == was[i]);
            } else if i == at {
                assert(now[i] == hit);
            } else {
                assert(now[i] == order[i - 1]);
                assert(listed@[i] == was[i - 1]);
            }
        }
    }
}

// ---------------------------------------------------------------------------
// Fuzzy matching
// ---------------------------------------------------------------------------

/// As many characters as can match before the score outgrows its 16 bits.
pub const LONGEST: usize = 2520;

/// What `nucleo_matcher` makes of a query and a field: the score, and the places
/// in the field that matched; or nothing where it does not match.
pub uninterp spec fn fuzzy(query: Seq<char>, field: Seq<char>) -> Option<(u16, Seq<u32>)>;

/// A match, in the mathematical model.
pub open spec fn match_told(res: Option<(u16, Vec<u32>)>) -> Option<(u16, Seq<u32>)> {
    match res {
        Some(m) => Some((m.0, m.1@)),
        None => None,
    }
}

/// A query and a field that the matcher takes: the places of the field fit 32
/// bits, and the score fits 16. A character that matches counts 26 at most and the
/// first one ten more, and no more match than the shorter of the two has.
pub open spec fn fits(query: Seq<char>, field: Seq<char>) -> bool {
    &&& vstd::utf8::encode_utf8(field).len() <= u32::MAX
    &&& query.len() <= LONGEST || field.len() <= LONGEST
}

/// `nucleo_matcher::pattern::Atom::indices`, for a fuzzy atom that ignores case
/// and a matcher in its default configuration. How it scores is left to the
/// name. It panics on a field longer than 32 bits can index, and adds scores up
/// in 16 bits without looking for overflow.
#[verifier::external_body]
fn match_fuzzily(query: &str, field: &str) -> (res: Option<(u16, Vec<u32>)>)
    requires
        fits(query@, field@),
    ensures
        match_told(res) == fuzzy(query@, field@),
{
    let mut matcher = Matcher::new(Config::DEFAULT);
    let (case, norm) = (CaseMatching::Ignore, Normalization::Smart);
    let atom = Atom::new(query, case, norm, AtomKind::Fuzzy, false);
    let mut chars = Vec::new();
    let mut indices = Vec::new();
    let score = atom.indices(Utf32Str::new(field, &mut chars), &mut matcher, &mut indices)?;
    Some((score, indices))
}

/// A score as it counts in search field `field`: in full in the first, a fifth
/// less in each one after it, and a fifth from the fifth on. What is left over is
/// dropped; two fifths and one fifth are a shade less than that, so that a whole
/// multiple drops to the one below.
pub open spec fn weighted(score: u16, field: int) -> u64 {
    if field == 0 {
        score as u64
    } else if field == 1 {
        (score * 4 / 5) as u64
    } else if field == 2 {
        (score * 3 / 5) as u64
    } else if score == 0 {
        0
    } else if field == 3 {
        ((score * 2 - 1) / 5) as u64
    } else {
        ((score - 1) / 5) as u64
    }
}

fn weigh(score: u16, field: usize) -> (res: u64)
    ensures
        res == weighted(score, field as int),
{
    let s: u64 = score as u64;
    if field == 0 {
        s
    } else if field == 1 {
        s * 4 / 5
    } else if field == 2 {
        s * 3 / 5
    } else if s == 0 {
        0
    } else if field == 3 {
        (s * 2 - 1) / 5
    } else {
        (s - 1) / 5
    }
}

/// The best match among the first `n` fields: the highest weighted score, and of
/// equal ones the earliest.
pub open spec fn best(fields: Seq<String>, query: Seq<char>, n: nat) -> Option<(u64, Seq<u32>)>
    decreases n,
{
    if n == 0 {
        None
    } else {
        let before = best(fields, query, (n - 1) as nat);
        match fuzzy(query, fields[n - 1]@) {
            Some(m) => {
                let score = weighted(m.0, n - 1);
                if before is None || score > (before->0).0 {
                    Some((score, m.1))
                } else {
                    before
                }
            },
            None => before,
        }
    }
}

/// The items among the first `n` that match fuzzily, in the order they came in.
pub open spec fn fuzzy_hits(items: Seq<Item>, query: Seq<char>, n: nat) -> Seq<Hit>
    decreases n,
{
    if n == 0 {
        Seq::empty()
    } else {
        let before = fuzzy_hits(items, query, (n - 1) as nat);
        let fields = items[n - 1].search_fields@;
        match best(fields, query, fields.len()) {
            Some(m) => before.push(Hit { item: n - 1, score: m.0, positions: m.1 }),
            None => before,
        }
    }
}

/// Whether the matcher takes the query with every field of every item.
pub open spec fn fields_fit(items: Seq<Item>, query: Seq<char>) -> bool {
    forall|i: int, j: int|
        0 <= i < items.len() && 0 <= j < items[i].search_fields@.len() ==> fits(
            query,
            (#[trigger] items[i].search_fields@[j])@,
        )
}

/// The best match, in the mathematical model.
pub open spec fn best_told(res: Option<(u64, Vec<u32>)>) -> Option<(u64, Seq<u32>)> {
    match res {
        Some(m) => Some((m.0, m.1@)),
        None => None,
    }
}

/// The best match among the fields of one item.
pub fn best_match(fields: &Vec<String>, query: &str) -> (res: Option<(u64, Vec<u32>)>)
    requires
        forall|j: int| 0 <= j < fields@.len() ==> fits(query@, (#[trigger] fields@[j])@),
    ensures
        best_told(res) == best(fields@, query@, fields@.len()),
{
    let mut found: Option<(u64, Vec<u32>)> = None;
    let mut n: usize = 0;
    while n < fields.len()
        invariant
            n <= fields@.len(),
            forall|j: int| 0 <= j < fields@.len() ==> fits(query@, (#[trigger] fields@[j])@),
            best_told(found) == best(fields@, query@, n as nat),
        decreases fields@.len() - n,
    {
        match match_fuzzily(query, fields[n].as_str()) {
            Some((raw, indices)) => {
                let score: u64 = weigh(raw, n);
                let better: bool = match &found {
                    Some(m) => score > m.0,
                    None => true,
                };
                if better {
                    found = Some((score, indices));
                }
            },
            None => {},
        }
        n = n + 1;
    }
    found
}

/// The items that match the query in any of their search fields, ranked, with
/// their scores and the places that matched. An empty query leaves the items as
/// they are.
pub fn score_items(items: Vec<Item>, query: &str) -> (res: Vec<Item>)
    requires
        fields_fit(items@, query@),
    ensures
        query@.len() == 0 ==> res@ == items@,
        query@.len() > 0 ==> lists(
            items@,
            ranked(fuzzy_hits(items@, query@, items@.len())),
            res@,
        ),
{
    if query.unicode_len() == 0 {
        return items;
    }
    let mut listed: Vec<Item> = Vec::new();
    let total: usize = items.len();
    let ghost all = items@;
    for item in it: items
        invariant
            it.seq() == all,
            all.len() == total,
            fields_fit(all, query@),
            listed@.len() <= it.index(),
            lists(all, ranked(fuzzy_hits(all, query@, it.index() as nat)), listed@),
    {
        let ghost n = it.index() as int;
        assert(item == all[n]);
        assert forall|j: int| 0 <= j < item.search_fields@.len() implies fits(
            query@,
            (#[trigger] item.search_fields@[j])@,
        ) by {
            assert(fits(query@, all[n].search_fields@[j]@));
        }
        match best_match(&item.search_fields, query) {
            Some((score, positions)) => {
                let mut found: Item = item;
                let ghost places = positions@;
                found.score = score;
                found.match_positions = positions;
                put(
                    &mut listed,
                    found,
                    Ghost(all),
                    Ghost(fuzzy_hits(all, query@, n as nat)),
                    Ghost(Hit { item: n, score, positions: places }),
                );
            },
            None => {},
        }
    }
    listed
}

// ---------------------------------------------------------------------------
// Exact matching
// ---------------------------------------------------------------------------

/// What `str::to_lowercase` makes of a text.
pub uninterp spec fn lowercase(s: Seq<char>) -> Seq<char>;

/// `str::to_lowercase`: the text with every character in lower case by the
/// Unicode rules, left to the name. Of ASCII text the capitals become small
/// letters, and nothing else changes.
#[verifier::external_body]
fn to_lowercase(s: &str) -> (res: String)
    ensures
        res@ == lowercase(s@),
        crate::text::all_ascii(s@) ==> res@ == s@.map_values(
            |c: char| crate::text::lowered(c),
        ),
{
    s.to_lowercase()
}

/// Whether `needle` stands in `hay` from byte `at`.
pub open spec fn bytes_at(hay: Seq<u8>, needle: Seq<u8>, at: int) -> bool {
    0 <= at && at + needle.len() <= hay.len() && hay.subrange(at, at + needle.len()) == needle
}

/// The first byte at or after `from` where `needle` stands.
pub open spec fn first_bytes(hay: Seq<u8>, needle: Seq<u8>, from: int) -> Option<int>
    decreases hay.len() + 1 - from,
{
    if from > hay.len() {
        None
    } else if bytes_at(hay, needle, from) {
        Some(from)
    } else {
        first_bytes(hay, needle, from + 1)
    }
}

fn stands_at(hay: &[u8], needle: &[u8], at: usize) -> (res: bool)
    ensures
        res == bytes_at(hay@, needle@, at as int),
{
    if at > hay.len() || hay.len() - at < needle.len() {
        return false;
    }
    let mut i: usize = 0;
    while i < needle.len()
        invariant
            i <= needle@.len(),
            at + needle@.len() <= hay@.len() <= usize::MAX,
            forall|j: int| 0 <= j < i ==> hay@[at + j] == needle@[j],
        decreases needle@.len() - i,
    {
        if hay[at + i] != needle[i] {
            assert(hay@.subrange(at as int, at + needle@.len())[i as int] == hay@[at + i]);
            return false;
        }
        i = i + 1;
    }
    assert(hay@.subrange(at as int, at + needle@.len()) =~= needle@);
    true
}

fn find_bytes(hay: &[u8], needle: &[u8]) -> (res: Option<usize>)
    ensures
        crate::text::as_place(res) == first_bytes(hay@, needle@, 0),
{
    let mut at: usize = 0;
    while at <= hay.len()
        invariant
            at <= hay@.len() + 1,
            first_bytes(hay@, needle@, 0) == first_bytes(hay@, needle@, at as int),
        decreases hay@.len() + 1 - at,
    {
        if stands_at(hay, needle, at) {
            return Some(at);
        }
        if at == hay.len() {
            assert(first_bytes(hay@, needle@, at + 1) is None);
            return None;
        }
        at = at + 1;
    }
    None
}

/// The byte at which the query stands in the field, both in lower case.
pub open spec fn found_in(field: Seq<char>, query: Seq<char>) -> Option<int> {
    first_bytes(
        vstd::utf8::encode_utf8(lowercase(field)),
        vstd::utf8::encode_utf8(lowercase(query)),
        0,
    )
}

/// The first of the fields from `from` on that holds the query.
pub open spec fn holding(fields: Seq<String>, query: Seq<char>, from: int) -> Option<int>
    decreases fields.len() - from,
{
    if from >= fields.len() {
        None
    } else if found_in(fields[from]@, query) is Some {
        Some(from)
    } else {
        holding(fields, query, from + 1)
    }
}

/// `n`, or the largest 32-bit number.
pub open spec fn capped(n: int) -> u32 {
    if n > u32::MAX {
        u32::MAX
    } else {
        n as u32
    }
}

/// The places of a match at byte `at`: as many as the query has bytes.
pub open spec fn span(at: int, query: Seq<char>) -> Seq<u32> {
    let start = capped(at);
    let end = capped(at + vstd::utf8::encode_utf8(query).len());
    Seq::new((end - start) as nat, |i: int| (start + i) as u32)
}

/// The items among the first `n` that hold the query, in the order they came in,
/// where `scores` gives what each counts.
pub open spec fn exact_hits(
    items: Seq<Item>,
    query: Seq<char>,
    scores: Seq<u64>,
    n: nat,
) -> Seq<Hit>
    decreases n,
{
    if n == 0 {
        Seq::empty()
    } else {
        let before = exact_hits(items, query, scores, (n - 1) as nat);
        let fields = items[n - 1].search_fields@;
        match holding(fields, query, 0) {
            Some(f) => before.push(
                Hit {
                    item: n - 1,
                    score: scores[n - 1],
                    positions: span(found_in(fields[f]@, query)->0, query),
                },
            ),
            None => before,
        }
    }
}

/// Whether `scores` are what `weigh` gives the items among the first `n` that
/// hold the query, from the byte of the match and the bytes of query and field.
pub open spec fn weighed<F: Fn(usize, usize, usize) -> u64>(
    weigh: F,
    items: Seq<Item>,
    query: Seq<char>,
    scores: Seq<u64>,
    n: int,
) -> bool {
    &&& scores.len() == n
    &&& forall|i: int|
        0 <= i < n && (#[trigger] holding(items[i].search_fields@, query, 0)) is Some
            ==> call_ensures(
            weigh,
            (
                found_in(
                    items[i].search_fields@[holding(items[i].search_fields@, query, 0)->0]@,
                    query,
                )->0 as usize,
                vstd::utf8::encode_utf8(query).len() as usize,
                vstd::utf8::encode_utf8(
                    items[i].search_fields@[holding(items[i].search_fields@, query, 0)->0]@,
                ).len() as usize,
            ),
            scores[i],
        )
}

proof fn lemma_hits_ignore_later_scores(
    items: Seq<Item>,
    query: Seq<char>,
    scores: Seq<u64>,
    more: u64,
    n: nat,
)
    requires
        n <= scores.len(),
    ensures
        exact_hits(items, query, scores.push(more), n) == exact_hits(items, query, scores, n),
    decreases n,
{
    if n > 0 {
        lemma_hits_ignore_later_scores(items, query, scores, more, (n - 1) as nat);
    }
}

fn cap(n: usize) -> (res: u32)
    ensures
        res == capped(n as int),
{
    if n > u32::MAX as usize {
        u32::MAX
    } else {
        n as u32
    }
}

fn span_of(at: usize, query: &str) -> (res: Vec<u32>)
    ensures
        res@ == span(at as int, query@),
{
    let len: usize = query.as_bytes().len();
    let start: u32 = cap(at);
    let end: u32 = if len > usize::MAX - at {
        u32::MAX
    } else {
        cap(at + len)
    };
    let mut out: Vec<u32> = Vec::new();
    let mut next: u32 = start;
    while next < end
        invariant
            start <= next <= end,
            out@.len() == next - start,
            forall|i: int| 0 <= i < out@.len() ==> out@[i] == start + i,
        decreases end - next,
    {
        out.push(next);
        next = next + 1;
    }
    assert(out@ =~= span(at as int, query@));
    out
}

/// Where an item holds the query: the first field that does, and the byte.
fn find_in_fields(fields: &Vec<String>, query: &str) -> (res: Option<(usize, usize)>)
    ensures
        match res {
            Some((f, at)) => holding(fields@, query@, 0) == Some(f as int) && f < fields@.len()
                && found_in(fields@[f as int]@, query@) == Some(at as int),
            None => holding(fields@, query@, 0) is None,
        },
{
    let low_query: String = to_lowercase(query);
    let mut f: usize = 0;
    while f < fields.len()
        invariant
            f <= fields@.len(),
            low_query@ == lowercase(query@),
            holding(fields@, query@, 0) == holding(fields@, query@, f as int),
        decreases fields@.len() - f,
    {
        let low_field: String = to_lowercase(fields[f].as_str());
        match find_bytes(low_field.as_str().as_bytes(), low_query.as_str().as_bytes()) {
            Some(at) => {
                return Some((f, at));
            },
            None => {},
        }
        f = f + 1;
    }
    None
}

/// The items that hold the query in any of their search fields, in any case,
/// ranked by `weigh`: it is given the byte at which the first such field holds
/// the query, and the bytes of the query and of the field, and numbers the match
/// so that a better one has the larger number. An empty query leaves the items
/// as they are.
pub fn score_items_exact<F: Fn(usize, usize, usize) -> u64>(
    items: Vec<Item>,
    query: &str,
    weigh: F,
) -> (res: Vec<Item>)
    requires
        forall|at: usize, query_len: usize, field_len: usize|
            call_requires(weigh, (at, query_len, field_len)),
    ensures
        query@.len() == 0 ==> res@ == items@,
        query@.len() > 0 ==> exists|scores: Seq<u64>| #[trigger]
            weighed(weigh, items@, query@, scores, items@.len() as int) && lists(
                items@,
                ranked(exact_hits(items@, query@, scores, items@.len())),
                res@,
            ),
{
    if query.unicode_len() == 0 {
        return items;
    }
    let mut listed: Vec<Item> = Vec::new();
    let total: usize = items.len();
    let ghost all = items@;
    let ghost mut scores: Seq<u64> = Seq::empty();
    for item in it: items
        invariant
            it.seq() == all,
            all.len() == total,
            listed@.len() <= it.index(),
            forall|at: usize, query_len: usize, field_len: usize|
                call_requires(weigh, (at, query_len, field_len)),
            weighed(weigh, all, query@, scores, it.index() as int),
            lists(all, ranked(exact_hits(all, query@, scores, it.index() as nat)), listed@),
    {
        let ghost n = it.index() as int;
        let ghost were = scores;
        assert(item == all[n]);
        match find_in_fields(&item.search_fields, query) {
            Some((f, at)) => {
                let score: u64 = weigh(
                    at,
                    query.as_bytes().len(),
                    item.search_fields[f].as_str().as_bytes().len(),
                );
                let positions: Vec<u32> = span_of(at, query);
                let mut found: Item = item;
                let ghost places = positions@;
                found.score = score;
                found.match_positions = positions;
                proof {
                    scores = were.push(score);
                    lemma_hits_ignore_later_scores(all, query@, were, score, n as nat);
                }
                put(
                    &mut listed,
                    found,
                    Ghost(all),
                    Ghost(exact_hits(all, query@, scores, n as nat)),
                    Ghost(Hit { item: n, score, positions: places }),
                );
            },
            None => {
                proof {
                    scores = were.push(0);
                    lemma_hits_ignore_later_scores(all, query@, were, 0, n as nat);
                }
            },
        }
        proof {
            assert forall|i: int|
                0 <= i < n + 1 && (#[trigger] holding(all[i].search_fields@, query@, 0)) is Some
                implies call_ensures(
                weigh,
                (
                    found_in(
                        all[i].search_fields@[holding(all[i].search_fields@, query@, 0)->0]@,
                        query@,
                    )->0 as usize,
                    vstd::utf8::encode_utf8(query@).len() as usize,
                    vstd::utf8::encode_utf8(
                        all[i].search_fields@[holding(all[i].search_fields@, query@, 0)->0]@,
                    ).len() as usize,
                ),
                scores[i],
            ) by {
                if i < n {
                    assert(scores[i] == were[i]);
                }
            }
        }
    }
    listed
}

// ---------------------------------------------------------------------------
// Laws
// ---------------------------------------------------------------------------

/// Hits come out with the larger scores first.
pub proof fn law_better_matches_come_first(hits: Seq<Hit>)
    ensures
        forall|i: int, j: int|
            0 <= i <= j < ranked(hits).len() ==> (#[trigger] ranked(hits)[i]).score >= (
            #[trigger] ranked(hits)[j]).score,
    decreases hits.len(),
{
    if hits.len() > 0 {
        law_better_matches_come_first(hits.drop_last());
        let before = ranked(hits.drop_last());
        let at = place(before, hits.last().score, 0);
        lemma_place(before, hits.last().score, 0);
        let now = ranked(hits);
        assert forall|i: int, j: int| 0 <= i <= j < now.len() implies (#[trigger] now[i]).score >= (
        #[trigger] now[j]).score by {
            let x = if i < at { before[i] } else { before[i - 1] };
            let y = if j < at { before[j] } else { before[j - 1] };
            let z = before[at];
        }
    }
}

/// A match in a later field never counts more than the same match in an earlier
/// one.
pub proof fn law_a_later_field_never_counts_more(score: u16, earlier: int, later: int)
    requires
        0 <= earlier <= later,
    ensures
        weighted(score, later) <= weighted(score, earlier),
{
}

proof fn lemma_the_only_match_is_best(fields: Seq<String>, query: Seq<char>, at: int, n: nat)
    requires
        0 <= at < fields.len(),
        n <= fields.len(),
        forall|i: int|
            0 <= i < fields.len() && i != at ==> fuzzy(query, (#[trigger] fields[i])@) is None,
    ensures
        best(fields, query, n) == (if at < n && fuzzy(query, fields[at]@) is Some {
            let m = fuzzy(query, fields[at]@)->0;
            Some((weighted(m.0, at), m.1))
        } else {
            None
        }),
    decreases n,
{
    if n > 0 {
        lemma_the_only_match_is_best(fields, query, at, (n - 1) as nat);
        assert(n - 1 != at ==> fuzzy(query, fields[n - 1]@) is None);
    }
}

/// Moving the only field of an item that matches to a later place never raises
/// the item's score, and keeps the places that matched.
pub proof fn law_moving_the_matching_field_back_never_raises_the_score(
    fields: Seq<String>,
    moved: Seq<String>,
    query: Seq<char>,
    from: int,
    to: int,
)
    requires
        0 <= from < fields.len(),
        from <= to < moved.len(),
        moved[to]@ == fields[from]@,
        fuzzy(query, fields[from]@) is Some,
        forall|i: int|
            0 <= i < fields.len() && i != from ==> fuzzy(query, (#[trigger] fields[i])@) is None,
        forall|i: int|
            0 <= i < moved.len() && i != to ==> fuzzy(query, (#[trigger] moved[i])@) is None,
    ensures
        best(fields, query, fields.len()) is Some,
        best(moved, query, moved.len()) is Some,
        (best(moved, query, moved.len())->0).0 <= (best(fields, query, fields.len())->0).0,
        (best(moved, query, moved.len())->0).1 == (best(fields, query, fields.len())->0).1,
{
    lemma_the_only_match_is_best(fields, query, from, fields.len());
    lemma_the_only_match_is_best(moved, query, to, moved.len());
    law_a_later_field_never_counts_more((fuzzy(query, fields[from]@)->0).0, from, to);
}

proof fn lemma_best_is_some(fields: Seq<String>, query: Seq<char>, n: nat)
    requires
        n <= fields.len(),
    ensures
        best(fields, query, n) is Some <==> exists|f: int|
            0 <= f < n && fuzzy(query, (#[trigger] fields[f])@) is Some,
    decreases n,
{
    if n > 0 {
        lemma_best_is_some(fields, query, (n - 1) as nat);
        if best(fields, query, (n - 1) as nat) is Some {
            let f = choose|f: int|
                0 <= f < n - 1 && fuzzy(query, (#[trigger] fields[f])@) is Some;
            assert(fuzzy(query, fields[f]@) is Some);
        }
        assert(fuzzy(query, fields[n - 1]@) is Some || fuzzy(query, fields[n - 1]@) is None);
    }
}

proof fn lemma_holding_is_some(fields: Seq<String>, query: Seq<char>, from: int)
    requires
        0 <= from,
    ensures
        holding(fields, query, from) is Some <==> exists|f: int|
            from <= f < fields.len() && found_in((#[trigger] fields[f])@, query) is Some,
    decreases fields.len() - from,
{
    if from < fields.len() {
        lemma_holding_is_some(fields, query, from + 1);
        if found_in(fields[from]@, query) is None && holding(fields, query, from + 1) is Some {
            let f = choose|f: int|
                from + 1 <= f < fields.len() && found_in((#[trigger] fields[f])@, query) is Some;
            assert(found_in(fields[f]@, query) is Some);
        }
    }
}

/// An item that is among the hits.
pub open spec fn is_hit(hits: Seq<Hit>, item: int) -> bool {
    exists|h: int| 0 <= h < hits.len() && (#[trigger] hits[h]).item == item
}

/// An item is a hit exactly where one of its search fields matches: fuzzily, or by
/// holding the query.
pub proof fn law_an_item_is_a_hit_where_a_field_matches(
    items: Seq<Item>,
    query: Seq<char>,
    scores: Seq<u64>,
    n: nat,
    item: int,
)
    requires
        0 <= item < n <= items.len(),
    ensures
        is_hit(fuzzy_hits(items, query, n), item) <==> exists|f: int|
            0 <= f < items[item].search_fields@.len() && fuzzy(
                query,
                (#[trigger] items[item].search_fields@[f])@,
            ) is Some,
        is_hit(exact_hits(items, query, scores, n), item) <==> exists|f: int|
            0 <= f < items[item].search_fields@.len() && found_in(
                (#[trigger] items[item].search_fields@[f])@,
                query,
            ) is Some,
    decreases n,
{
    let fields = items[item].search_fields@;
    let fuzzy_before = fuzzy_hits(items, query, (n - 1) as nat);
    let fuzzy_now = fuzzy_hits(items, query, n);
    let exact_before = exact_hits(items, query, scores, (n - 1) as nat);
    let exact_now = exact_hits(items, query, scores, n);
    law_hits_follow_the_items(items, query, scores, (n - 1) as nat);
    lemma_best_is_some(fields, query, fields.len());
    lemma_holding_is_some(fields, query, 0);
    if item < n - 1 {
        law_an_item_is_a_hit_where_a_field_matches(items, query, scores, (n - 1) as nat, item);
        if fuzzy_now != fuzzy_before {
            assert(fuzzy_now.drop_last() =~= fuzzy_before);
        }
        if exact_now != exact_before {
            assert(exact_now.drop_last() =~= exact_before);
        }
        lemma_one_more_hit(fuzzy_before, fuzzy_now, n - 1, item);
        lemma_one_more_hit(exact_before, exact_now, n - 1, item);
    } else {
        assert(!is_hit(fuzzy_before, item));
        assert(!is_hit(exact_before, item));
        if best(fields, query, fields.len()) is Some {
            assert(fuzzy_now[fuzzy_now.len() - 1].item == item);
        }
        if holding(fields, query, 0) is Some {
            assert(exact_now[exact_now.len() - 1].item == item);
        }
    }
}

proof fn lemma_one_more_hit(before: Seq<Hit>, now: Seq<Hit>, last: int, item: int)
    requires
        now == before || now.len() == before.len() + 1 && now.drop_last() == before
            && now.last().item == last,
        item != last,
    ensures
        is_hit(now, item) == is_hit(before, item),
{
    if is_hit(before, item) {
        let h = choose|h: int| 0 <= h < before.len() && (#[trigger] before[h]).item == item;
        assert(now[h].item == item);
    }
    if is_hit(now, item) {
        let h = choose|h: int| 0 <= h < now.len() && (#[trigger] now[h]).item == item;
        if h < before.len() {
            assert(before[h] == now[h]);
        }
    }
}

/// Ranking neither loses nor invents a hit.
pub proof fn law_ranking_keeps_every_match(hits: Seq<Hit>)
    ensures
        ranked(hits).to_multiset() == hits.to_multiset(),
    decreases hits.len(),
{
    if hits.len() > 0 {
        let front = hits.drop_last();
        law_ranking_keeps_every_match(front);
        let before = ranked(front);
        lemma_place(before, hits.last().score, 0);
        let at = place(before, hits.last().score, 0);
        assert(front.push(hits.last()) =~= hits);
        let now = ranked(hits);
        assert(now.remove(at) =~= before);
        assert(now[at] == hits.last());
        now.to_multiset_ensures();
        front.to_multiset_ensures();
        assert(now.contains(now[at]));
        assert(now.to_multiset() =~= now.to_multiset().remove(now[at]).insert(now[at]));
    } else {
        assert(hits =~= Seq::<Hit>::empty());
    }
}

/// Hits in the order of their items, no item twice, all below `n`.
pub open spec fn in_item_order(hits: Seq<Hit>, n: int) -> bool {
    &&& forall|i: int, j: int|
        0 <= i < j < hits.len() ==> (#[trigger] hits[i]).item < (#[trigger] hits[j]).item
    &&& forall|i: int| 0 <= i < hits.len() ==> 0 <= (#[trigger] hits[i]).item < n
}

/// Every item is a hit at most once, and hits come in the order of the items.
pub proof fn law_hits_follow_the_items(
    items: Seq<Item>,
    query: Seq<char>,
    scores: Seq<u64>,
    n: nat,
)
    ensures
        in_item_order(fuzzy_hits(items, query, n), n as int),
        in_item_order(exact_hits(items, query, scores, n), n as int),
    decreases n,
{
    if n > 0 {
        law_hits_follow_the_items(items, query, scores, (n - 1) as nat);
        let fuzzy_before = fuzzy_hits(items, query, (n - 1) as nat);
        let fuzzy_now = fuzzy_hits(items, query, n);
        assert forall|i: int, j: int| 0 <= i < j < fuzzy_now.len() implies (
        #[trigger] fuzzy_now[i]).item < (#[trigger] fuzzy_now[j]).item by {
            assert(fuzzy_now[i] == fuzzy_before[i]);
            assert(j < fuzzy_before.len() ==> fuzzy_now[j] == fuzzy_before[j]);
        }
        assert forall|i: int| 0 <= i < fuzzy_now.len() implies 0 <= (#[trigger] fuzzy_now[i]).item
            < n by {
            assert(i < fuzzy_before.len() ==> fuzzy_now[i] == fuzzy_before[i]);
        }
        let exact_before = exact_hits(items, query, scores, (n - 1) as nat);
        let exact_now = exact_hits(items, query, scores, n);
        assert forall|i: int, j: int| 0 <= i < j < exact_now.len() implies (
        #[trigger] exact_now[i]).item < (#[trigger] exact_now[j]).item by {
            assert(exact_now[i] == exact_before[i]);
            assert(j < exact_before.len() ==> exact_now[j] == exact_before[j]);
        }
        assert forall|i: int| 0 <= i < exact_now.len() implies 0 <= (#[trigger] exact_now[i]).item
            < n by {
            assert(i < exact_before.len() ==> exact_now[i] == exact_before[i]);
        }
    }
}

/// Hits of one score keep the order they came in.
pub proof fn law_equal_matches_keep_their_order(hits: Seq<Hit>)
    requires
        forall|i: int, j: int|
            0 <= i < j < hits.len() ==> (#[trigger] hits[i]).item < (#[trigger] hits[j]).item,
    ensures
        forall|i: int, j: int|
            0 <= i < j < ranked(hits).len() && (#[trigger] ranked(hits)[i]).score == (
            #[trigger] ranked(hits)[j]).score ==> ranked(hits)[i].item < ranked(hits)[j].item,
        forall|i: int|
            0 <= i < ranked(hits).len() ==> hits.len() > 0 && (#[trigger] ranked(hits)[i]).item
                <= hits.last().item,
    decreases hits.len(),
{
    if hits.len() > 0 {
        let front = hits.drop_last();
        assert forall|i: int, j: int| 0 <= i < j < front.len() implies (#[trigger] front[i]).item < (
        #[trigger] front[j]).item by {
            assert(front[i] == hits[i] && front[j] == hits[j]);
        }
        law_equal_matches_keep_their_order(front);
        law_better_matches_come_first(front);
        let before = ranked(front);
        let last = hits.last();
        let at = place(before, last.score, 0);
        lemma_place(before, last.score, 0);
        let now = ranked(hits);
        assert(now == before.insert(at, last));
        if front.len() > 0 {
            assert(front.last() == hits[hits.len() - 2]);
            assert(last == hits[hits.len() - 1]);
            assert(front.last().item < last.item);
        }
        assert forall|i: int| 0 <= i < now.len() implies (#[trigger] now[i]).item <= last.item by {
            if i < at {
                assert(now[i] == before[i]);
            } else if i > at {
                assert(now[i] == before[i - 1]);
            }
        }
        assert forall|i: int, j: int|
            0 <= i < j < now.len() && (#[trigger] now[i]).score == (#[trigger] now[j]).score implies now[i].item
            < now[j].item by {
            if j < at {
                assert(now[i] == before[i] && now[j] == before[j]);
            } else if j == at {
                assert(now[i] == before[i]);
            } else if i == at {
                assert(now[j] == before[j - 1]);
                assert(before[at].score >= before[j - 1].score);
            } else if i < at {
                assert(now[i] == before[i] && now[j] == before[j - 1]);
            } else {
                assert(now[i] == before[i - 1] && now[j] == before[j - 1]);
            }
        }
    }
}

/// What an exact hit is: an item that holds the query, with its score and places.
pub open spec fn exact_hit(items: Seq<Item>, query: Seq<char>, scores: Seq<u64>, hit: Hit) -> bool {
    let fields = items[hit.item].search_fields@;
    &&& 0 <= hit.item < items.len()
    &&& holding(fields, query, 0) is Some
    &&& hit.score == scores[hit.item]
    &&& hit.positions == span(found_in(fields[holding(fields, query, 0)->0]@, query)->0, query)
}

proof fn lemma_exact_hits(items: Seq<Item>, query: Seq<char>, scores: Seq<u64>, n: nat)
    requires
        n <= items.len(),
    ensures
        forall|i: int|
            0 <= i < exact_hits(items, query, scores, n).len() ==> exact_hit(
                items,
                query,
                scores,
                #[trigger] exact_hits(items, query, scores, n)[i],
            ),
    decreases n,
{
    if n > 0 {
        lemma_exact_hits(items, query, scores, (n - 1) as nat);
        let before = exact_hits(items, query, scores, (n - 1) as nat);
        let now = exact_hits(items, query, scores, n);
        assert forall|i: int| 0 <= i < now.len() implies exact_hit(
            items,
            query,
            scores,
            #[trigger] now[i],
        ) by {
            if i < before.len() {
                assert(now[i] == before[i]);
            }
        }
    }
}

proof fn lemma_ranked_hits_are_hits(hits: Seq<Hit>, i: int) -> (j: int)
    requires
        0 <= i < ranked(hits).len(),
    ensures
        0 <= j < hits.len(),
        ranked(hits)[i] == hits[j],
{
    law_ranking_keeps_every_match(hits);
    let now = ranked(hits);
    now.to_multiset_ensures();
    hits.to_multiset_ensures();
    assert(now.contains(now[i]));
    assert(hits.to_multiset().count(now[i]) > 0);
    assert(hits.contains(now[i]));
    hits.index_of(now[i])
}

proof fn lemma_ranked_stay(hits: Seq<Hit>)
    requires
        forall|i: int, j: int|
            0 <= i <= j < hits.len() ==> (#[trigger] hits[i]).score >= (#[trigger] hits[j]).score,
    ensures
        ranked(hits) == hits,
    decreases hits.len(),
{
    if hits.len() > 0 {
        let front = hits.drop_last();
        assert forall|i: int, j: int| 0 <= i <= j < front.len() implies (
        #[trigger] front[i]).score >= (#[trigger] front[j]).score by {
            assert(front[i] == hits[i] && front[j] == hits[j]);
        }
        lemma_ranked_stay(front);
        lemma_place(front, hits.last().score, 0);
        let at = place(front, hits.last().score, 0);
        if at < front.len() {
            assert(front[at] == hits[at]);
            assert(hits[at].score >= hits[hits.len() - 1].score);
        }
        assert(front.insert(at, hits.last()) =~= hits);
    } else {
        assert(ranked(hits) =~= hits);
    }
}

/// The hits of a list that is the outcome already: each item at its own place.
proof fn lemma_hits_of_a_result(
    listed: Seq<Item>,
    order: Seq<Hit>,
    query: Seq<char>,
    scores: Seq<u64>,
    n: nat,
)
    requires
        n <= listed.len(),
        listed.len() == order.len(),
        forall|i: int|
            0 <= i < listed.len() ==> exact_hit(
                listed,
                query,
                scores,
                Hit { item: i, score: order[i].score, positions: (#[trigger] order[i]).positions },
            ),
    ensures
        exact_hits(listed, query, scores, n) == Seq::new(
            n,
            |i: int| Hit { item: i, score: order[i].score, positions: order[i].positions },
        ),
    decreases n,
{
    let told = Seq::new(
        n,
        |i: int| Hit { item: i, score: order[i].score, positions: order[i].positions },
    );
    if n > 0 {
        lemma_hits_of_a_result(listed, order, query, scores, (n - 1) as nat);
        let last = order[n - 1];
        assert(exact_hit(
            listed,
            query,
            scores,
            Hit { item: n - 1, score: last.score, positions: last.positions },
        ));
        assert(exact_hits(listed, query, scores, n) =~= told);
    } else {
        assert(exact_hits(listed, query, scores, n) =~= told);
    }
}

/// Scoring the outcome of an exact match again changes nothing, for a `weigh`
/// that gives the same number for the same match.
pub proof fn law_scoring_exactly_again_changes_nothing<F: Fn(usize, usize, usize) -> u64>(
    weigh: F,
    items: Seq<Item>,
    query: Seq<char>,
    scores: Seq<u64>,
    listed: Seq<Item>,
    scores_again: Seq<u64>,
    listed_again: Seq<Item>,
)
    requires
        forall|args: (usize, usize, usize), a: u64, b: u64|
            #![trigger call_ensures(weigh, args, a), call_ensures(weigh, args, b)]
            call_ensures(weigh, args, a) && call_ensures(weigh, args, b) ==> a == b,
        weighed(weigh, items, query, scores, items.len() as int),
        lists(items, ranked(exact_hits(items, query, scores, items.len())), listed),
        weighed(weigh, listed, query, scores_again, listed.len() as int),
        lists(
            listed,
            ranked(exact_hits(listed, query, scores_again, listed.len())),
            listed_again,
        ),
    ensures
        listed_again.len() == listed.len(),
        forall|i: int|
            0 <= i < listed.len() ==> crate::launcher::item::annotated(
                listed[i],
                #[trigger] listed_again[i],
                listed[i].score,
                listed[i].match_positions@,
            ),
{
    let hits = exact_hits(items, query, scores, items.len());
    let order = ranked(hits);
    assert forall|i: int| 0 <= i < listed.len() implies exact_hit(
        listed,
        query,
        scores_again,
        Hit { item: i, score: order[i].score, positions: (#[trigger] order[i]).positions },
    ) by {
        let j = lemma_ranked_hits_are_hits(hits, i);
        lemma_exact_hits(items, query, scores, items.len());
        let hit = hits[j];
        assert(exact_hit(items, query, scores, hit));
        assert(listed[i].search_fields == items[hit.item].search_fields);
        assert(holding(items[hit.item].search_fields@, query, 0) is Some);
        assert(holding(listed[i].search_fields@, query, 0) is Some);
    }
    lemma_hits_of_a_result(listed, order, query, scores_again, listed.len());
    let told = exact_hits(listed, query, scores_again, listed.len());
    law_better_matches_come_first(hits);
    assert forall|i: int, j: int| 0 <= i <= j < told.len() implies (#[trigger] told[i]).score >= (
    #[trigger] told[j]).score by {
        assert(order[i].score >= order[j].score);
    }
    lemma_ranked_stay(told);
    assert forall|i: int| 0 <= i < listed.len() implies crate::launcher::item::annotated(
        listed[i],
        #[trigger] listed_again[i],
        listed[i].score,
        listed[i].match_positions@,
    ) by {
        assert(told[i].item == i);
        assert(order[i].score == listed[i].score);
    }
}

/// What a match counts in each field: all of it in the first, and in the second and
/// third as many whole points as four and three fifths of it hold. Of two fifths in
/// the fourth, and of one fifth from there on, it counts the whole points that lie
/// below them.
pub proof fn law_each_field_counts_its_share(score: u16, field: int)
    requires
        0 <= field,
    ensures
        field == 0 ==> weighted(score, field) == score,
        field == 1 ==> 5 * weighted(score, field) <= 4 * score < 5 * weighted(score, field) + 5,
        field == 2 ==> 5 * weighted(score, field) <= 3 * score < 5 * weighted(score, field) + 5,
        field == 3 && score > 0 ==> 5 * weighted(score, field) < 2 * score <= 5 * weighted(
            score,
            field,
        ) + 5,
        field > 3 && score > 0 ==> 5 * weighted(score, field) < score <= 5 * weighted(score, field)
            + 5,
        score == 0 ==> weighted(score, field) == 0,
{
}

/// Whether `listed` is the item `was`, with no more than another rank and other
/// places that matched.
pub open spec fn is_item(was: Item, listed: Item) -> bool {
    &&& listed.id@ == was.id@
    &&& listed.label@ == was.label@
    &&& listed.sub@ == was.sub@
    &&& listed.icon@ == was.icon@
    &&& listed.provider@ == was.provider@
    &&& listed.tags@ == was.tags@
    &&& listed.actions@ == was.actions@
    &&& listed.search_fields@ == was.search_fields@
}

/// Whether `listed` lists the items at the places `from`: none twice, the larger
/// scores first, and of equal scores the item that came first.
pub open spec fn is_listing(items: Seq<Item>, listed: Seq<Item>, from: Seq<int>) -> bool {
    &&& from.len() == listed.len()
    &&& forall|k: int|
        0 <= k < from.len() ==> 0 <= #[trigger] from[k] < items.len() && is_item(
            items[from[k]],
            listed[k],
        )
    &&& forall|k: int, l: int|
        0 <= k < l < from.len() ==> #[trigger] from[k] != #[trigger] from[l] && (listed[k].score
            > listed[l].score || listed[k].score == listed[l].score && from[k] < from[l])
}

/// Whether an item counts by its field at `at`: the field matches, the item has its
/// score and places, no field that matches counts more, and none before it as much.
pub open spec fn counts_by(item: Item, query: Seq<char>, at: int) -> bool {
    &&& 0 <= at < item.search_fields@.len()
    &&& fuzzy(query, item.search_fields@[at]@) matches Some(m) && item.score == weighted(m.0, at)
        && item.match_positions@ == m.1
    &&& forall|f: int|
        0 <= f < item.search_fields@.len() ==> (fuzzy(
            query,
            (#[trigger] item.search_fields@[f])@,
        ) matches Some(m) ==> weighted(m.0, f) <= item.score && (f < at ==> weighted(m.0, f)
            < item.score))
}

/// Whether an item counts by its best field.
pub open spec fn counts_by_its_best_field(item: Item, query: Seq<char>) -> bool {
    exists|at: int| counts_by(item, query, at)
}

proof fn lemma_best(fields: Seq<String>, query: Seq<char>, n: nat) -> (at: int)
    requires
        n <= fields.len(),
        best(fields, query, n) is Some,
    ensures
        0 <= at < n,
        fuzzy(query, fields[at]@) is Some,
        best(fields, query, n) == Some(
            (
                weighted((fuzzy(query, fields[at]@)->0).0, at),
                (fuzzy(query, fields[at]@)->0).1,
            ),
        ),
        forall|f: int|
            0 <= f < n ==> (fuzzy(query, (#[trigger] fields[f])@) matches Some(m) ==> weighted(
                m.0,
                f,
            ) <= (best(fields, query, n)->0).0 && (f < at ==> weighted(m.0, f) < (best(
                fields,
                query,
                n,
            )->0).0)),
    decreases n,
{
    let before = best(fields, query, (n - 1) as nat);
    lemma_best_is_some(fields, query, (n - 1) as nat);
    if before is None {
        assert(fuzzy(query, fields[n - 1]@) is Some);
        n - 1
    } else {
        let at = lemma_best(fields, query, (n - 1) as nat);
        if best(fields, query, n) == before {
            at
        } else {
            n - 1
        }
    }
}

proof fn lemma_fuzzy_hits(items: Seq<Item>, query: Seq<char>, n: nat)
    requires
        n <= items.len(),
    ensures
        forall|h: int|
            0 <= h < fuzzy_hits(items, query, n).len() ==> {
                let hit = #[trigger] fuzzy_hits(items, query, n)[h];
                let fields = items[hit.item].search_fields@;
                0 <= hit.item < n && best(fields, query, fields.len()) == Some(
                    (hit.score, hit.positions),
                )
            },
    decreases n,
{
    if n > 0 {
        lemma_fuzzy_hits(items, query, (n - 1) as nat);
        let before = fuzzy_hits(items, query, (n - 1) as nat);
        let now = fuzzy_hits(items, query, n);
        assert forall|h: int| 0 <= h < now.len() implies {
            let hit = #[trigger] now[h];
            let fields = items[hit.item].search_fields@;
            0 <= hit.item < n && best(fields, query, fields.len()) == Some(
                (hit.score, hit.positions),
            )
        } by {
            if h < before.len() {
                assert(now[h] == before[h]);
            }
        }
    }
}

/// The places of the items in the order of their hits.
spec fn sources(hits: Seq<Hit>) -> Seq<int> {
    Seq::new(ranked(hits).len(), |k: int| ranked(hits)[k].item)
}

proof fn lemma_listing(items: Seq<Item>, hits: Seq<Hit>, listed: Seq<Item>)
    requires
        in_item_order(hits, items.len() as int),
        lists(items, ranked(hits), listed),
    ensures
        is_listing(items, listed, sources(hits)),
        forall|i: int| sources(hits).contains(i) <==> #[trigger] is_hit(hits, i),
{
    let order = ranked(hits);
    let from = sources(hits);
    law_better_matches_come_first(hits);
    law_equal_matches_keep_their_order(hits);
    assert forall|k: int| 0 <= k < from.len() implies 0 <= #[trigger] from[k] < items.len()
        && is_item(items[from[k]], listed[k]) by {
        let j = lemma_ranked_hits_are_hits(hits, k);
        assert(order[k] == hits[j]);
    }
    assert forall|k: int, l: int| 0 <= k < l < from.len() implies #[trigger] from[k]
        != #[trigger] from[l] && (listed[k].score > listed[l].score || listed[k].score
        == listed[l].score && from[k] < from[l]) by {
        let a = lemma_ranked_hits_are_hits(hits, k);
        let b = lemma_ranked_hits_are_hits(hits, l);
        assert(order[k].score >= order[l].score);
        assert(listed[k].score == order[k].score && listed[l].score == order[l].score);
        if order[k].score != order[l].score {
            assert(a != b);
            assert(hits[a].item != hits[b].item);
        }
    }
    assert forall|i: int| from.contains(i) <==> #[trigger] is_hit(hits, i) by {
        if from.contains(i) {
            let k = from.index_of(i);
            let j = lemma_ranked_hits_are_hits(hits, k);
            assert(hits[j].item == i);
        }
        if is_hit(hits, i) {
            let h = choose|h: int| 0 <= h < hits.len() && (#[trigger] hits[h]).item == i;
            law_ranking_keeps_every_match(hits);
            order.to_multiset_ensures();
            hits.to_multiset_ensures();
            assert(hits.contains(hits[h]));
            assert(order.to_multiset().count(hits[h]) > 0);
            assert(order.contains(hits[h]));
            let k = order.index_of(hits[h]);
            assert(from[k] == i);
        }
    }
}

/// What a fuzzy search lists: exactly the items of which some field matches, each
/// once and otherwise as it was, the best first. Each counts by its best field: no
/// field that matches counts more than the item does, and it has the score and the
/// places of the earliest field that counts as much.
pub proof fn law_a_fuzzy_search_lists_by_the_best_field(
    items: Seq<Item>,
    query: Seq<char>,
    listed: Seq<Item>,
)
    requires
        lists(items, ranked(fuzzy_hits(items, query, items.len())), listed),
    ensures
        exists|from: Seq<int>|
            {
                &&& #[trigger] is_listing(items, listed, from)
                &&& forall|i: int|
                    0 <= i < items.len() ==> (from.contains(i) <==> exists|f: int|
                        0 <= f < items[i].search_fields@.len() && fuzzy(
                            query,
                            (#[trigger] items[i].search_fields@[f])@,
                        ) is Some)
            },
        forall|k: int|
            0 <= k < listed.len() ==> counts_by_its_best_field(#[trigger] listed[k], query),
{
    let hits = fuzzy_hits(items, query, items.len());
    let none = Seq::<u64>::empty();
    law_hits_follow_the_items(items, query, none, items.len());
    lemma_listing(items, hits, listed);
    let from = sources(hits);
    assert(is_listing(items, listed, from));
    assert forall|i: int| 0 <= i < items.len() implies (from.contains(i) <==> exists|f: int|
        0 <= f < items[i].search_fields@.len() && fuzzy(
            query,
            (#[trigger] items[i].search_fields@[f])@,
        ) is Some) by {
        law_an_item_is_a_hit_where_a_field_matches(items, query, none, items.len(), i);
        assert(from.contains(i) <==> is_hit(hits, i));
    }
    assert forall|k: int| 0 <= k < listed.len() implies counts_by_its_best_field(
        #[trigger] listed[k],
        query,
    ) by {
        let j = lemma_ranked_hits_are_hits(hits, k);
        lemma_fuzzy_hits(items, query, items.len());
        let hit = hits[j];
        assert(ranked(hits)[k] == hit);
        let fields = items[hit.item].search_fields@;
        let at = lemma_best(fields, query, fields.len());
        assert(listed[k].search_fields@ == fields);
        assert(counts_by(listed[k], query, at));
    }
}

/// Whether one text, in bytes, stands in another from byte `at`.
pub open spec fn occurs_at(hay: Seq<u8>, needle: Seq<u8>, at: int) -> bool {
    &&& 0 <= at
    &&& at + needle.len() <= hay.len()
    &&& forall|i: int| 0 <= i < needle.len() ==> #[trigger] hay[at + i] == needle[i]
}

/// Whether a field holds the query, both in lower case, first at byte `at`.
pub open spec fn first_held_at(field: Seq<char>, query: Seq<char>, at: int) -> bool {
    let hay = vstd::utf8::encode_utf8(lowercase(field));
    let needle = vstd::utf8::encode_utf8(lowercase(query));
    occurs_at(hay, needle, at) && forall|x: int| x < at ==> !#[trigger] occurs_at(hay, needle, x)
}

/// Whether a field holds the query nowhere, both in lower case.
pub open spec fn held_nowhere(field: Seq<char>, query: Seq<char>) -> bool {
    let hay = vstd::utf8::encode_utf8(lowercase(field));
    let needle = vstd::utf8::encode_utf8(lowercase(query));
    forall|x: int| !#[trigger] occurs_at(hay, needle, x)
}

proof fn lemma_occurs(hay: Seq<u8>, needle: Seq<u8>, at: int)
    ensures
        occurs_at(hay, needle, at) == bytes_at(hay, needle, at),
{
    if 0 <= at && at + needle.len() <= hay.len() {
        let part = hay.subrange(at, at + needle.len());
        if occurs_at(hay, needle, at) {
            assert forall|i: int| 0 <= i < needle.len() implies #[trigger] part[i] == needle[i] by {
                assert(hay[at + i] == needle[i]);
            }
            assert(part =~= needle);
        }
        if bytes_at(hay, needle, at) {
            assert forall|i: int| 0 <= i < needle.len() implies #[trigger] hay[at + i]
                == needle[i] by {
                assert(part[i] == needle[i]);
            }
        }
    }
}

proof fn lemma_first_bytes(hay: Seq<u8>, needle: Seq<u8>, from: int)
    requires
        0 <= from,
    ensures
        match first_bytes(hay, needle, from) {
            Some(at) => from <= at && bytes_at(hay, needle, at) && forall|x: int|
                from <= x < at ==> !#[trigger] bytes_at(hay, needle, x),
            None => forall|x: int| from <= x ==> !#[trigger] bytes_at(hay, needle, x),
        },
    decreases hay.len() + 1 - from,
{
    if from <= hay.len() && !bytes_at(hay, needle, from) {
        lemma_first_bytes(hay, needle, from + 1);
    }
}

/// Looking for a query in a field finds the first place where it stands, in any
/// case, and finds none only where there is none.
pub proof fn law_the_first_occurrence_is_found(field: Seq<char>, query: Seq<char>)
    ensures
        match found_in(field, query) {
            Some(at) => first_held_at(field, query, at),
            None => held_nowhere(field, query),
        },
{
    let hay = vstd::utf8::encode_utf8(lowercase(field));
    let needle = vstd::utf8::encode_utf8(lowercase(query));
    lemma_first_bytes(hay, needle, 0);
    assert forall|x: int| #[trigger] occurs_at(hay, needle, x) == bytes_at(hay, needle, x) by {
        lemma_occurs(hay, needle, x);
    }
}

proof fn lemma_holding(fields: Seq<String>, query: Seq<char>, from: int)
    requires
        0 <= from,
    ensures
        holding(fields, query, from) matches Some(f) ==> from <= f < fields.len() && found_in(
            fields[f]@,
            query,
        ) is Some && forall|g: int|
            from <= g < f ==> found_in((#[trigger] fields[g])@, query) is None,
    decreases fields.len() - from,
{
    if from < fields.len() && found_in(fields[from]@, query) is None {
        lemma_holding(fields, query, from + 1);
    }
}

/// Whether an item counts by its field `f`, which is the first to hold the query,
/// at byte `at`: it has the number that `weigh` gives that place and the lengths of
/// query and field in bytes, and the places are those of as many bytes as the query
/// has.
pub open spec fn counts_exactly<F: Fn(usize, usize, usize) -> u64>(
    weigh: F,
    item: Item,
    query: Seq<char>,
    f: int,
    at: int,
) -> bool {
    let len = vstd::utf8::encode_utf8(query).len();
    &&& 0 <= f < item.search_fields@.len()
    &&& first_held_at(item.search_fields@[f]@, query, at)
    &&& forall|g: int|
        0 <= g < f ==> held_nowhere((#[trigger] item.search_fields@[g])@, query)
    &&& call_ensures(
        weigh,
        (
            at as usize,
            len as usize,
            vstd::utf8::encode_utf8(item.search_fields@[f]@).len() as usize,
        ),
        item.score,
    )
    &&& at + len <= u32::MAX ==> item.match_positions@.len() == len && forall|i: int|
        0 <= i < len ==> #[trigger] item.match_positions@[i] == at + i
}

/// Whether an item counts by the first of its fields that holds the query.
pub open spec fn counts_by_its_first_field<F: Fn(usize, usize, usize) -> u64>(
    weigh: F,
    item: Item,
    query: Seq<char>,
) -> bool {
    exists|f: int, at: int| counts_exactly(weigh, item, query, f, at)
}

/// What an exact search lists: exactly the items of which some field holds the
/// query in any case, each once and otherwise as it was, the best first. Each
/// counts by the first of its fields that does.
pub proof fn law_an_exact_search_lists_by_the_first_field<F: Fn(usize, usize, usize) -> u64>(
    weigh: F,
    items: Seq<Item>,
    query: Seq<char>,
    scores: Seq<u64>,
    listed: Seq<Item>,
)
    requires
        weighed(weigh, items, query, scores, items.len() as int),
        lists(items, ranked(exact_hits(items, query, scores, items.len())), listed),
    ensures
        exists|from: Seq<int>|
            {
                &&& #[trigger] is_listing(items, listed, from)
                &&& forall|i: int|
                    0 <= i < items.len() ==> (from.contains(i) <==> exists|f: int|
                        0 <= f < items[i].search_fields@.len() && !held_nowhere(
                            (#[trigger] items[i].search_fields@[f])@,
                            query,
                        ))
            },
        forall|k: int|
            0 <= k < listed.len() ==> counts_by_its_first_field(
                weigh,
                #[trigger] listed[k],
                query,
            ),
{
    let hits = exact_hits(items, query, scores, items.len());
    law_hits_follow_the_items(items, query, scores, items.len());
    lemma_listing(items, hits, listed);
    let from = sources(hits);
    assert(is_listing(items, listed, from));
    assert forall|i: int| 0 <= i < items.len() implies (from.contains(i) <==> exists|f: int|
        0 <= f < items[i].search_fields@.len() && !held_nowhere(
            (#[trigger] items[i].search_fields@[f])@,
            query,
        )) by {
        law_an_item_is_a_hit_where_a_field_matches(items, query, scores, items.len(), i);
        assert(from.contains(i) <==> is_hit(hits, i));
        assert forall|f: int| 0 <= f < items[i].search_fields@.len() implies (found_in(
            (#[trigger] items[i].search_fields@[f])@,
            query,
        ) is Some <==> !held_nowhere(items[i].search_fields@[f]@, query)) by {
            law_the_first_occurrence_is_found(items[i].search_fields@[f]@, query);
        }
    }
    assert forall|k: int| 0 <= k < listed.len() implies counts_by_its_first_field(
        weigh,
        #[trigger] listed[k],
        query,
    ) by {
        let j = lemma_ranked_hits_are_hits(hits, k);
        lemma_exact_hits(items, query, scores, items.len());
        let hit = hits[j];
        assert(ranked(hits)[k] == hit);
        assert(exact_hit(items, query, scores, hit));
        let fields = items[hit.item].search_fields@;
        lemma_holding(fields, query, 0);
        let f = holding(fields, query, 0)->0;
        let at = found_in(fields[f]@, query)->0;
        law_the_first_occurrence_is_found(fields[f]@, query);
        assert forall|g: int| 0 <= g < f implies held_nowhere((#[trigger] fields[g])@, query) by {
            law_the_first_occurrence_is_found(fields[g]@, query);
        }
        assert(listed[k].search_fields@ == fields);
        assert(listed[k].match_positions@ == span(at, query));
        assert(counts_exactly(weigh, listed[k], query, f, at));
    }
}

} // verus!
