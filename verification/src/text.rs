//! Text as a sequence of characters: the handful of string operations the rest
//! of the library is written in, each with an exact contract.

use vstd::prelude::*;

verus! {

/// `String::push` appends the one character.
pub assume_specification[ String::push ](s: &mut String, c: char)
    ensures
        final(s)@ == old(s)@.push(c),
;

// ---------------------------------------------------------------------------
// Building and taking apart
// ---------------------------------------------------------------------------

/// The characters of `s`, in order.
pub fn chars_of(s: &str) -> (res: Vec<char>)
    ensures
        res@ == s@,
{
    let mut out: Vec<char> = Vec::new();
    for c in it: s.chars()
        invariant
            out@ == s@.take(it.index()),
            it.seq() == s@,
    {
        out.push(c);
    }
    out
}

/// The string spelled by `cs[from..to]`.
pub fn string_of(cs: &Vec<char>, from: usize, to: usize) -> (res: String)
    requires
        from <= to <= cs@.len(),
    ensures
        res@ == cs@.subrange(from as int, to as int),
{
    let mut out: String = String::new();
    let mut i: usize = from;
    while i < to
        invariant
            from <= i <= to <= cs@.len(),
            out@ == cs@.subrange(from as int, i as int),
        decreases to - i,
    {
        out.push(cs[i]);
        i = i + 1;
        assert(out@ =~= cs@.subrange(from as int, i as int));
    }
    out
}

/// Whether two strings hold the same characters.
pub fn same(a: &str, b: &str) -> (res: bool)
    ensures
        res == (a@ == b@),
{
    let x: Vec<char> = chars_of(a);
    let y: Vec<char> = chars_of(b);
    same_chars(&x, &y)
}

pub fn same_chars(x: &Vec<char>, y: &Vec<char>) -> (res: bool)
    ensures
        res == (x@ == y@),
{
    if x.len() != y.len() {
        return false;
    }
    let mut i: usize = 0;
    while i < x.len()
        invariant
            i <= x@.len() == y@.len(),
            forall|j: int| 0 <= j < i ==> x@[j] == y@[j],
        decreases x@.len() - i,
    {
        if x[i] != y[i] {
            return false;
        }
        i = i + 1;
    }
    assert(x@ =~= y@);
    true
}

/// `a` followed by `b`.
pub fn cat(a: &str, b: &str) -> (res: String)
    ensures
        res@ == a@ + b@,
{
    let mut out: String = a.to_owned();
    out.append(b);
    out
}

/// `a`, `b` and `c` in a row.
pub fn cat3(a: &str, b: &str, c: &str) -> (res: String)
    ensures
        res@ == a@ + b@ + c@,
{
    let mut out: String = a.to_owned();
    out.append(b);
    out.append(c);
    out
}

/// A fresh copy of `s`.
pub fn copy(s: &String) -> (res: String)
    ensures
        res@ == s@,
{
    s.as_str().to_owned()
}

/// The views of a list of strings.
pub open spec fn views(v: Seq<String>) -> Seq<Seq<char>> {
    Seq::new(v.len(), |i: int| v[i]@)
}

/// The view of a string that may be missing.
pub open spec fn opt_view(o: Option<String>) -> Option<Seq<char>> {
    match o {
        Some(s) => Some(s@),
        None => None,
    }
}

/// An outcome with the words of its error.
pub open spec fn in_words<T>(res: Result<T, String>) -> Result<T, Seq<char>> {
    match res {
        Ok(v) => Ok(v),
        Err(e) => Err(e@),
    }
}

// ---------------------------------------------------------------------------
// Character classes
// ---------------------------------------------------------------------------

/// The characters with the Unicode `White_Space` property.
pub open spec fn white_space(c: char) -> bool {
    ||| 0x09 <= c as u32 <= 0x0d
    ||| c as u32 == 0x20
    ||| c as u32 == 0x85
    ||| c as u32 == 0xa0
    ||| c as u32 == 0x1680
    ||| 0x2000 <= c as u32 <= 0x200a
    ||| c as u32 == 0x2028
    ||| c as u32 == 0x2029
    ||| c as u32 == 0x202f
    ||| c as u32 == 0x205f
    ||| c as u32 == 0x3000
}

pub fn is_white_space(c: char) -> (res: bool)
    ensures
        res == white_space(c),
{
    let n: u32 = c as u32;
    (0x09 <= n && n <= 0x0d) || n == 0x20 || n == 0x85 || n == 0xa0 || n == 0x1680 || (0x2000 <= n
        && n <= 0x200a) || n == 0x2028 || n == 0x2029 || n == 0x202f || n == 0x205f || n == 0x3000
}

/// A character is one of the code points.
pub proof fn lemma_char_range(c: char)
    ensures
        0 <= c as int <= 0x10ffff,
        c as u32 == c as int,
{
}

pub open spec fn ascii_digit(c: char) -> bool {
    '0' <= c <= '9'
}

pub open spec fn ascii_lower(c: char) -> bool {
    'a' <= c <= 'z'
}

pub open spec fn ascii_upper(c: char) -> bool {
    'A' <= c <= 'Z'
}

pub open spec fn ascii_alphanumeric(c: char) -> bool {
    ascii_digit(c) || ascii_lower(c) || ascii_upper(c)
}

pub fn is_ascii_digit(c: char) -> (res: bool)
    ensures
        res == ascii_digit(c),
{
    '0' <= c && c <= '9'
}

pub fn is_ascii_lower(c: char) -> (res: bool)
    ensures
        res == ascii_lower(c),
{
    'a' <= c && c <= 'z'
}

pub fn is_ascii_upper(c: char) -> (res: bool)
    ensures
        res == ascii_upper(c),
{
    'A' <= c && c <= 'Z'
}

pub fn is_ascii_alphanumeric(c: char) -> (res: bool)
    ensures
        res == ascii_alphanumeric(c),
{
    is_ascii_digit(c) || is_ascii_lower(c) || is_ascii_upper(c)
}

/// Nothing but ASCII characters.
pub open spec fn all_ascii(s: Seq<char>) -> bool {
    forall|i: int| 0 <= i < s.len() ==> (#[trigger] s[i] as u32) < 128
}

/// The lower-case form of an ASCII capital; every other character is itself.
pub open spec fn lowered(c: char) -> char {
    if ascii_upper(c) {
        (c as u8 + 32) as char
    } else {
        c
    }
}

pub fn to_ascii_lower(c: char) -> (res: char)
    ensures
        res == lowered(c),
{
    if is_ascii_upper(c) {
        (c as u8 + 32) as char
    } else {
        c
    }
}

/// The upper-case form of an ASCII small letter; every other character is itself.
pub open spec fn raised(c: char) -> char {
    if ascii_lower(c) {
        (c as u8 - 32) as char
    } else {
        c
    }
}

pub fn to_ascii_upper(c: char) -> (res: char)
    ensures
        res == raised(c),
{
    if is_ascii_lower(c) {
        (c as u8 - 32) as char
    } else {
        c
    }
}

// ---------------------------------------------------------------------------
// Looking inside
// ---------------------------------------------------------------------------

/// Whether `needle` stands in `hay` at position `at`.
pub open spec fn stands_at(hay: Seq<char>, needle: Seq<char>, at: int) -> bool {
    0 <= at && at + needle.len() <= hay.len() && hay.subrange(at, at + needle.len()) == needle
}

/// Whether `needle` stands anywhere in `hay`.
pub open spec fn holds(hay: Seq<char>, needle: Seq<char>) -> bool {
    exists|at: int| stands_at(hay, needle, at)
}

pub open spec fn begins(s: Seq<char>, prefix: Seq<char>) -> bool {
    stands_at(s, prefix, 0)
}

pub open spec fn ends(s: Seq<char>, suffix: Seq<char>) -> bool {
    stands_at(s, suffix, s.len() - suffix.len())
}

pub fn matches_at(hay: &Vec<char>, needle: &Vec<char>, at: usize) -> (res: bool)
    ensures
        res == stands_at(hay@, needle@, at as int),
{
    if at > hay.len() || hay.len() - at < needle.len() {
        return false;
    }
    let mut i: usize = 0;
    while i < needle.len()
        invariant
            i <= needle@.len(),
            at + needle@.len() <= hay@.len() <= usize::MAX,
            forall|j: int| 0 <= j < i ==> hay@[at + j] == needle@[j],
        decreases needle@.len() - i,
    {
        if hay[at + i] != needle[i] {
            assert(hay@.subrange(at as int, at + needle@.len())[i as int] == hay@[at + i]);
            return false;
        }
        i = i + 1;
    }
    assert(hay@.subrange(at as int, at + needle@.len()) =~= needle@);
    true
}

/// The first place at or after `from` where `needle` stands.
pub open spec fn first_from(hay: Seq<char>, needle: Seq<char>, from: int) -> Option<int>
    decreases hay.len() + 1 - from,
{
    if from > hay.len() {
        None
    } else if stands_at(hay, needle, from) {
        Some(from)
    } else {
        first_from(hay, needle, from + 1)
    }
}

pub open spec fn as_place(o: Option<usize>) -> Option<int> {
    match o {
        Some(n) => Some(n as int),
        None => None,
    }
}

pub fn find_from(hay: &Vec<char>, needle: &Vec<char>, from: usize) -> (res: Option<usize>)
    ensures
        as_place(res) == first_from(hay@, needle@, from as int),
{
    let mut i: usize = from;
    while i <= hay.len()
        invariant
            from <= i,
            i <= hay@.len() + 1 || i == from,
            first_from(hay@, needle@, from as int) == first_from(hay@, needle@, i as int),
        decreases hay@.len() + 1 - i,
    {
        if matches_at(hay, needle, i) {
            return Some(i);
        }
        if i == hay.len() {
            assert(first_from(hay@, needle@, i + 1) is None);
            return None;
        }
        i = i + 1;
    }
    None
}

/// A search that finds nothing means the needle stands nowhere from there on,
/// and one that finds a place finds the first.
pub proof fn lemma_first_from(hay: Seq<char>, needle: Seq<char>, from: int)
    requires
        0 <= from,
    ensures
        match first_from(hay, needle, from) {
            Some(p) => from <= p && stands_at(hay, needle, p) && forall|q: int|
                from <= q < p ==> !stands_at(hay, needle, q),
            None => forall|q: int| from <= q ==> !stands_at(hay, needle, q),
        },
    decreases hay.len() + 1 - from,
{
    if from <= hay.len() && !stands_at(hay, needle, from) {
        lemma_first_from(hay, needle, from + 1);
    }
}

pub fn contains(hay: &str, needle: &str) -> (res: bool)
    ensures
        res == holds(hay@, needle@),
{
    let h: Vec<char> = chars_of(hay);
    let n: Vec<char> = chars_of(needle);
    let found: Option<usize> = find_from(&h, &n, 0);
    proof {
        lemma_first_from(hay@, needle@, 0);
    }
    found.is_some()
}

pub fn starts_with(s: &str, prefix: &str) -> (res: bool)
    ensures
        res == begins(s@, prefix@),
{
    let h: Vec<char> = chars_of(s);
    let n: Vec<char> = chars_of(prefix);
    matches_at(&h, &n, 0)
}

pub fn ends_with(s: &str, suffix: &str) -> (res: bool)
    ensures
        res == ends(s@, suffix@),
{
    let h: Vec<char> = chars_of(s);
    let n: Vec<char> = chars_of(suffix);
    if h.len() < n.len() {
        return false;
    }
    matches_at(&h, &n, h.len() - n.len())
}

/// What follows `prefix` in `s`, where `s` begins with it.
pub open spec fn without_prefix(s: Seq<char>, prefix: Seq<char>) -> Option<Seq<char>> {
    if begins(s, prefix) {
        Some(s.skip(prefix.len() as int))
    } else {
        None
    }
}

pub fn strip_prefix(s: &str, prefix: &str) -> (res: Option<String>)
    ensures
        opt_view(res) == without_prefix(s@, prefix@),
{
    let h: Vec<char> = chars_of(s);
    let n: Vec<char> = chars_of(prefix);
    if matches_at(&h, &n, 0) {
        let rest: String = string_of(&h, n.len(), h.len());
        assert(rest@ =~= s@.skip(prefix@.len() as int));
        Some(rest)
    } else {
        None
    }
}

/// What stands before `suffix` in `s`, where `s` ends with it.
pub open spec fn without_suffix(s: Seq<char>, suffix: Seq<char>) -> Option<Seq<char>> {
    if ends(s, suffix) {
        Some(s.take(s.len() - suffix.len()))
    } else {
        None
    }
}

pub fn strip_suffix(s: &str, suffix: &str) -> (res: Option<String>)
    ensures
        opt_view(res) == without_suffix(s@, suffix@),
{
    if ends_with(s, suffix) {
        let h: Vec<char> = chars_of(s);
        let n: Vec<char> = chars_of(suffix);
        let rest: String = string_of(&h, 0, h.len() - n.len());
        assert(rest@ =~= s@.take(s@.len() - suffix@.len()));
        Some(rest)
    } else {
        None
    }
}

// ---------------------------------------------------------------------------
// Trimming
// ---------------------------------------------------------------------------

pub open spec fn trimmed_start(s: Seq<char>) -> Seq<char>
    decreases s.len(),
{
    if s.len() > 0 && white_space(s[0]) {
        trimmed_start(s.skip(1))
    } else {
        s
    }
}

pub open spec fn trimmed_end(s: Seq<char>) -> Seq<char>
    decreases s.len(),
{
    if s.len() > 0 && white_space(s.last()) {
        trimmed_end(s.drop_last())
    } else {
        s
    }
}

/// `s` without the white space at either end.
pub open spec fn trimmed(s: Seq<char>) -> Seq<char> {
    trimmed_end(trimmed_start(s))
}

/// A text that neither begins nor ends with white space.
pub open spec fn trim_free(s: Seq<char>) -> bool {
    s.len() > 0 ==> !white_space(s[0]) && !white_space(s.last())
}

proof fn lemma_trimmed_start(s: Seq<char>)
    ensures
        trimmed_start(s).len() > 0 ==> !white_space(trimmed_start(s)[0]),
    decreases s.len(),
{
    if s.len() > 0 && white_space(s[0]) {
        lemma_trimmed_start(s.skip(1));
    }
}

proof fn lemma_trimmed_end(s: Seq<char>)
    ensures
        trimmed_end(s).len() <= s.len(),
        trimmed_end(s).len() > 0 ==> !white_space(trimmed_end(s).last()) && trimmed_end(s)[0]
            == s[0],
    decreases s.len(),
{
    if s.len() > 0 && white_space(s.last()) {
        lemma_trimmed_end(s.drop_last());
    }
}

/// Trimming leaves no white space at either end, and changes nothing where
/// there is none.
pub proof fn law_trimming_is_final(s: Seq<char>)
    ensures
        trim_free(trimmed(s)),
        trimmed(trimmed(s)) == trimmed(s),
        trim_free(s) ==> trimmed(s) == s,
{
    lemma_trimmed_start(s);
    lemma_trimmed_end(trimmed_start(s));
}

pub fn trim_start(s: &str) -> (res: String)
    ensures
        res@ == trimmed_start(s@),
{
    let cs: Vec<char> = chars_of(s);
    let mut from: usize = 0;
    assert(s@.skip(0) =~= s@);
    while from < cs.len() && is_white_space(cs[from])
        invariant
            from <= cs@.len(),
            cs@ == s@,
            trimmed_start(s@) == trimmed_start(s@.skip(from as int)),
        decreases cs@.len() - from,
    {
        assert(s@.skip(from as int).skip(1) =~= s@.skip(from + 1));
        from = from + 1;
    }
    let out: String = string_of(&cs, from, cs.len());
    assert(out@ =~= s@.skip(from as int));
    out
}

pub fn trim_end(s: &str) -> (res: String)
    ensures
        res@ == trimmed_end(s@),
{
    let cs: Vec<char> = chars_of(s);
    let mut to: usize = cs.len();
    assert(s@.take(s@.len() as int) =~= s@);
    while to > 0 && is_white_space(cs[to - 1])
        invariant
            to <= cs@.len(),
            cs@ == s@,
            trimmed_end(s@) == trimmed_end(s@.take(to as int)),
        decreases to,
    {
        assert(s@.take(to as int).drop_last() =~= s@.take(to - 1));
        to = to - 1;
    }
    let out: String = string_of(&cs, 0, to);
    assert(out@ =~= s@.take(to as int));
    out
}

pub fn trim(s: &str) -> (res: String)
    ensures
        res@ == trimmed(s@),
{
    let front: String = trim_start(s);
    trim_end(front.as_str())
}

/// `s` without the run of `c` at its end.
pub open spec fn without_trailing(s: Seq<char>, c: char) -> Seq<char>
    decreases s.len(),
{
    if s.len() > 0 && s.last() == c {
        without_trailing(s.drop_last(), c)
    } else {
        s
    }
}

pub fn trim_end_matches(s: &str, c: char) -> (res: String)
    ensures
        res@ == without_trailing(s@, c),
{
    let cs: Vec<char> = chars_of(s);
    let mut to: usize = cs.len();
    assert(s@.take(s@.len() as int) =~= s@);
    while to > 0 && cs[to - 1] == c
        invariant
            to <= cs@.len(),
            cs@ == s@,
            without_trailing(s@, c) == without_trailing(s@.take(to as int), c),
        decreases to,
    {
        assert(s@.take(to as int).drop_last() =~= s@.take(to - 1));
        to = to - 1;
    }
    let out: String = string_of(&cs, 0, to);
    assert(out@ =~= s@.take(to as int));
    out
}

// ---------------------------------------------------------------------------
// Splitting and joining
// ---------------------------------------------------------------------------

/// The pieces of `s` between the separators: one more than there are
/// separators, so the empty text has one empty piece.
pub open spec fn pieces(s: Seq<char>, sep: char) -> Seq<Seq<char>>
    decreases s.len(),
{
    if s.len() == 0 {
        seq![Seq::<char>::empty()]
    } else {
        let before = pieces(s.drop_last(), sep);
        if s.last() == sep {
            before.push(Seq::<char>::empty())
        } else {
            before.drop_last().push(before.last().push(s.last()))
        }
    }
}

pub proof fn lemma_pieces_nonempty(s: Seq<char>, sep: char)
    ensures
        pieces(s, sep).len() > 0,
    decreases s.len(),
{
    if s.len() > 0 {
        lemma_pieces_nonempty(s.drop_last(), sep);
    }
}

pub fn split(s: &str, sep: char) -> (res: Vec<String>)
    ensures
        views(res@) == pieces(s@, sep),
        res@.len() > 0,
{
    let cs: Vec<char> = chars_of(s);
    let mut done: Vec<String> = Vec::new();
    let mut last: String = String::new();
    let mut i: usize = 0;
    assert(views(done@).push(last@) =~= pieces(s@.take(0), sep));
    while i < cs.len()
        invariant
            i <= cs@.len(),
            cs@ == s@,
            views(done@).push(last@) == pieces(s@.take(i as int), sep),
        decreases cs@.len() - i,
    {
        let c: char = cs[i];
        let ghost was = views(done@).push(last@);
        let ghost was_done = done@;
        let ghost was_last = last@;
        proof {
            assert(s@.take(i + 1).drop_last() =~= s@.take(i as int));
            assert(s@.take(i + 1).last() == c);
            assert(was.drop_last() =~= views(done@));
        }
        if c == sep {
            done.push(last);
            last = String::new();
            assert(views(done@) =~= was);
            assert(views(done@).push(last@) =~= was.push(Seq::<char>::empty()));
        } else {
            last.push(c);
            assert(views(done@).push(last@) =~= was.drop_last().push(was_last.push(c)));
        }
        i = i + 1;
    }
    assert(s@.take(i as int) =~= s@);
    let ghost was = views(done@).push(last@);
    done.push(last);
    assert(views(done@) =~= was);
    done
}

/// The parts of `v` in a row, `sep` between each two.
pub open spec fn joined(v: Seq<Seq<char>>, sep: Seq<char>) -> Seq<char>
    decreases v.len(),
{
    if v.len() == 0 {
        Seq::empty()
    } else if v.len() == 1 {
        v[0]
    } else {
        joined(v.drop_last(), sep) + sep + v.last()
    }
}

pub fn join(v: &Vec<String>, sep: &str) -> (res: String)
    ensures
        res@ == joined(views(v@), sep@),
{
    let mut out: String = String::new();
    let mut i: usize = 0;
    assert(views(v@.take(0)) =~= Seq::<Seq<char>>::empty());
    while i < v.len()
        invariant
            i <= v@.len(),
            out@ == joined(views(v@.take(i as int)), sep@),
        decreases v@.len() - i,
    {
        proof {
            let now = views(v@.take(i + 1));
            assert(now.drop_last() =~= views(v@.take(i as int)));
            assert(now.last() == v@[i as int]@);
        }
        if i > 0 {
            out.append(sep);
        }
        out.append(v[i].as_str());
        i = i + 1;
        assert(out@ =~= joined(views(v@.take(i as int)), sep@));
    }
    assert(v@.take(i as int) =~= v@);
    out
}

/// No `sep` in `s`.
pub open spec fn free_of(s: Seq<char>, sep: char) -> bool {
    forall|i: int| 0 <= i < s.len() ==> s[i] != sep
}

pub proof fn lemma_pieces_of_free(s: Seq<char>, sep: char)
    requires
        free_of(s, sep),
    ensures
        pieces(s, sep) == seq![s],
    decreases s.len(),
{
    if s.len() > 0 {
        lemma_pieces_of_free(s.drop_last(), sep);
        assert(s.drop_last().push(s.last()) =~= s);
        assert(pieces(s, sep) =~= seq![s]);
    } else {
        assert(s =~= Seq::<char>::empty());
    }
}

proof fn lemma_pieces_append(a: Seq<char>, b: Seq<char>, sep: char)
    requires
        free_of(b, sep),
    ensures
        pieces(a + seq![sep] + b, sep) == pieces(a, sep).push(b),
    decreases b.len(),
{
    let all = a + seq![sep] + b;
    if b.len() == 0 {
        assert(all.drop_last() =~= a);
        assert(b =~= Seq::<char>::empty());
    } else {
        lemma_pieces_append(a, b.drop_last(), sep);
        assert(all.drop_last() =~= a + seq![sep] + b.drop_last());
        assert(all.last() == b.last());
        assert(b.drop_last().push(b.last()) =~= b);
        assert(pieces(all, sep) =~= pieces(a, sep).push(b));
    }
}

/// Splitting undoes joining: parts that do not hold the separator come back as
/// they went in, as long as there is at least one.
pub proof fn law_split_undoes_join(v: Seq<Seq<char>>, sep: char)
    requires
        v.len() > 0,
        forall|i: int| 0 <= i < v.len() ==> free_of(#[trigger] v[i], sep),
    ensures
        pieces(joined(v, seq![sep]), sep) == v,
    decreases v.len(),
{
    if v.len() == 1 {
        lemma_pieces_of_free(v[0], sep);
        assert(v =~= seq![v[0]]);
    } else {
        let front = v.drop_last();
        assert forall|i: int| 0 <= i < front.len() implies free_of(#[trigger] front[i], sep) by {
            assert(front[i] == v[i]);
        }
        law_split_undoes_join(front, sep);
        assert(v.last() == v[v.len() - 1]);
        lemma_pieces_append(joined(front, seq![sep]), v.last(), sep);
        assert(front.push(v.last()) =~= v);
    }
}

/// No part of a split text holds the separator.
pub proof fn law_pieces_hold_no_separator(s: Seq<char>, sep: char)
    ensures
        forall|i: int| 0 <= i < pieces(s, sep).len() ==> free_of(#[trigger] pieces(s, sep)[i], sep),
    decreases s.len(),
{
    if s.len() > 0 {
        let front = s.drop_last();
        law_pieces_hold_no_separator(front, sep);
        lemma_pieces_nonempty(front, sep);
        let before = pieces(front, sep);
        let now = pieces(s, sep);
        assert forall|i: int| 0 <= i < now.len() implies free_of(#[trigger] now[i], sep) by {
            if i < before.len() {
                assert(free_of(before[i], sep));
            }
        }
    }
}

/// Joining undoes splitting, whatever the text.
pub proof fn law_join_undoes_split(s: Seq<char>, sep: char)
    ensures
        joined(pieces(s, sep), seq![sep]) == s,
    decreases s.len(),
{
    lemma_pieces_nonempty(s, sep);
    if s.len() > 0 {
        let front = s.drop_last();
        law_join_undoes_split(front, sep);
        lemma_pieces_nonempty(front, sep);
        let before = pieces(front, sep);
        let now = pieces(s, sep);
        assert(front.push(s.last()) =~= s);
        if s.last() == sep {
            assert(now.drop_last() =~= before);
            assert(joined(now, seq![sep]) =~= s);
        } else if before.len() == 1 {
            assert(joined(now, seq![sep]) =~= s);
        } else {
            assert(now.drop_last() =~= before.drop_last());
            assert(joined(now, seq![sep]) =~= s);
        }
    } else {
        assert(s =~= Seq::<char>::empty());
    }
}

/// A separator parts what stands before it from what stands after it: the parts of
/// the whole are those of the one and then those of the other.
pub proof fn law_parts_add_up(a: Seq<char>, b: Seq<char>, sep: char)
    ensures
        pieces(a + seq![sep] + b, sep) == pieces(a, sep) + pieces(b, sep),
    decreases b.len(),
{
    let all = a + seq![sep] + b;
    lemma_pieces_nonempty(b, sep);
    if b.len() == 0 {
        assert(all.drop_last() =~= a);
        assert(b =~= Seq::<char>::empty());
        assert(pieces(all, sep) =~= pieces(a, sep) + pieces(b, sep));
    } else {
        let front = b.drop_last();
        lemma_pieces_nonempty(front, sep);
        law_parts_add_up(a, front, sep);
        assert(all.drop_last() =~= a + seq![sep] + front);
        assert(all.last() == b.last());
        let before = pieces(a, sep) + pieces(front, sep);
        assert(before.last() == pieces(front, sep).last());
        assert(before.drop_last() =~= pieces(a, sep) + pieces(front, sep).drop_last());
        assert(pieces(all, sep) =~= pieces(a, sep) + pieces(b, sep));
    }
}

/// A text ends in the last of its parts.
pub proof fn law_a_text_ends_in_its_last_part(s: Seq<char>, sep: char)
    ensures
        ends(s, pieces(s, sep).last()),
{
    let parts = pieces(s, sep);
    lemma_pieces_nonempty(s, sep);
    law_join_undoes_split(s, sep);
    let last = parts.last();
    assert(s.len() >= last.len());
    assert(s.subrange(s.len() - last.len(), s.len() as int) =~= last);
}

// ---------------------------------------------------------------------------
// Numbers
// ---------------------------------------------------------------------------

pub open spec fn digit_char(d: nat) -> char {
    (48 + d) as char
}

/// `n` in decimal, without leading zeros.
pub open spec fn decimal(n: nat) -> Seq<char>
    decreases n,
{
    if n < 10 {
        seq![digit_char(n)]
    } else {
        decimal(n / 10).push(digit_char(n % 10))
    }
}

fn digit(d: u64) -> (res: char)
    requires
        d < 10,
    ensures
        res == digit_char(d as nat),
{
    (48 + d as u8) as char
}

pub fn decimal_of(n: u64) -> (res: String)
    ensures
        res@ == decimal(n as nat),
    decreases n,
{
    let mut out: String = if n < 10 {
        String::new()
    } else {
        decimal_of(n / 10)
    };
    out.push(digit(n % 10));
    assert(out@ =~= decimal(n as nat));
    out
}

/// `n` in decimal, with a sign where it is negative.
pub open spec fn signed_decimal(n: int) -> Seq<char> {
    if n < 0 {
        seq!['-'] + decimal((-n) as nat)
    } else {
        decimal(n as nat)
    }
}

pub fn signed_decimal_of(n: i64) -> (res: String)
    ensures
        res@ == signed_decimal(n as int),
{
    if n < 0 {
        let mut out: String = String::new();
        out.push('-');
        let size: u64 = (-(n as i128)) as u64;
        out.append(decimal_of(size).as_str());
        assert(out@ =~= signed_decimal(n as int));
        out
    } else {
        decimal_of(n as u64)
    }
}

/// What a run of decimal digits is worth.
pub open spec fn digits_value(s: Seq<char>) -> nat
    decreases s.len(),
{
    if s.len() == 0 {
        0
    } else {
        digits_value(s.drop_last()) * 10 + (s.last() as nat - 48) as nat
    }
}

pub open spec fn all_digits(s: Seq<char>) -> bool {
    forall|i: int| 0 <= i < s.len() ==> ascii_digit(#[trigger] s[i])
}

/// `s` without a leading plus sign.
pub open spec fn unsigned_part(s: Seq<char>) -> Seq<char> {
    if s.len() > 0 && s[0] == '+' {
        s.skip(1)
    } else {
        s
    }
}

/// The number that a text spells: digits, at least one, after an optional plus
/// sign, and no more than 64 bits hold.
pub open spec fn number(s: Seq<char>) -> Option<u64> {
    let digits = unsigned_part(s);
    if digits.len() > 0 && all_digits(digits) && digits_value(digits) <= u64::MAX {
        Some(digits_value(digits) as u64)
    } else {
        None
    }
}

proof fn lemma_digits_value_grows(s: Seq<char>, n: int)
    requires
        0 <= n <= s.len(),
        all_digits(s),
    ensures
        digits_value(s.take(n)) <= digits_value(s),
    decreases s.len() - n,
{
    if n < s.len() {
        assert(s.take(n + 1).drop_last() =~= s.take(n));
        assert(ascii_digit(s[n]));
        lemma_digits_value_grows(s, n + 1);
    } else {
        assert(s.take(n) =~= s);
    }
}

pub fn parse_number(s: &str) -> (res: Option<u64>)
    ensures
        res == number(s@),
{
    let cs: Vec<char> = chars_of(s);
    let from: usize = if cs.len() > 0 && cs[0] == '+' {
        1
    } else {
        0
    };
    let ghost digits = unsigned_part(s@);
    assert(s@.skip(from as int) =~= digits);
    if cs.len() == from {
        return None;
    }
    let mut value: u64 = 0;
    let mut i: usize = from;
    assert(digits.take(0) =~= Seq::<char>::empty());
    while i < cs.len()
        invariant
            from <= i <= cs@.len(),
            cs@ == s@,
            digits == s@.skip(from as int),
            digits == unsigned_part(s@),
            all_digits(digits.take(i - from)),
            value == digits_value(digits.take(i - from)),
        decreases cs@.len() - i,
    {
        let c: char = cs[i];
        let ghost at = i - from;
        assert(digits[at] == c);
        if !is_ascii_digit(c) {
            assert(!all_digits(digits));
            return None;
        }
        proof {
            assert(digits.take(at + 1).drop_last() =~= digits.take(at));
            assert forall|j: int| 0 <= j < at + 1 implies ascii_digit(
                #[trigger] digits.take(at + 1)[j],
            ) by {
                if j < at {
                    assert(ascii_digit(digits.take(at)[j]));
                }
            }
        }
        let d: u64 = (c as u8 - 48) as u64;
        let next: u128 = value as u128 * 10 + d as u128;
        if next > u64::MAX as u128 {
            proof {
                if all_digits(digits) {
                    lemma_digits_value_grows(digits, at + 1);
                }
            }
            return None;
        }
        value = next as u64;
        i = i + 1;
    }
    assert(digits.take(i - from) =~= digits);
    Some(value)
}

/// A number written in decimal is all digits, at least one, and worth itself.
pub proof fn lemma_decimal_is_read_back(n: nat)
    ensures
        decimal(n).len() > 0,
        all_digits(decimal(n)),
        digits_value(decimal(n)) == n,
    decreases n,
{
    if n < 10 {
        assert(decimal(n).drop_last() =~= Seq::<char>::empty());
        assert(decimal(n).last() == digit_char(n));
        assert(ascii_digit(digit_char(n)));
        assert(digits_value(Seq::<char>::empty()) == 0);
    } else {
        lemma_decimal_is_read_back(n / 10);
        let front = decimal(n / 10);
        assert(decimal(n).drop_last() =~= front);
        assert(decimal(n).last() == digit_char(n % 10));
        assert forall|i: int| 0 <= i < decimal(n).len() implies ascii_digit(
            #[trigger] decimal(n)[i],
        ) by {
            if i < front.len() {
                assert(ascii_digit(front[i]));
                assert(decimal(n)[i] == front[i]);
            }
        }
    }
}

/// Every number is read back from its decimal form.
pub proof fn law_numbers_are_read_back(n: u64)
    ensures
        number(decimal(n as nat)) == Some(n),
{
    lemma_decimal_is_read_back(n as nat);
    let s = decimal(n as nat);
    assert(ascii_digit(s[0]));
    assert(unsigned_part(s) == s);
}

// ---------------------------------------------------------------------------
// Lines and columns
// ---------------------------------------------------------------------------

/// A line without the carriage return that ends it.
pub open spec fn without_cr(line: Seq<char>) -> Seq<char> {
    if line.len() > 0 && line.last() == '\r' {
        line.drop_last()
    } else {
        line
    }
}

/// The lines of a text: what stands before each newline, less a carriage return
/// in front of it, and what stands after the last, unless that is nothing.
pub open spec fn text_lines(s: Seq<char>) -> Seq<Seq<char>> {
    let parts = pieces(s, '\n');
    let ended = Seq::new((parts.len() - 1) as nat, |i: int| without_cr(parts[i]));
    if parts.last().len() == 0 {
        ended
    } else {
        ended.push(parts.last())
    }
}

pub fn lines(s: &str) -> (res: Vec<String>)
    ensures
        views(res@) == text_lines(s@),
{
    let parts: Vec<String> = split(s, '\n');
    let ghost all = pieces(s@, '\n');
    let last: usize = parts.len() - 1;
    let mut out: Vec<String> = Vec::new();
    let mut i: usize = 0;
    while i < last
        invariant
            i <= last,
            last == parts@.len() - 1,
            views(parts@) == all,
            out@.len() == i,
            forall|j: int| 0 <= j < i ==> (#[trigger] out@[j])@ == without_cr(all[j]),
        decreases last - i,
    {
        assert(all[i as int] == parts@[i as int]@);
        let cs: Vec<char> = chars_of(parts[i].as_str());
        let mut to: usize = cs.len();
        if to > 0 && cs[to - 1] == '\r' {
            to = to - 1;
        }
        let line: String = string_of(&cs, 0, to);
        assert(line@ =~= without_cr(all[i as int]));
        out.push(line);
        i = i + 1;
    }
    assert(all.last() == parts@[last as int]@);
    if parts[last].as_str().unicode_len() > 0 {
        out.push(copy(&parts[last]));
    }
    assert(views(out@) =~= text_lines(s@));
    out
}

pub open spec fn blanks(n: nat) -> Seq<char> {
    Seq::new(n, |i: int| ' ')
}

/// `s` followed by blanks up to `width`.
pub open spec fn padded_right(s: Seq<char>, width: nat) -> Seq<char> {
    s + blanks(
        if s.len() < width {
            (width - s.len()) as nat
        } else {
            0
        },
    )
}

/// `s` after blanks up to `width`.
pub open spec fn padded_left(s: Seq<char>, width: nat) -> Seq<char> {
    blanks(
        if s.len() < width {
            (width - s.len()) as nat
        } else {
            0
        },
    ) + s
}

fn blanks_of(n: usize) -> (res: String)
    ensures
        res@ == blanks(n as nat),
{
    let mut out: String = String::new();
    let mut i: usize = 0;
    assert(out@ =~= blanks(0));
    while i < n
        invariant
            i <= n,
            out@ == blanks(i as nat),
        decreases n - i,
    {
        out.push(' ');
        i = i + 1;
        assert(out@ =~= blanks(i as nat));
    }
    out
}

pub fn pad_right(s: &str, width: usize) -> (res: String)
    ensures
        res@ == padded_right(s@, width as nat),
{
    let len: usize = s.unicode_len();
    let gap: usize = if len < width {
        width - len
    } else {
        0
    };
    cat(s, blanks_of(gap).as_str())
}

pub fn pad_left(s: &str, width: usize) -> (res: String)
    ensures
        res@ == padded_left(s@, width as nat),
{
    let len: usize = s.unicode_len();
    let gap: usize = if len < width {
        width - len
    } else {
        0
    };
    cat(blanks_of(gap).as_str(), s)
}

/// How many bytes a character takes in UTF-8.
pub open spec fn utf8_width(c: char) -> nat {
    if (c as u32) < 0x80 {
        1
    } else if (c as u32) < 0x800 {
        2
    } else if (c as u32) < 0x1_0000 {
        3
    } else {
        4
    }
}

/// How many characters make up the first `bytes` bytes, where a character ends
/// there.
pub open spec fn chars_in(s: Seq<char>, bytes: int) -> Option<int>
    decreases s.len(),
{
    if bytes == 0 {
        Some(0)
    } else if bytes < 0 || s.len() == 0 {
        None
    } else {
        match chars_in(s.skip(1), bytes - utf8_width(s[0])) {
            Some(n) => Some(n + 1),
            None => None,
        }
    }
}

/// The first `bytes` bytes of a text, or all of it where it is shorter or a
/// character stands across that place.
pub open spec fn byte_prefix(s: Seq<char>, bytes: int) -> Seq<char> {
    match chars_in(s, bytes) {
        Some(n) => s.take(n),
        None => s,
    }
}

fn width_of(c: char) -> (res: usize)
    ensures
        res == utf8_width(c),
{
    let n: u32 = c as u32;
    if n < 0x80 {
        1
    } else if n < 0x800 {
        2
    } else if n < 0x1_0000 {
        3
    } else {
        4
    }
}

pub fn first_bytes(s: &str, bytes: usize) -> (res: String)
    ensures
        res@ == byte_prefix(s@, bytes as int),
{
    let cs: Vec<char> = chars_of(s);
    let mut left: usize = bytes;
    let mut n: usize = 0;
    assert(s@.skip(0) =~= s@);
    while n < cs.len() && left > 0
        invariant
            n <= cs@.len(),
            cs@ == s@,
            chars_in(s@, bytes as int) == (match chars_in(s@.skip(n as int), left as int) {
                Some(k) => Some(k + n),
                None => None::<int>,
            }),
        decreases cs@.len() - n,
    {
        let w: usize = width_of(cs[n]);
        assert(s@.skip(n as int).skip(1) =~= s@.skip(n + 1));
        if w > left {
            assert(chars_in(s@.skip(n + 1), left - w) is None);
            return s.to_owned();
        }
        left = left - w;
        n = n + 1;
    }
    if left > 0 {
        return s.to_owned();
    }
    let out: String = string_of(&cs, 0, n);
    assert(out@ =~= s@.take(n as int));
    out
}

// ---------------------------------------------------------------------------
// Cutting at a character
// ---------------------------------------------------------------------------

/// Where `c` first stands in `s`, from `from` on.
pub open spec fn first_char(s: Seq<char>, c: char, from: int) -> Option<int>
    decreases s.len() - from,
{
    if from >= s.len() {
        None
    } else if s[from] == c {
        Some(from)
    } else {
        first_char(s, c, from + 1)
    }
}

pub fn find_char(cs: &Vec<char>, c: char, from: usize) -> (res: Option<usize>)
    ensures
        as_place(res) == first_char(cs@, c, from as int),
        res matches Some(i) ==> from <= i < cs@.len() && cs@[i as int] == c,
{
    let mut i: usize = from;
    while i < cs.len()
        invariant
            from <= i,
            first_char(cs@, c, from as int) == first_char(cs@, c, i as int),
        decreases cs@.len() - i,
    {
        if cs[i] == c {
            return Some(i);
        }
        i = i + 1;
    }
    None
}

pub proof fn lemma_first_char(s: Seq<char>, c: char, from: int)
    requires
        0 <= from,
    ensures
        match first_char(s, c, from) {
            Some(i) => from <= i < s.len() && s[i] == c && forall|j: int|
                from <= j < i ==> s[j] != c,
            None => forall|j: int| from <= j < s.len() ==> s[j] != c,
        },
    decreases s.len() - from,
{
    if from < s.len() && s[from] != c {
        lemma_first_char(s, c, from + 1);
    }
}

/// What stands before and after the first `c`.
pub open spec fn cut_at(s: Seq<char>, c: char) -> Option<(Seq<char>, Seq<char>)> {
    match first_char(s, c, 0) {
        Some(i) => Some((s.take(i), s.skip(i + 1))),
        None => None,
    }
}

pub fn split_once(s: &str, c: char) -> (res: Option<(String, String)>)
    ensures
        match res {
            Some((a, b)) => cut_at(s@, c) == Some((a@, b@)),
            None => cut_at(s@, c) is None,
        },
{
    let cs: Vec<char> = chars_of(s);
    match find_char(&cs, c, 0) {
        Some(i) => {
            let len: usize = cs.len();
            let a: String = string_of(&cs, 0, i);
            let b: String = string_of(&cs, i + 1, len);
            assert(a@ =~= s@.take(i as int));
            assert(b@ =~= s@.skip(i + 1));
            Some((a, b))
        },
        None => None,
    }
}

/// The words of `s`: its longest runs without white space, in order.
pub open spec fn words(s: Seq<char>) -> Seq<Seq<char>>
    decreases s.len(),
{
    if s.len() == 0 {
        Seq::empty()
    } else {
        let front = s.drop_last();
        let before = words(front);
        if white_space(s.last()) {
            before
        } else if front.len() == 0 || white_space(front.last()) {
            before.push(seq![s.last()])
        } else {
            before.drop_last().push(before.last().push(s.last()))
        }
    }
}

pub fn split_whitespace(s: &str) -> (res: Vec<String>)
    ensures
        views(res@) == words(s@),
{
    let cs: Vec<char> = chars_of(s);
    let mut done: Vec<String> = Vec::new();
    let mut word: String = String::new();
    let mut open: bool = false;
    assert(views(done@) =~= words(s@.take(0)));
    for i in 0..cs.len()
        invariant
            cs@ == s@,
            open == (i > 0 && !white_space(s@[i - 1])),
            open ==> words(s@.take(i as int)) == views(done@).push(word@),
            !open ==> words(s@.take(i as int)) == views(done@) && word@.len() == 0,
    {
        proof {
            assert(s@.take(i + 1).drop_last() =~= s@.take(i as int));
            assert(s@.take(i + 1).last() == s@[i as int]);
        }
        let c = cs[i];
        let ghost before = done@;
        if is_white_space(c) {
            if open {
                let ghost finished = word@;
                done.push(word);
                word = String::new();
                assert(views(done@) =~= views(before).push(finished));
            }
            open = false;
        } else {
            let ghost so_far = word@;
            word.push(c);
            if open {
                let ghost now = words(s@.take(i as int));
                assert(now.drop_last() =~= views(done@));
                assert(now.last() == so_far);
            } else {
                assert(word@ =~= seq![c]);
            }
            open = true;
        }
    }
    assert(s@.take(s@.len() as int) =~= s@);
    if open {
        let ghost before = done@;
        let ghost finished = word@;
        done.push(word);
        assert(views(done@) =~= views(before).push(finished));
    }
    done
}

/// Whether `a` comes before `b` in the order of their characters.
pub open spec fn before(a: Seq<char>, b: Seq<char>) -> bool
    decreases a.len(),
{
    if b.len() == 0 {
        false
    } else if a.len() == 0 {
        true
    } else if a[0] != b[0] {
        (a[0] as u32) < (b[0] as u32)
    } else {
        before(a.skip(1), b.skip(1))
    }
}

pub fn less(a: &str, b: &str) -> (res: bool)
    ensures
        res == before(a@, b@),
{
    let x: Vec<char> = chars_of(a);
    let y: Vec<char> = chars_of(b);
    let mut i: usize = 0;
    assert(a@.skip(0) =~= a@);
    assert(b@.skip(0) =~= b@);
    while i < x.len() && i < y.len()
        invariant
            x@ == a@,
            y@ == b@,
            i <= x@.len(),
            i <= y@.len(),
            before(a@, b@) == before(a@.skip(i as int), b@.skip(i as int)),
        decreases x@.len() - i,
    {
        proof {
            assert(a@.skip(i as int).skip(1) =~= a@.skip(i + 1));
            assert(b@.skip(i as int).skip(1) =~= b@.skip(i + 1));
        }
        if x[i] != y[i] {
            return (x[i] as u32) < (y[i] as u32);
        }
        i = i + 1;
    }
    i < y.len()
}

pub proof fn lemma_before_is_total(a: Seq<char>, b: Seq<char>)
    ensures
        before(a, b) || before(b, a) || a == b,
    decreases a.len(),
{
    if a.len() == 0 && b.len() == 0 {
        assert(a =~= b);
    } else if a.len() > 0 && b.len() > 0 && a[0] == b[0] {
        lemma_before_is_total(a.skip(1), b.skip(1));
        if a.skip(1) == b.skip(1) {
            assert(a =~= seq![a[0]] + a.skip(1));
            assert(b =~= seq![b[0]] + b.skip(1));
        }
    } else if a.len() > 0 && b.len() > 0 {
        lemma_char_range(a[0]);
        lemma_char_range(b[0]);
    }
}

pub proof fn lemma_before_is_strict(a: Seq<char>, b: Seq<char>)
    ensures
        before(a, b) ==> !before(b, a) && a != b,
    decreases a.len(),
{
    if a.len() > 0 && b.len() > 0 && a[0] == b[0] {
        lemma_before_is_strict(a.skip(1), b.skip(1));
    }
}

pub proof fn lemma_before_is_transitive(a: Seq<char>, b: Seq<char>, c: Seq<char>)
    requires
        before(a, b),
        before(b, c),
    ensures
        before(a, c),
    decreases a.len(),
{
    if a.len() > 0 && b.len() > 0 && c.len() > 0 && a[0] == b[0] && b[0] == c[0] {
        lemma_before_is_transitive(a.skip(1), b.skip(1), c.skip(1));
    }
}

/// A copy of an optional text.
pub fn copy_opt(o: &Option<String>) -> (res: Option<String>)
    ensures
        opt_view(res) == opt_view(*o),
{
    match o {
        Some(s) => Some(copy(s)),
        None => None,
    }
}

/// Whether any character of `s` is white space.
pub open spec fn has_white_space(s: Seq<char>) -> bool {
    exists|i: int| 0 <= i < s.len() && white_space(#[trigger] s[i])
}

pub fn contains_white_space(s: &str) -> (res: bool)
    ensures
        res == has_white_space(s@),
{
    let cs: Vec<char> = chars_of(s);
    let mut i: usize = 0;
    while i < cs.len()
        invariant
            i <= cs@.len(),
            cs@ == s@,
            forall|j: int| 0 <= j < i ==> !white_space(#[trigger] s@[j]),
        decreases cs@.len() - i,
    {
        if is_white_space(cs[i]) {
            return true;
        }
        i = i + 1;
    }
    false
}

/// A text is cut at the first of the characters it is cut at.
pub proof fn law_a_text_is_cut_at_the_first(a: Seq<char>, b: Seq<char>, c: char)
    requires
        free_of(a, c),
    ensures
        cut_at(a + seq![c] + b, c) == Some((a, b)),
        cut_at(a, c) is None,
{
    let s = a + seq![c] + b;
    lemma_first_char(s, c, 0);
    lemma_first_char(a, c, 0);
    assert(s[a.len() as int] == c);
    let at = first_char(s, c, 0)->0;
    if at < a.len() {
        assert(s[at] == a[at]);
    }
    assert(at == a.len());
    assert(s.take(at) =~= a);
    assert(s.skip(at + 1) =~= b);
    if let Some(i) = first_char(a, c, 0) {
        assert(a[i] == c);
    }
}

/// One text comes before another by the first character in which they differ, or
/// where it is how the other begins.
pub proof fn law_the_first_difference_orders(
    front: Seq<char>,
    x: char,
    a: Seq<char>,
    y: char,
    b: Seq<char>,
)
    requires
        x < y,
    ensures
        before(front + seq![x] + a, front + seq![y] + b),
        !before(front + seq![y] + b, front + seq![x] + a),
        before(front, front + seq![x] + a),
        !before(front + seq![x] + a, front),
        !before(front, front),
    decreases front.len(),
{
    let p = front + seq![x] + a;
    let q = front + seq![y] + b;
    if front.len() > 0 {
        law_the_first_difference_orders(front.skip(1), x, a, y, b);
        assert(p.skip(1) =~= front.skip(1) + seq![x] + a);
        assert(q.skip(1) =~= front.skip(1) + seq![y] + b);
    }
}

/// A text of white space alone.
pub open spec fn blank(s: Seq<char>) -> bool {
    forall|i: int| 0 <= i < s.len() ==> white_space(#[trigger] s[i])
}

proof fn lemma_trimmed_start_of(a: Seq<char>, rest: Seq<char>)
    requires
        blank(a),
        rest.len() > 0 ==> !white_space(rest[0]),
    ensures
        trimmed_start(a + rest) == rest,
    decreases a.len(),
{
    if a.len() == 0 {
        assert(a + rest =~= rest);
    } else {
        assert((a + rest)[0] == a[0]);
        assert((a + rest).skip(1) =~= a.skip(1) + rest);
        assert forall|i: int| 0 <= i < a.skip(1).len() implies white_space(#[trigger] a.skip(1)[i]) by {
            assert(a.skip(1)[i] == a[i + 1]);
        }
        lemma_trimmed_start_of(a.skip(1), rest);
    }
}

proof fn lemma_trimmed_end_of(front: Seq<char>, b: Seq<char>)
    requires
        blank(b),
        front.len() > 0 ==> !white_space(front.last()),
    ensures
        trimmed_end(front + b) == front,
    decreases b.len(),
{
    if b.len() == 0 {
        assert(front + b =~= front);
    } else {
        assert((front + b).last() == b.last());
        assert((front + b).drop_last() =~= front + b.drop_last());
        assert forall|i: int| 0 <= i < b.drop_last().len() implies white_space(
            #[trigger] b.drop_last()[i],
        ) by {
            assert(b.drop_last()[i] == b[i]);
        }
        lemma_trimmed_end_of(front, b.drop_last());
    }
}

/// Trimming takes the white space around a text away, and nothing of the text.
pub proof fn law_trimming_takes_the_white_space_around(a: Seq<char>, core: Seq<char>, b: Seq<char>)
    requires
        blank(a),
        blank(b),
        trim_free(core),
    ensures
        trimmed(a + core + b) == core,
{
    if core.len() == 0 {
        let all = a + core + b;
        assert forall|i: int| 0 <= i < all.len() implies white_space(#[trigger] all[i]) by {
            if i < a.len() {
                assert(all[i] == a[i]);
            } else {
                assert(all[i] == b[i - a.len()]);
            }
        }
        assert(all + Seq::<char>::empty() =~= all);
        lemma_trimmed_start_of(all, Seq::empty());
        assert(core =~= Seq::<char>::empty());
    } else {
        assert(a + core + b =~= a + (core + b));
        assert((core + b)[0] == core[0]);
        lemma_trimmed_start_of(a, core + b);
        lemma_trimmed_end_of(core, b);
    }
}

proof fn lemma_words_nonempty(s: Seq<char>)
    requires
        s.len() > 0,
        !white_space(s.last()),
    ensures
        words(s).len() > 0,
{
}

/// White space parts words: the words of the whole are those before it and then those
/// behind it.
pub proof fn law_words_add_up(a: Seq<char>, c: char, b: Seq<char>)
    requires
        white_space(c),
    ensures
        words(a + seq![c] + b) == words(a) + words(b),
    decreases b.len(),
{
    let all = a + seq![c] + b;
    if b.len() == 0 {
        assert(all.drop_last() =~= a);
        assert(all.last() == c);
        assert(words(a) + words(b) =~= words(a));
    } else {
        let front = b.drop_last();
        law_words_add_up(a, c, front);
        assert(all.drop_last() =~= a + seq![c] + front);
        assert(all.last() == b.last());
        if front.len() == 0 {
            assert(all.drop_last().last() == c);
        } else {
            assert(all.drop_last().last() == front.last());
        }
        if !white_space(b.last()) {
            if front.len() > 0 && !white_space(front.last()) {
                lemma_words_nonempty(front);
                let before = words(a) + words(front);
                assert(before.drop_last() =~= words(a) + words(front).drop_last());
                assert(before.last() == words(front).last());
            }
        }
        assert(words(all) =~= words(a) + words(b));
    }
}

/// A text without white space is one word, and an empty one none.
pub proof fn law_a_word_is_one_word(s: Seq<char>)
    requires
        !has_white_space(s),
    ensures
        words(s) == if s.len() == 0 {
            Seq::<Seq<char>>::empty()
        } else {
            seq![s]
        },
    decreases s.len(),
{
    if s.len() > 0 {
        let front = s.drop_last();
        assert(!white_space(s[s.len() - 1]));
        assert forall|i: int| 0 <= i < front.len() implies !white_space(#[trigger] front[i]) by {
            assert(front[i] == s[i]);
        }
        law_a_word_is_one_word(front);
        if front.len() == 0 {
            assert(words(s) =~= seq![seq![s.last()]]);
            assert(seq![s.last()] =~= s);
        } else {
            assert(front.push(s.last()) =~= s);
            assert(words(s) =~= seq![s]);
        }
    }
}

/// Taking a run of one character off the end of a text takes all of it and nothing
/// more.
pub proof fn law_a_whole_run_is_taken_off(front: Seq<char>, c: char, n: nat)
    requires
        front.len() > 0 ==> front.last() != c,
    ensures
        without_trailing(front + Seq::new(n, |i: int| c), c) == front,
    decreases n,
{
    let run = Seq::new(n, |i: int| c);
    if n == 0 {
        assert(front + run =~= front);
    } else {
        assert((front + run).last() == c);
        assert((front + run).drop_last() =~= front + Seq::new((n - 1) as nat, |i: int| c));
        law_a_whole_run_is_taken_off(front, c, (n - 1) as nat);
    }
}

/// Padding reaches the width where the text does not, keeps the text, and adds blanks on
/// its own side alone.
pub proof fn law_padding_fills_up_to_the_width(s: Seq<char>, width: nat)
    ensures
        padded_right(s, width).len() == if s.len() < width {
            width
        } else {
            s.len()
        },
        padded_left(s, width).len() == padded_right(s, width).len(),
        begins(padded_right(s, width), s),
        ends(padded_left(s, width), s),
        forall|i: int|
            s.len() <= i < padded_right(s, width).len() ==> #[trigger] padded_right(s, width)[i] == ' ',
        forall|i: int|
            0 <= i < padded_left(s, width).len() - s.len() ==> #[trigger] padded_left(s, width)[i] == ' ',
{
    let r = padded_right(s, width);
    let l = padded_left(s, width);
    assert(r.subrange(0, s.len() as int) =~= s);
    assert(l.subrange(l.len() - s.len(), l.len() as int) =~= s);
}

proof fn lemma_start_keeps_what_shows(s: Seq<char>, i: int)
    requires
        0 <= i < s.len(),
        !white_space(s[i]),
    ensures
        trimmed_start(s).len() > 0,
    decreases s.len(),
{
    if white_space(s[0]) {
        assert(s.skip(1)[i - 1] == s[i]);
        lemma_start_keeps_what_shows(s.skip(1), i - 1);
    }
}

proof fn lemma_end_keeps_what_shows(s: Seq<char>)
    requires
        s.len() > 0,
        !white_space(s[0]),
    ensures
        trimmed_end(s).len() > 0,
    decreases s.len(),
{
    if white_space(s.last()) {
        assert(s.drop_last()[0] == s[0]);
        lemma_end_keeps_what_shows(s.drop_last());
    }
}

/// Nothing is left of a trimmed text exactly where it is white space alone.
pub proof fn law_white_space_alone_is_trimmed_to_nothing(s: Seq<char>)
    ensures
        trimmed(s).len() == 0 <==> blank(s),
{
    if blank(s) {
        let nothing = Seq::<char>::empty();
        assert(s + nothing + nothing =~= s);
        law_trimming_takes_the_white_space_around(s, nothing, nothing);
    } else {
        let i = choose|i: int| 0 <= i < s.len() && !white_space(#[trigger] s[i]);
        lemma_start_keeps_what_shows(s, i);
        lemma_trimmed_start(s);
        lemma_end_keeps_what_shows(trimmed_start(s));
    }
}

/// A number is written digit by digit, the weightiest first, without idle zeros.
pub proof fn law_numbers_are_written_in_tens(n: nat, d: nat)
    requires
        d < 10,
    ensures
        n > 0 ==> decimal(n * 10 + d) == decimal(n).push((48 + d) as char),
        decimal(d) == seq![(48 + d) as char],
        n > 0 ==> signed_decimal(-(n as int)) == seq!['-'] + decimal(n),
        signed_decimal(n as int) == decimal(n),
{
    reveal_with_fuel(decimal, 2);
    assert((n * 10 + d) / 10 == n);
    assert((n * 10 + d) % 10 == d);
    assert(decimal(d) =~= seq![(48 + d) as char]);
    if n > 0 {
        assert(decimal(n * 10 + d) =~= decimal(n).push((48 + d) as char));
        reveal_strlit("-");
        assert(signed_decimal(-(n as int)) =~= seq!['-'] + decimal(n));
    }
}

/// A number is read from its digits, with or without a plus before them; anything else,
/// and a number too large, is read as none.
pub proof fn law_only_numbers_are_read(n: nat, s: Seq<char>, i: int)
    ensures
        n <= u64::MAX ==> number(decimal(n)) == Some(n as u64) && number(seq!['+'] + decimal(n))
            == Some(n as u64),
        n > u64::MAX ==> number(decimal(n)) is None,
        number(Seq::<char>::empty()) is None,
        0 <= i < s.len() && !('0' <= s[i] <= '9') && (i > 0 || s[i] != '+') ==> number(s) is None,
{
    lemma_decimal_is_read_back(n);
    let d = decimal(n);
    assert(ascii_digit(d[0]));
    assert((seq!['+'] + d)[0] == '+');
    assert((seq!['+'] + d).skip(1) =~= d);
    if 0 <= i < s.len() && !('0' <= s[i] <= '9') && (i > 0 || s[i] != '+') {
        let rest = unsigned_part(s);
        if s[0] == '+' {
            assert(rest[i - 1] == s[i]);
        } else {
            assert(rest[i] == s[i]);
        }
    }
}

proof fn lemma_ascii_chars_in(s: Seq<char>, bytes: int)
    requires
        all_ascii(s),
        0 <= bytes <= s.len(),
    ensures
        chars_in(s, bytes) == Some(bytes),
    decreases s.len(),
{
    if bytes > 0 {
        assert((s[0] as u32) < 128);
        assert forall|i: int| 0 <= i < s.skip(1).len() implies (#[trigger] s.skip(1)[i] as u32) < 128 by {
            assert(s.skip(1)[i] == s[i + 1]);
        }
        lemma_ascii_chars_in(s.skip(1), bytes - 1);
    }
}

proof fn lemma_ascii_ends(s: Seq<char>, bytes: int)
    requires
        all_ascii(s),
        bytes > s.len(),
    ensures
        chars_in(s, bytes) is None,
    decreases s.len(),
{
    if s.len() > 0 {
        assert((s[0] as u32) < 128);
        assert forall|i: int| 0 <= i < s.skip(1).len() implies (#[trigger] s.skip(1)[i] as u32) < 128 by {
            assert(s.skip(1)[i] == s[i + 1]);
        }
        lemma_ascii_ends(s.skip(1), bytes - 1);
    }
}

/// Of plain text so many bytes are so many characters, and all of it where it has fewer.
pub proof fn law_plain_text_is_cut_by_characters(s: Seq<char>, bytes: int)
    requires
        all_ascii(s),
        0 <= bytes,
    ensures
        bytes <= s.len() ==> byte_prefix(s, bytes) == s.take(bytes),
        bytes > s.len() ==> byte_prefix(s, bytes) == s,
{
    if bytes <= s.len() {
        lemma_ascii_chars_in(s, bytes);
    } else {
        lemma_ascii_ends(s, bytes);
    }
}

/// A cut never splits a character: what is cut off begins the text.
pub proof fn law_a_cut_begins_the_text(s: Seq<char>, bytes: int)
    ensures
        begins(s, byte_prefix(s, bytes)),
{
    lemma_chars_in_bounds(s, bytes);
    let front = byte_prefix(s, bytes);
    assert(s.subrange(0, front.len() as int) =~= front);
}

proof fn lemma_chars_in_bounds(s: Seq<char>, bytes: int)
    ensures
        chars_in(s, bytes) matches Some(n) ==> 0 <= n <= s.len(),
    decreases s.len(),
{
    if bytes > 0 && s.len() > 0 {
        lemma_chars_in_bounds(s.skip(1), bytes - utf8_width(s[0]));
    }
}

/// A text found in one part of another is found in the whole.
pub proof fn law_what_a_part_holds_the_whole_holds(a: Seq<char>, b: Seq<char>, needle: Seq<char>)
    ensures
        holds(a, needle) ==> holds(a + b, needle),
        holds(b, needle) ==> holds(a + b, needle),
        holds(a + needle + b, needle),
{
    if holds(a, needle) {
        let at = choose|at: int| stands_at(a, needle, at);
        assert((a + b).subrange(at, at + needle.len()) =~= a.subrange(at, at + needle.len()));
        assert(stands_at(a + b, needle, at));
    }
    if holds(b, needle) {
        let at = choose|at: int| stands_at(b, needle, at);
        let to = a.len() + at;
        assert((a + b).subrange(to, to + needle.len()) =~= b.subrange(at, at + needle.len()));
        assert(stands_at(a + b, needle, to));
    }
    let all = a + needle + b;
    let n = a.len() as int;
    assert(all.subrange(n, n + needle.len()) =~= needle);
    assert(stands_at(all, needle, n));
}

/// Only the twenty-six letters have another case here, each the one thirty-two places away.
pub proof fn law_letters_change_case(c: char)
    ensures
        'A' <= c <= 'Z' ==> lowered(c) as u32 == c as u32 + 32,
        !('A' <= c <= 'Z') ==> lowered(c) == c,
        'a' <= c <= 'z' ==> raised(c) as u32 + 32 == c as u32,
        !('a' <= c <= 'z') ==> raised(c) == c,
{
}

/// White space is the blank, the five controls from tab to return, and what Unicode adds to
/// them.
pub proof fn law_white_space_is_what_shows_nothing(c: char)
    ensures
        (c as u32) < 128 ==> (white_space(c) <==> c == ' ' || c == '\t' || c == '\n' || c == '\r'
            || c == '\u{b}' || c == '\u{c}'),
        128 <= (c as u32) && (c as u32) < 0x1680 ==> (white_space(c) <==> c == '\u{85}' || c == '\u{a0}'),
        (c as u32) >= 0x1680 ==> (white_space(c) <==> c == '\u{1680}' || '\u{2000}' <= c <= '\u{200a}' || c
            == '\u{2028}' || c == '\u{2029}' || c == '\u{202f}' || c == '\u{205f}' || c == '\u{3000}'),
{
}

/// A text is read line by line: a line ends at a line feed, and one carriage return before
/// it belongs to the ending; the last line needs no ending, and keeps a carriage return.
pub proof fn law_lines_are_read_one_by_one(line: Seq<char>, rest: Seq<char>)
    requires
        free_of(line, '\n'),
    ensures
        text_lines(line + seq!['\n'] + rest) == seq![
            if line.len() > 0 && line.last() == '\r' {
                line.drop_last()
            } else {
                line
            },
        ] + text_lines(rest),
        line.len() > 0 ==> text_lines(line) == seq![line],
        text_lines(Seq::<char>::empty()).len() == 0,
{
    law_parts_add_up(line, rest, '\n');
    lemma_pieces_of_free(line, '\n');
    lemma_pieces_nonempty(rest, '\n');
    let whole = line + seq!['\n'] + rest;
    let parts = pieces(whole, '\n');
    let others = pieces(rest, '\n');
    assert(parts =~= seq![line] + others);
    assert(parts.last() == others.last());
    let first = seq![
        if line.len() > 0 && line.last() == '\r' {
            line.drop_last()
        } else {
            line
        },
    ];
    assert(parts.len() - 1 == 1 + (others.len() - 1));
    assert forall|i: int| 1 <= i < parts.len() implies parts[i] == others[i - 1] by {}
    assert(text_lines(whole) =~= first + text_lines(rest));
    if line.len() > 0 {
        assert(text_lines(line) =~= seq![line]);
    }
    let nothing = Seq::<char>::empty();
    lemma_pieces_of_free(nothing, '\n');
}

proof fn lemma_width(c: char)
    ensures
        vstd::utf8::encode_scalar(c as u32).len() == utf8_width(c),
{
    lemma_char_range(c);
}

/// A cut of so many bytes is the characters whose bytes are that many, where such a cut
/// falls between two characters.
pub proof fn law_a_cut_counts_bytes(front: Seq<char>, back: Seq<char>)
    ensures
        byte_prefix(front + back, vstd::utf8::encode_utf8(front).len() as int) == front,
{
    lemma_cut_counts(front, back);
    assert((front + back).take(front.len() as int) =~= front);
}

proof fn lemma_cut_counts(front: Seq<char>, back: Seq<char>)
    ensures
        chars_in(front + back, vstd::utf8::encode_utf8(front).len() as int) == Some(front.len() as int),
    decreases front.len(),
{
    if front.len() > 0 {
        let rest = front.drop_first();
        lemma_width(front[0]);
        lemma_cut_counts(rest, back);
        assert((front + back).skip(1) =~= rest + back);
        assert((front + back)[0] == front[0]);
        let bytes = vstd::utf8::encode_utf8(front);
        assert(bytes.len() == utf8_width(front[0]) + vstd::utf8::encode_utf8(rest).len());
    } else {
        assert(vstd::utf8::encode_utf8(front).len() == 0);
    }
}

} // verus!
