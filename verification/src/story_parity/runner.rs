//! Names for what a parity run leaves behind.

use crate::text::{cat, cat3, chars_of, is_ascii_alphanumeric};
use std::borrow::Cow;
use vstd::prelude::*;

verus! {

/// A character that may stand in a file name as it is.
pub open spec fn plain(c: char) -> bool {
    crate::text::ascii_alphanumeric(c) || c == '_' || c == '-'
}

/// `s` with an underscore for every character that is not plain.
pub open spec fn sanitised(s: Seq<char>) -> Seq<char> {
    Seq::new(
        s.len(),
        |i: int|
            if plain(s[i]) {
                s[i]
            } else {
                '_'
            },
    )
}

fn is_plain(c: char) -> (res: bool)
    ensures
        res == plain(c),
{
    is_ascii_alphanumeric(c) || c == '_' || c == '-'
}

/// `s` with an underscore for every character that is not plain: lent where there
/// is none, and a copy only where something changes.
pub fn sanitise(s: &str) -> (res: Cow<'_, str>)
    ensures
        res@ == sanitised(s@),
        res is Borrowed <==> sanitised(s@) == s@,
{
    let cs: Vec<char> = chars_of(s);
    let mut n: usize = 0;
    while n < cs.len() && is_plain(cs[n])
        invariant
            n <= cs@.len(),
            cs@ == s@,
            forall|i: int| 0 <= i < n ==> plain(#[trigger] s@[i]),
        decreases cs@.len() - n,
    {
        n = n + 1;
    }
    if n == cs.len() {
        assert(sanitised(s@) =~= s@);
        return Cow::Borrowed(s);
    }
    assert(sanitised(s@)[n as int] != s@[n as int]);
    let mut out: String = String::new();
    let mut i: usize = 0;
    while i < cs.len()
        invariant
            i <= cs@.len(),
            cs@ == s@,
            out@ == sanitised(s@).take(i as int),
        decreases cs@.len() - i,
    {
        let c: char = cs[i];
        if is_plain(c) {
            out.push(c);
        } else {
            out.push('_');
        }
        i = i + 1;
        assert(out@ =~= sanitised(s@).take(i as int));
    }
    assert(out@ =~= sanitised(s@));
    Cow::Owned(out)
}

fn owned(s: Cow<'_, str>) -> (res: String)
    ensures
        res@ == s@,
{
    match s {
        Cow::Borrowed(lent) => lent.to_owned(),
        Cow::Owned(own) => own,
    }
}

/// The label of a story: its category, where it has one, and its name.
pub open spec fn label(category: Option<Seq<char>>, name: Seq<char>) -> Seq<char> {
    match category {
        Some(c) => sanitised(c) + "__"@ + sanitised(name),
        None => sanitised(name),
    }
}

pub open spec fn str_view(o: Option<&str>) -> Option<Seq<char>> {
    match o {
        Some(s) => Some(s@),
        None => None,
    }
}

pub fn label_for(category: Option<&str>, name: &str) -> (res: String)
    ensures
        res@ == label(str_view(category), name@),
{
    match category {
        Some(c) => cat3(owned(sanitise(c)).as_str(), "__", owned(sanitise(name)).as_str()),
        None => owned(sanitise(name)),
    }
}

/// The files of one comparison.
#[derive(Clone, Debug, PartialEq, Eq)]
pub struct Artefacts {
    pub blitz: String,
    pub wry: String,
    pub composite: String,
}

/// The file names for a story's two renderings and their composite.
pub fn artefacts_for(category: Option<&str>, name: &str) -> (res: Artefacts)
    ensures
        res.blitz@ == label(str_view(category), name@) + ".blitz.png"@,
        res.wry@ == label(str_view(category), name@) + ".wry.png"@,
        res.composite@ == label(str_view(category), name@) + ".composite.png"@,
{
    let label: String = label_for(category, name);
    Artefacts {
        blitz: cat(label.as_str(), ".blitz.png"),
        wry: cat(label.as_str(), ".wry.png"),
        composite: cat(label.as_str(), ".composite.png"),
    }
}

/// Sanitising twice changes nothing more, and a plain name not at all.
pub proof fn law_sanitising_is_final(s: Seq<char>)
    ensures
        sanitised(sanitised(s)) == sanitised(s),
        (forall|i: int| 0 <= i < s.len() ==> plain(#[trigger] s[i])) ==> sanitised(s) == s,
        forall|i: int| 0 <= i < s.len() ==> plain(#[trigger] sanitised(s)[i]),
{
    assert(sanitised(sanitised(s)) =~= sanitised(s));
    if forall|i: int| 0 <= i < s.len() ==> plain(#[trigger] s[i]) {
        assert(sanitised(s) =~= s);
    }
}

/// Letters, digits, `_` and `-` are kept, and every other character becomes one `_`.
pub proof fn law_other_characters_become_underscores(s: Seq<char>, i: int)
    requires
        0 <= i < s.len(),
    ensures
        sanitised(s).len() == s.len(),
        'a' <= s[i] <= 'z' || 'A' <= s[i] <= 'Z' || '0' <= s[i] <= '9' || s[i] == '_' || s[i] == '-'
            ==> sanitised(s)[i] == s[i],
        !('a' <= s[i] <= 'z' || 'A' <= s[i] <= 'Z' || '0' <= s[i] <= '9' || s[i] == '_' || s[i]
            == '-') ==> sanitised(s)[i] == '_',
{
}

/// A label is the name, behind the category and two underscores where there is one.
pub proof fn law_a_label_begins_with_its_category(category: Seq<char>, name: Seq<char>)
    requires
        forall|i: int| 0 <= i < category.len() ==> plain(#[trigger] category[i]),
        forall|i: int| 0 <= i < name.len() ==> plain(#[trigger] name[i]),
    ensures
        label(None, name) == name,
        label(Some(category), name) == category + seq!['_', '_'] + name,
{
    law_sanitising_is_final(category);
    law_sanitising_is_final(name);
    reveal_strlit("__");
    assert("__"@ =~= seq!['_', '_']);
}

} // verus!
