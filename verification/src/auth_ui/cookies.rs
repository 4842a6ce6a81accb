//! Reading one cookie out of the `Cookie` headers of a request.

use crate::text::{same, split, split_once, trim};
use vstd::prelude::*;

verus! {

/// The value of the first pair with this name among `;`-separated pieces.
pub open spec fn in_pieces(pieces: Seq<Seq<char>>, name: Seq<char>) -> Option<Seq<char>>
    decreases pieces.len(),
{
    if pieces.len() == 0 {
        None
    } else {
        match crate::text::cut_at(crate::text::trimmed(pieces[0]), '=') {
            Some((key, value)) => if key == name {
                Some(value)
            } else {
                in_pieces(pieces.skip(1), name)
            },
            None => in_pieces(pieces.skip(1), name),
        }
    }
}

/// The value of the first cookie with this name, over all headers in order.
pub open spec fn cookie_in(headers: Seq<Seq<char>>, name: Seq<char>) -> Option<Seq<char>>
    decreases headers.len(),
{
    if headers.len() == 0 {
        None
    } else {
        match in_pieces(crate::text::pieces(headers[0], ';'), name) {
            Some(value) => Some(value),
            None => cookie_in(headers.skip(1), name),
        }
    }
}

/// The value of a cookie in one `Cookie` header.
fn in_header(header: &str, name: &str) -> (res: Option<String>)
    ensures
        crate::text::opt_view(res) == in_pieces(crate::text::pieces(header@, ';'), name@),
{
    let pieces = split(header, ';');
    let ghost all = crate::text::pieces(header@, ';');
    assert(all.skip(0) =~= all);
    for i in 0..pieces.len()
        invariant
            crate::text::views(pieces@) == all,
            all == crate::text::pieces(header@, ';'),
            in_pieces(all, name@) == in_pieces(all.skip(i as int), name@),
    {
        proof {
            assert(all.skip(i as int)[0] == all[i as int]);
            assert(all[i as int] == pieces@[i as int]@);
            assert(all.skip(i as int).skip(1) =~= all.skip(i + 1));
        }
        let pair = trim(pieces[i].as_str());
        if let Some((key, value)) = split_once(pair.as_str(), '=') {
            if same(key.as_str(), name) {
                return Some(value);
            }
        }
    }
    None
}

/// The value of the cookie `name`, out of the `Cookie` header values.
pub fn cookie(headers: &Vec<String>, name: &str) -> (res: Option<String>)
    ensures
        crate::text::opt_view(res) == cookie_in(crate::text::views(headers@), name@),
{
    let ghost all = crate::text::views(headers@);
    assert(all.skip(0) =~= all);
    for i in 0..headers.len()
        invariant
            crate::text::views(headers@) == all,
            cookie_in(all, name@) == cookie_in(all.skip(i as int), name@),
    {
        proof {
            assert(all.skip(i as int)[0] == all[i as int]);
            assert(all[i as int] == headers@[i as int]@);
            assert(all.skip(i as int).skip(1) =~= all.skip(i + 1));
        }
        let found = in_header(headers[i].as_str(), name);
        if found.is_some() {
            return found;
        }
    }
    None
}

/// A name that a cookie can have and be found by: no `;` or `=` in it, and
/// no white space before it.
pub open spec fn findable(name: Seq<char>) -> bool {
    &&& name.len() > 0
    &&& !crate::text::white_space(name[0])
    &&& crate::text::free_of(name, ';')
    &&& crate::text::free_of(name, '=')
}

/// A value that a cookie can hold and give back: no `;` in it, and no white
/// space after it.
pub open spec fn storable(value: Seq<char>) -> bool {
    &&& crate::text::free_of(value, ';')
    &&& value.len() > 0 ==> !crate::text::white_space(value.last())
}

/// What a browser was given under a name is read back under that name.
pub proof fn law_a_cookie_is_read_back(name: Seq<char>, value: Seq<char>)
    requires
        findable(name),
        storable(value),
    ensures
        cookie_in(seq![name + "="@ + value], name) == Some(value),
{
    reveal_strlit("=");
    let header = name + "="@ + value;
    assert forall|i: int| 0 <= i < header.len() implies header[i] != ';' by {
        if i < name.len() {
            assert(header[i] == name[i]);
        } else if i > name.len() {
            assert(header[i] == value[i - name.len() - 1]);
        }
    }
    crate::text::lemma_pieces_of_free(header, ';');
    assert(header[0] == name[0]);
    assert(!crate::text::white_space(header.last())) by {
        if value.len() > 0 {
            assert(header.last() == value.last());
        } else {
            assert(header.last() == '=');
        }
    }
    crate::text::law_trimming_is_final(header);
    crate::text::lemma_first_char(header, '=', 0);
    assert(header[name.len() as int] == '=');
    assert forall|i: int| 0 <= i < name.len() implies header[i] != '=' by {
        assert(header[i] == name[i]);
    }
    assert(header.take(name.len() as int) =~= name);
    assert(header.skip(name.len() as int + 1) =~= value);
    let headers = seq![header];
    assert(headers[0] == header);
    let parts = crate::text::pieces(header, ';');
    assert(parts[0] == header);
    assert(in_pieces(parts, name) == Some(value));
}

proof fn lemma_in_pieces_of_sum(a: Seq<Seq<char>>, b: Seq<Seq<char>>, name: Seq<char>)
    ensures
        in_pieces(a + b, name) == (if in_pieces(a, name) is Some {
            in_pieces(a, name)
        } else {
            in_pieces(b, name)
        }),
    decreases a.len(),
{
    if a.len() == 0 {
        assert(a + b =~= b);
    } else {
        assert((a + b)[0] == a[0]);
        assert((a + b).skip(1) =~= a.skip(1) + b);
        lemma_in_pieces_of_sum(a.skip(1), b, name);
    }
}

/// The first cookie of a name counts, in one header and over several.
pub proof fn law_the_first_cookie_of_a_name_counts(
    front: Seq<char>,
    back: Seq<char>,
    before: Seq<Seq<char>>,
    behind: Seq<Seq<char>>,
    name: Seq<char>,
)
    ensures
        cookie_in(seq![front + seq![';'] + back], name) == (if cookie_in(seq![front], name) is Some {
            cookie_in(seq![front], name)
        } else {
            cookie_in(seq![back], name)
        }),
        cookie_in(before + behind, name) == (if cookie_in(before, name) is Some {
            cookie_in(before, name)
        } else {
            cookie_in(behind, name)
        }),
    decreases before.len(),
{
    reveal_with_fuel(cookie_in, 2);
    crate::text::law_parts_add_up(front, back, ';');
    lemma_in_pieces_of_sum(
        crate::text::pieces(front, ';'),
        crate::text::pieces(back, ';'),
        name,
    );
    assert(seq![front + seq![';'] + back].skip(1) =~= Seq::<Seq<char>>::empty());
    assert(seq![front].skip(1) =~= Seq::<Seq<char>>::empty());
    assert(seq![back].skip(1) =~= Seq::<Seq<char>>::empty());
    if before.len() == 0 {
        assert(before + behind =~= behind);
    } else {
        assert((before + behind)[0] == before[0]);
        assert((before + behind).skip(1) =~= before.skip(1) + behind);
        law_the_first_cookie_of_a_name_counts(front, back, before.skip(1), behind, name);
    }
}

/// A cookie of one name is not one of another, and white space before it does not count.
pub proof fn law_a_cookie_has_one_name(
    a: Seq<char>,
    name: Seq<char>,
    value: Seq<char>,
    other: Seq<char>,
)
    requires
        crate::text::blank(a),
        crate::text::free_of(a, ';'),
        findable(name),
        storable(value),
    ensures
        cookie_in(seq![a + name + seq!['='] + value], other) == if other == name {
            Some(value)
        } else {
            None
        },
        cookie_in(seq![a + name], other) is None,
{
    let core = name + seq!['='] + value;
    let whole = a + name + seq!['='] + value;
    assert(whole =~= a + core + Seq::<char>::empty());
    assert(core[0] == name[0]);
    assert(core.last() == if value.len() > 0 {
        value.last()
    } else {
        '='
    });
    assert(!crate::text::white_space('='));
    crate::text::law_trimming_takes_the_white_space_around(a, core, Seq::empty());
    crate::text::law_a_text_is_cut_at_the_first(name, value, '=');
    assert(crate::text::free_of(whole, ';')) by {
        assert forall|i: int| 0 <= i < whole.len() implies whole[i] != ';' by {
            if i < a.len() {
                assert(whole[i] == a[i]);
            } else if i < a.len() + name.len() {
                assert(whole[i] == name[i - a.len()]);
            } else if i > a.len() + name.len() {
                assert(whole[i] == value[i - a.len() - name.len() - 1]);
            }
        }
    }
    crate::text::lemma_pieces_of_free(whole, ';');
    assert(seq![whole].skip(1) =~= Seq::<Seq<char>>::empty());
    reveal_with_fuel(cookie_in, 2);
    reveal_with_fuel(in_pieces, 2);
    // a name alone
    let bare = a + name;
    assert(crate::text::free_of(bare, ';')) by {
        assert forall|i: int| 0 <= i < bare.len() implies bare[i] != ';' by {
            if i < a.len() {
                assert(bare[i] == a[i]);
            } else {
                assert(bare[i] == name[i - a.len()]);
            }
        }
    }
    crate::text::lemma_pieces_of_free(bare, ';');
    assert(seq![bare].skip(1) =~= Seq::<Seq<char>>::empty());
    lemma_trimmed_is_free_of(bare, '=', a, name);
}

proof fn lemma_trimmed_is_free_of(bare: Seq<char>, c: char, a: Seq<char>, name: Seq<char>)
    requires
        bare == a + name,
        c == '=',
        crate::text::blank(a),
        crate::text::free_of(name, c),
    ensures
        crate::text::cut_at(crate::text::trimmed(bare), c) is None,
{
    assert(!crate::text::white_space('='));
    assert(crate::text::free_of(bare, c)) by {
        assert forall|i: int| 0 <= i < bare.len() implies bare[i] != c by {
            if i < a.len() {
                assert(bare[i] == a[i]);
            } else {
                assert(bare[i] == name[i - a.len()]);
            }
        }
    }
    lemma_start_is_free_of(bare, c);
    lemma_end_is_free_of(crate::text::trimmed_start(bare), c);
    crate::text::law_a_text_is_cut_at_the_first(crate::text::trimmed(bare), Seq::empty(), c);
}

proof fn lemma_start_is_free_of(s: Seq<char>, c: char)
    requires
        crate::text::free_of(s, c),
    ensures
        crate::text::free_of(crate::text::trimmed_start(s), c),
    decreases s.len(),
{
    if s.len() > 0 && crate::text::white_space(s[0]) {
        assert(crate::text::free_of(s.skip(1), c)) by {
            assert forall|i: int| 0 <= i < s.skip(1).len() implies s.skip(1)[i] != c by {
                assert(s.skip(1)[i] == s[i + 1]);
            }
        }
        lemma_start_is_free_of(s.skip(1), c);
    }
}

proof fn lemma_end_is_free_of(s: Seq<char>, c: char)
    requires
        crate::text::free_of(s, c),
    ensures
        crate::text::free_of(crate::text::trimmed_end(s), c),
    decreases s.len(),
{
    if s.len() > 0 && crate::text::white_space(s.last()) {
        assert(crate::text::free_of(s.drop_last(), c)) by {
            assert forall|i: int| 0 <= i < s.drop_last().len() implies s.drop_last()[i] != c by {
                assert(s.drop_last()[i] == s[i]);
            }
        }
        lemma_end_is_free_of(s.drop_last(), c);
    }
}

} // verus!
