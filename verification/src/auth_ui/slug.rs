//! A name reduced to a fragment of a URL.

use crate::text::{chars_of, is_ascii_alphanumeric, to_ascii_lower};
use vstd::prelude::*;

verus! {

/// The runs of letters and digits in a name, in small letters.
pub open spec fn runs(s: Seq<char>) -> Seq<Seq<char>>
    decreases s.len(),
{
    if s.len() == 0 {
        Seq::empty()
    } else {
        let front = s.drop_last();
        let before = runs(front);
        let c = crate::text::lowered(s.last());
        if !crate::text::ascii_alphanumeric(s.last()) {
            before
        } else if front.len() == 0 || !crate::text::ascii_alphanumeric(front.last()) {
            before.push(seq![c])
        } else {
            before.drop_last().push(before.last().push(c))
        }
    }
}

/// The slug of a name: its runs of letters and digits, a dash between each
/// two.
pub open spec fn slug(name: Seq<char>) -> Seq<char> {
    crate::text::joined(runs(name), seq!['-'])
}

proof fn lemma_runs_open(s: Seq<char>)
    ensures
        s.len() > 0 && crate::text::ascii_alphanumeric(s.last()) ==> runs(s).len() > 0,
        forall|i: int| 0 <= i < runs(s).len() ==> (#[trigger] runs(s)[i]).len() > 0,
    decreases s.len(),
{
    if s.len() > 0 {
        let front = s.drop_last();
        lemma_runs_open(front);
        let before = runs(front);
        let now = runs(s);
        assert forall|i: int| 0 <= i < now.len() implies (#[trigger] now[i]).len() > 0 by {
            if i < before.len() && i < now.len() - 1 {
                assert(now[i] == before[i]);
            } else if !crate::text::ascii_alphanumeric(s.last()) {
                assert(now[i] == before[i]);
            }
        }
    }
}

proof fn lemma_joined_is_empty(v: Seq<Seq<char>>)
    requires
        forall|i: int| 0 <= i < v.len() ==> (#[trigger] v[i]).len() > 0,
    ensures
        crate::text::joined(v, seq!['-']).len() == 0 <==> v.len() == 0,
{
    if v.len() > 0 {
        assert(v.last() == v[v.len() - 1]);
    }
}

/// A name reduced to a URL-safe slug: runs of anything that is not a letter
/// or digit become one dash, and there is none at the ends.
pub fn slugify(name: &str) -> (res: String)
    ensures
        res@ == slug(name@),
{
    let cs = chars_of(name);
    let mut out = String::new();
    let mut pending_dash = false;
    assert(out@ =~= slug(cs@.take(0)));
    for i in 0..cs.len()
        invariant
            cs@ == name@,
            out@ == slug(cs@.take(i as int)),
            pending_dash == (i > 0 && !crate::text::ascii_alphanumeric(cs@[i - 1])),
    {
        let ghost so_far = cs@.take(i as int);
        let ghost next = cs@.take(i + 1);
        let ghost before = runs(so_far);
        let ghost c = crate::text::lowered(cs@[i as int]);
        let ghost dash = seq!['-'];
        proof {
            assert(next.drop_last() =~= so_far);
            assert(next.last() == cs@[i as int]);
            lemma_runs_open(so_far);
            lemma_joined_is_empty(before);
        }
        if is_ascii_alphanumeric(cs[i]) {
            if pending_dash && out.as_str().unicode_len() > 0 {
                out.push('-');
            }
            out.push(to_ascii_lower(cs[i]));
            pending_dash = false;
            proof {
                if i == 0 || !crate::text::ascii_alphanumeric(cs@[i - 1]) {
                    assert(runs(next) == before.push(seq![c]));
                    assert(before.push(seq![c]).drop_last() =~= before);
                    if before.len() == 0 {
                        assert(out@ =~= seq![c]);
                    } else {
                        assert(out@ =~= crate::text::joined(before, dash) + dash + seq![c]);
                    }
                } else {
                    let last = before.last();
                    let now = before.drop_last().push(last.push(c));
                    assert(runs(next) == now);
                    assert(now.drop_last() =~= before.drop_last());
                    if before.len() == 1 {
                        assert(out@ =~= last.push(c));
                    } else {
                        assert(out@ =~= crate::text::joined(before.drop_last(), dash) + dash
                            + last.push(c));
                    }
                }
            }
        } else {
            pending_dash = true;
        }
    }
    assert(cs@.take(cs@.len() as int) =~= cs@);
    out
}

/// A run as it stands in a slug: not empty, and nothing but small letters
/// and digits.
pub open spec fn is_run(r: Seq<char>) -> bool {
    r.len() > 0 && forall|i: int|
        0 <= i < r.len() ==> crate::text::ascii_alphanumeric(#[trigger] r[i])
            && !crate::text::ascii_upper(r[i])
}

proof fn lemma_runs(s: Seq<char>)
    ensures
        forall|i: int| 0 <= i < runs(s).len() ==> is_run(#[trigger] runs(s)[i]),
    decreases s.len(),
{
    if s.len() > 0 {
        let front = s.drop_last();
        lemma_runs(front);
        lemma_runs_open(front);
        let before = runs(front);
        let now = runs(s);
        crate::text::lemma_char_range(s.last());
        assert forall|i: int| 0 <= i < now.len() implies is_run(#[trigger] now[i]) by {
            if !crate::text::ascii_alphanumeric(s.last()) || i < now.len() - 1 {
                assert(now[i] == before[i]);
            } else if front.len() == 0 || !crate::text::ascii_alphanumeric(front.last()) {
                assert(now[i] == seq![crate::text::lowered(s.last())]);
            } else {
                let r = before.last();
                assert(before[before.len() - 1] == r);
                assert(now[i] == r.push(crate::text::lowered(s.last())));
            }
        }
    }
}

proof fn lemma_runs_of_run(a: Seq<char>, r: Seq<char>)
    requires
        is_run(r),
        a.len() > 0 ==> a.last() == '-',
    ensures
        runs(a + r) == runs(a).push(r),
    decreases r.len(),
{
    let all = a + r;
    let c = r.last();
    assert(c == r[r.len() - 1]);
    assert(all.last() == c);
    assert(crate::text::lowered(c) == c);
    if r.len() == 1 {
        assert(all.drop_last() =~= a);
        assert(r =~= seq![c]);
    } else {
        let front = r.drop_last();
        assert forall|i: int| 0 <= i < front.len() implies crate::text::ascii_alphanumeric(
            #[trigger] front[i],
        ) && !crate::text::ascii_upper(front[i]) by {
            assert(front[i] == r[i]);
        }
        lemma_runs_of_run(a, front);
        assert(all.drop_last() =~= a + front);
        assert((a + front).last() == front.last());
        assert(front.last() == r[r.len() - 2]);
        assert(front.push(c) =~= r);
        assert(runs(all) =~= runs(a).push(r));
    }
}

proof fn lemma_runs_of_joined(v: Seq<Seq<char>>)
    requires
        forall|i: int| 0 <= i < v.len() ==> is_run(#[trigger] v[i]),
    ensures
        runs(crate::text::joined(v, seq!['-'])) == v,
    decreases v.len(),
{
    let dash = seq!['-'];
    if v.len() == 0 {
        assert(crate::text::joined(v, dash) =~= Seq::<char>::empty());
        assert(runs(crate::text::joined(v, dash)) =~= v);
    } else if v.len() == 1 {
        let empty = Seq::<char>::empty();
        assert(is_run(v[0]));
        lemma_runs_of_run(empty, v[0]);
        assert(empty + v[0] =~= v[0]);
        assert(runs(v[0]) =~= v);
    } else {
        let front = v.drop_last();
        assert forall|i: int| 0 <= i < front.len() implies is_run(#[trigger] front[i]) by {
            assert(front[i] == v[i]);
        }
        lemma_runs_of_joined(front);
        let a = crate::text::joined(front, dash) + dash;
        assert(a.drop_last() =~= crate::text::joined(front, dash));
        assert(runs(a) == runs(crate::text::joined(front, dash)));
        assert(is_run(v[v.len() - 1]));
        lemma_runs_of_run(a, v.last());
        assert(front.push(v.last()) =~= v);
    }
}

/// A slug is made of small letters, digits and dashes; no dash stands at
/// either end or beside another.
pub open spec fn well_formed(s: Seq<char>) -> bool {
    &&& forall|i: int|
        0 <= i < s.len() ==> #[trigger] s[i] == '-' || crate::text::ascii_digit(s[i])
            || crate::text::ascii_lower(s[i])
    &&& s.len() > 0 ==> s[0] != '-' && s.last() != '-'
    &&& forall|i: int| 0 <= i && i + 1 < s.len() && #[trigger] s[i] == '-' ==> s[i + 1] != '-'
}

proof fn lemma_joined_runs(v: Seq<Seq<char>>)
    requires
        forall|i: int| 0 <= i < v.len() ==> is_run(#[trigger] v[i]),
    ensures
        well_formed(crate::text::joined(v, seq!['-'])),
    decreases v.len(),
{
    let dash = seq!['-'];
    if v.len() > 0 {
        let r = v.last();
        assert(r == v[v.len() - 1]);
        assert(is_run(r));
        assert forall|i: int| 0 <= i < r.len() implies (crate::text::ascii_digit(r[i])
            || crate::text::ascii_lower(r[i])) && r[i] != '-' by {
            assert(crate::text::ascii_alphanumeric(r[i]));
        }
        if v.len() > 1 {
            let front = v.drop_last();
            assert forall|i: int| 0 <= i < front.len() implies is_run(#[trigger] front[i]) by {
                assert(front[i] == v[i]);
            }
            lemma_joined_runs(front);
            let a = crate::text::joined(front, dash);
            assert forall|i: int| 0 <= i < front.len() implies (#[trigger] front[i]).len() > 0 by {
                assert(is_run(front[i]));
            }
            lemma_joined_is_empty(front);
            let s = a + dash + r;
            assert(crate::text::joined(v, dash) == s);
            assert forall|i: int| 0 <= i < s.len() implies #[trigger] s[i] == '-'
                || crate::text::ascii_digit(s[i]) || crate::text::ascii_lower(s[i]) by {
                if i < a.len() {
                    assert(s[i] == a[i]);
                } else if i > a.len() {
                    assert(s[i] == r[i - a.len() - 1]);
                }
            }
            assert(s[0] == a[0]);
            assert(s.last() == r[r.len() - 1]);
            assert forall|i: int| 0 <= i && i + 1 < s.len() && #[trigger] s[i] == '-' implies s[i
                + 1] != '-' by {
                if i < a.len() {
                    assert(s[i] == a[i]);
                    assert(i != a.len() - 1);
                    assert(s[i + 1] == a[i + 1]);
                } else if i == a.len() {
                    assert(s[i + 1] == r[0]);
                } else {
                    assert(s[i] == r[i - a.len() - 1]);
                }
            }
        }
    }
}

/// Whatever the name, its slug is well formed, and the slug of a slug is the
/// slug itself.
pub proof fn law_slugs_are_well_formed_and_final(name: Seq<char>)
    ensures
        well_formed(slug(name)),
        slug(slug(name)) == slug(name),
{
    lemma_runs(name);
    lemma_joined_runs(runs(name));
    lemma_runs_of_joined(runs(name));
}

proof fn lemma_runs_nonempty(s: Seq<char>)
    requires
        s.len() > 0,
        crate::text::ascii_alphanumeric(s.last()),
    ensures
        runs(s).len() > 0,
{
}

/// Anything but a letter or a digit parts words: the words of the whole are those before
/// it and then those behind it.
pub proof fn law_other_characters_part_words(a: Seq<char>, c: char, b: Seq<char>)
    requires
        !crate::text::ascii_alphanumeric(c),
    ensures
        runs(a + seq![c] + b) == runs(a) + runs(b),
    decreases b.len(),
{
    let all = a + seq![c] + b;
    if b.len() == 0 {
        assert(all.drop_last() =~= a);
        assert(all.last() == c);
        assert(runs(a) + runs(b) =~= runs(a));
    } else {
        let front = b.drop_last();
        law_other_characters_part_words(a, c, front);
        assert(all.drop_last() =~= a + seq![c] + front);
        assert(all.last() == b.last());
        if front.len() == 0 {
            assert(all.drop_last().last() == c);
        } else {
            assert(all.drop_last().last() == front.last());
        }
        if crate::text::ascii_alphanumeric(b.last()) && front.len() > 0
            && crate::text::ascii_alphanumeric(front.last()) {
            lemma_runs_nonempty(front);
            let before = runs(a) + runs(front);
            assert(before.drop_last() =~= runs(a) + runs(front).drop_last());
            assert(before.last() == runs(front).last());
        }
        assert(runs(all) =~= runs(a) + runs(b));
    }
}

/// A word of letters and digits alone is its own slug, in small letters.
pub proof fn law_a_word_is_its_own_slug(s: Seq<char>)
    requires
        s.len() > 0,
        forall|i: int| 0 <= i < s.len() ==> crate::text::ascii_alphanumeric(#[trigger] s[i]),
    ensures
        runs(s) == seq![s.map_values(|c: char| crate::text::lowered(c))],
        slug(s) == s.map_values(|c: char| crate::text::lowered(c)),
    decreases s.len(),
{
    reveal_with_fuel(runs, 2);
    let small = s.map_values(|c: char| crate::text::lowered(c));
    let front = s.drop_last();
    assert(crate::text::ascii_alphanumeric(s[s.len() - 1]));
    if front.len() == 0 {
        assert(seq![crate::text::lowered(s.last())] =~= small);
        assert(runs(s) =~= seq![small]);
    } else {
        assert forall|i: int| 0 <= i < front.len() implies crate::text::ascii_alphanumeric(
            #[trigger] front[i],
        ) by {
            assert(front[i] == s[i]);
        }
        law_a_word_is_its_own_slug(front);
        assert(crate::text::ascii_alphanumeric(front[front.len() - 1]));
        let before = front.map_values(|c: char| crate::text::lowered(c));
        assert(before.push(crate::text::lowered(s.last())) =~= small);
        assert(runs(s) =~= seq![small]);
    }
    assert(crate::text::joined(seq![small], seq!['-']) == small);
}

/// Two words with something between them become two words with one hyphen between them.
pub proof fn law_words_are_joined_by_one_hyphen(a: Seq<char>, c: char, d: char, b: Seq<char>)
    requires
        !crate::text::ascii_alphanumeric(c),
        !crate::text::ascii_alphanumeric(d),
        a.len() > 0,
        b.len() > 0,
        forall|i: int| 0 <= i < a.len() ==> crate::text::ascii_alphanumeric(#[trigger] a[i]),
        forall|i: int| 0 <= i < b.len() ==> crate::text::ascii_alphanumeric(#[trigger] b[i]),
    ensures
        slug(a + seq![c] + b) == slug(a) + seq!['-'] + slug(b),
        slug(a + seq![c] + seq![d] + b) == slug(a + seq![c] + b),
        slug(seq![c] + a + seq![d]) == slug(a),
{
    law_a_word_is_its_own_slug(a);
    law_a_word_is_its_own_slug(b);
    law_other_characters_part_words(a, c, b);
    law_other_characters_part_words(a, c, seq![d] + b);
    let nothing = Seq::<char>::empty();
    assert(nothing + seq![d] + b =~= seq![d] + b);
    law_other_characters_part_words(nothing, d, b);
    assert(a + seq![c] + (seq![d] + b) =~= a + seq![c] + seq![d] + b);
    assert(runs(nothing) + runs(b) =~= runs(b));
    let both = runs(a) + runs(b);
    reveal_with_fuel(crate::text::joined, 3);
    assert(both.len() == 2);
    assert(both.drop_last() =~= runs(a));
    assert(both.last() == runs(b)[0]);
    assert(nothing + seq![c] + (a + seq![d]) =~= seq![c] + a + seq![d]);
    law_other_characters_part_words(nothing, c, a + seq![d]);
    assert(a + seq![d] + nothing =~= a + seq![d]);
    law_other_characters_part_words(a, d, nothing);
    assert(runs(a) + runs(nothing) =~= runs(a));
    assert(runs(nothing) + runs(a) =~= runs(a));
}

} // verus!
