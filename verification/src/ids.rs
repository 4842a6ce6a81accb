//! Identifiers: the 128 bits of a UUID, and the text it is written as.

use uuid::Uuid;
use vstd::prelude::*;

verus! {

/// The hexadecimal digit `place` places from the right.
pub open spec fn nibble(v: nat, place: nat) -> nat
    decreases place,
{
    if place == 0 {
        v % 16
    } else {
        nibble(v / 16, (place - 1) as nat)
    }
}

pub open spec fn hex_lower(d: nat) -> char {
    if d < 10 {
        (48 + d) as char
    } else {
        (87 + d) as char
    }
}

/// How many hyphens stand before place `i` of a hyphenated UUID.
pub open spec fn hyphens_before(i: int) -> int {
    (if i > 8 { 1int } else { 0 }) + (if i > 13 { 1int } else { 0 }) + (if i > 18 { 1int } else {
        0
    }) + (if i > 23 { 1int } else { 0 })
}

/// The 128 bits of a UUID as `8-4-4-4-12` lower-case digits.
pub open spec fn hyphenated(v: u128) -> Seq<char> {
    Seq::new(
        36,
        |i: int|
            if i == 8 || i == 13 || i == 18 || i == 23 {
                '-'
            } else {
                hex_lower(nibble(v as nat, (31 - (i - hyphens_before(i))) as nat))
            },
    )
}

/// What `uuid::Uuid::parse_str` makes of a text: the 128 bits, or the words it
/// refuses it with.
pub uninterp spec fn uuid_parse(s: Seq<char>) -> Result<u128, Seq<char>>;

/// A reading of `s` that takes a hyphenated UUID for what it was made from.
pub open spec fn reads_hyphenated(s: Seq<char>, read: Result<u128, Seq<char>>) -> bool {
    forall|v: u128| s == #[trigger] hyphenated(v) ==> read == Ok::<u128, Seq<char>>(v)
}

/// `uuid::Uuid`'s `Display`: the hyphenated form, in lower case.
#[verifier::external_body]
pub(crate) fn uuid_text(v: u128) -> (res: String)
    ensures
        res@ == hyphenated(v),
{
    Uuid::from_u128(v).to_string()
}

/// `uuid::Uuid::parse_str`, and the words of its error. It takes the simple, the
/// hyphenated, the URN and the braced form; of these only the hyphenated form
/// is stated, that it gives back the bits it was made from.
#[verifier::external_body]
pub(crate) fn parse_uuid(s: &str) -> (res: Result<u128, String>)
    ensures
        crate::text::in_words(res) == uuid_parse(s@),
        reads_hyphenated(s@, crate::text::in_words(res)),
{
    match Uuid::parse_str(s) {
        Ok(id) => Ok(id.as_u128()),
        Err(e) => Err(e.to_string()),
    }
}

/// How many numbers `n` digits of base sixteen tell apart.
pub open spec fn places(n: nat) -> nat
    decreases n,
{
    if n == 0 {
        1
    } else {
        16 * places((n - 1) as nat)
    }
}

proof fn lemma_nibble(v: nat, place: nat)
    ensures
        nibble(v, place) < 16,
    decreases place,
{
    if place > 0 {
        lemma_nibble(v / 16, (place - 1) as nat);
    }
}

proof fn lemma_nibbles_tell_apart(v: nat, w: nat, n: nat)
    requires
        v < places(n),
        w < places(n),
        forall|p: nat| p < n ==> #[trigger] nibble(v, p) == nibble(w, p),
    ensures
        v == w,
    decreases n,
{
    if n > 0 {
        let m = (n - 1) as nat;
        assert(nibble(v, 0) == nibble(w, 0));
        assert forall|p: nat| p < m implies #[trigger] nibble(v / 16, p) == nibble(w / 16, p) by {
            assert(nibble(v, p + 1) == nibble(w, p + 1));
        }
        lemma_nibbles_tell_apart(v / 16, w / 16, m);
    }
}

proof fn lemma_hex_tells_apart(a: nat, b: nat)
    requires
        a < 16,
        b < 16,
        hex_lower(a) == hex_lower(b),
    ensures
        a == b,
{
    assert(hex_lower(a) as nat == if a < 10 {
        48 + a
    } else {
        87 + a
    });
    assert(hex_lower(b) as nat == if b < 10 {
        48 + b
    } else {
        87 + b
    });
}

/// An id is written in thirty-two small digits of base sixteen, in groups of eight, four,
/// four, four and twelve with hyphens between them.
pub proof fn law_an_id_is_written_in_five_groups(v: u128)
    ensures
        hyphenated(v).len() == 36,
        forall|i: int|
            0 <= i < 36 ==> if i == 8 || i == 13 || i == 18 || i == 23 {
                #[trigger] hyphenated(v)[i] == '-'
            } else {
                '0' <= hyphenated(v)[i] <= '9' || 'a' <= hyphenated(v)[i] <= 'f'
            },
{
    assert forall|i: int| 0 <= i < 36 implies if i == 8 || i == 13 || i == 18 || i == 23 {
        #[trigger] hyphenated(v)[i] == '-'
    } else {
        '0' <= hyphenated(v)[i] <= '9' || 'a' <= hyphenated(v)[i] <= 'f'
    } by {
        lemma_nibble(v as nat, (31 - (i - hyphens_before(i))) as nat);
    }
}

/// Two ids are not written alike.
pub proof fn law_ids_are_told_apart(v: u128, w: u128)
    requires
        hyphenated(v) == hyphenated(w),
    ensures
        v == w,
{
    assert forall|p: nat| p < 32 implies #[trigger] nibble(v as nat, p) == nibble(w as nat, p) by {
        let d = 31 - p as int;
        let i = d + (if d >= 8 {
            1int
        } else {
            0
        }) + (if d >= 12 {
            1int
        } else {
            0
        }) + (if d >= 16 {
            1int
        } else {
            0
        }) + (if d >= 20 {
            1int
        } else {
            0
        });
        assert(i - hyphens_before(i) == d);
        assert(i != 8 && i != 13 && i != 18 && i != 23);
        assert((31 - (i - hyphens_before(i))) as nat == p);
        assert(hyphenated(v)[i] == hex_lower(nibble(v as nat, p)));
        assert(hyphenated(w)[i] == hex_lower(nibble(w as nat, p)));
        lemma_nibble(v as nat, p);
        lemma_nibble(w as nat, p);
        lemma_hex_tells_apart(nibble(v as nat, p), nibble(w as nat, p));
    }
    assert(places(32) == 0x1_0000_0000_0000_0000_0000_0000_0000_0000nat) by {
        reveal_with_fuel(places, 33);
    }
    lemma_nibbles_tell_apart(v as nat, w as nat, 32);
}

/// The last digit counts ones, and the one before it sixteens.
pub proof fn law_the_last_digit_counts_ones(v: u128)
    ensures
        v % 16 < 10 ==> hyphenated(v)[35] == (48 + v % 16) as char,
        v % 16 >= 10 ==> hyphenated(v)[35] == (87 + v % 16) as char,
        v >= 16 ==> hyphenated(v)[34] == hyphenated((v / 16) as u128)[35],
{
    reveal_with_fuel(nibble, 3);
    assert(hyphens_before(35) == 4);
    assert(hyphens_before(34) == 4);
}

} // verus!
