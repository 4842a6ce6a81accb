//! Percent-encoding for the URLs an auth server builds.
//!
//! Two character sets, and one way back. A value that goes inside somebody
//! else's query string has everything but the unreserved characters escaped; a
//! value that is a path and has a query slot of its own keeps its `/`.

use crate::text::chars_of;
use vstd::prelude::*;

verus! {

/// Which characters stand for themselves.
#[derive(Clone, Copy, Debug, PartialEq, Eq, Structural)]
pub enum Keeping {
    /// Letters and digits alone.
    Alphanumeric,
    /// RFC 3986 *unreserved*.
    Unreserved,
    /// Unreserved, and `/`.
    UnreservedOrSlash,
}

/// The punctuation that `keeping` adds to letters and digits.
pub open spec fn mark(c: u32, keeping: Keeping) -> bool {
    match keeping {
        Keeping::Alphanumeric => false,
        Keeping::Unreserved => c == 45 || c == 46 || c == 95 || c == 126,
        Keeping::UnreservedOrSlash => c == 45 || c == 46 || c == 95 || c == 126 || c == 47,
    }
}

/// The bytes that stand for themselves.
pub open spec fn kept(b: u8, keeping: Keeping) -> bool {
    ||| 48 <= b <= 57
    ||| 65 <= b <= 90
    ||| 97 <= b <= 122
    ||| mark(b as u32, keeping)
}

/// The upper-case hexadecimal digit for `d`.
pub open spec fn hex_upper(d: u8) -> char {
    if d < 10 {
        (48 + d) as char
    } else {
        (55 + d) as char
    }
}

/// One byte as it is written: itself, or `%` and two digits.
pub open spec fn written(b: u8, keeping: Keeping) -> Seq<char> {
    if kept(b, keeping) {
        seq![b as char]
    } else {
        seq!['%', hex_upper(b / 16), hex_upper(b % 16)]
    }
}

/// Bytes as they are written, one after the other.
pub open spec fn escaped(bytes: Seq<u8>, keeping: Keeping) -> Seq<char>
    decreases bytes.len(),
{
    if bytes.len() == 0 {
        Seq::empty()
    } else {
        written(bytes[0], keeping) + escaped(bytes.skip(1), keeping)
    }
}

/// What a hexadecimal digit of either case is worth.
pub open spec fn hex_value(b: u8) -> Option<u8> {
    if 48 <= b <= 57 {
        Some((b - 48) as u8)
    } else if 65 <= b <= 70 {
        Some((b - 55) as u8)
    } else if 97 <= b <= 102 {
        Some((b - 87) as u8)
    } else {
        None
    }
}

/// Whether an escape stands at the front: `%` and two hexadecimal digits.
pub open spec fn escape_first(bytes: Seq<u8>) -> bool {
    bytes.len() >= 3 && bytes[0] == 37 && hex_value(bytes[1]) is Some && hex_value(
        bytes[2],
    ) is Some
}

/// Every escape replaced by its byte; a `%` that starts none stays.
pub open spec fn unescaped(bytes: Seq<u8>) -> Seq<u8>
    decreases bytes.len(),
{
    if bytes.len() == 0 {
        Seq::empty()
    } else if escape_first(bytes) {
        seq![(hex_value(bytes[1])->0 * 16 + hex_value(bytes[2])->0) as u8] + unescaped(
            bytes.skip(3),
        )
    } else {
        seq![bytes[0]] + unescaped(bytes.skip(1))
    }
}

/// What `percent_encoding::PercentDecode::decode_utf8_lossy` makes of the
/// decoded bytes.
pub uninterp spec fn lossy_text(bytes: Seq<u8>) -> Seq<char>;

/// What decoding `value` may give: the lossy text of its unescaped bytes, which
/// is their text where they are UTF-8.
pub open spec fn decodes_to(value: Seq<char>, text: Seq<char>) -> bool {
    let bytes = unescaped(vstd::utf8::encode_utf8(value));
    &&& text == lossy_text(bytes)
    &&& vstd::utf8::valid_utf8(bytes) ==> text == vstd::utf8::decode_utf8(bytes)
}

/// `percent_encoding::utf8_percent_encode` with `NON_ALPHANUMERIC`: the UTF-8
/// bytes of the text in order, an ASCII letter or digit as itself and every
/// other byte as `%` and two upper-case hexadecimal digits.
#[verifier::external_body]
fn escape_non_alphanumeric(value: &str) -> (res: String)
    ensures
        res@ == escaped(vstd::utf8::encode_utf8(value@), Keeping::Alphanumeric),
{
    percent_encoding::utf8_percent_encode(value, percent_encoding::NON_ALPHANUMERIC).to_string()
}

/// `percent_encoding::percent_decode_str` and its `decode_utf8_lossy`. Each `%`
/// followed by two hexadecimal digits becomes the byte they spell, all else
/// stays, and the bytes are read as UTF-8. Where they are well-formed the text
/// is theirs; how the ill-formed parts are replaced is left to the name.
#[verifier::external_body]
fn decode_lossily(value: &str) -> (res: String)
    ensures
        res@ == lossy_text(unescaped(vstd::utf8::encode_utf8(value@))),
        vstd::utf8::valid_utf8(unescaped(vstd::utf8::encode_utf8(value@))) ==> res@
            == vstd::utf8::decode_utf8(unescaped(vstd::utf8::encode_utf8(value@))),
{
    percent_encoding::percent_decode_str(value).decode_utf8_lossy().into_owned()
}

fn is_mark(c: char, keeping: Keeping) -> (res: bool)
    ensures
        res == mark(c as u32, keeping),
{
    let unreserved: bool = c == '-' || c == '.' || c == '_' || c == '~';
    match keeping {
        Keeping::Alphanumeric => false,
        Keeping::Unreserved => unreserved,
        Keeping::UnreservedOrSlash => unreserved || c == '/',
    }
}

/// Escape everything but what `keeping` names: the marks are copied, and what
/// stands between them is escaped down to its letters and digits.
fn escape(value: &str, keeping: Keeping) -> (res: String)
    ensures
        res@ == escaped(vstd::utf8::encode_utf8(value@), keeping),
{
    let cs: Vec<char> = chars_of(value);
    let mut out: String = String::new();
    let mut run: String = String::new();
    let mut i: usize = 0;
    proof {
        lemma_escaped_char_by_char(value@.take(0), keeping);
        lemma_escaped_char_by_char(run@, keeping);
    }
    while i < cs.len()
        invariant
            i <= cs@.len(),
            cs@ == value@,
            out@ + char_by_char(run@, keeping) == char_by_char(value@.take(i as int), keeping),
            free_of_marks(run@, keeping),
        decreases cs@.len() - i,
    {
        let c: char = cs[i];
        proof {
            assert(value@.take(i + 1).drop_last() =~= value@.take(i as int));
        }
        if is_mark(c, keeping) {
            proof {
                lemma_escaped_char_by_char(run@, Keeping::Alphanumeric);
                lemma_marks_do_not_matter(run@, keeping);
                lemma_mark_written(c, keeping);
            }
            out.append(escape_non_alphanumeric(run.as_str()).as_str());
            out.push(c);
            run = String::new();
            assert(out@ + char_by_char(run@, keeping) =~= char_by_char(
                value@.take(i + 1),
                keeping,
            ));
        } else {
            let ghost was = run@;
            run.push(c);
            proof {
                assert(run@.drop_last() =~= was);
            }
            assert(out@ + char_by_char(run@, keeping) =~= char_by_char(
                value@.take(i + 1),
                keeping,
            ));
        }
        i = i + 1;
    }
    proof {
        assert(value@.take(i as int) =~= value@);
        lemma_escaped_char_by_char(run@, Keeping::Alphanumeric);
        lemma_marks_do_not_matter(run@, keeping);
        lemma_escaped_char_by_char(value@, keeping);
    }
    out.append(escape_non_alphanumeric(run.as_str()).as_str());
    out
}

/// Escape a value going inside a query-string parameter.
pub fn encode_component(value: &str) -> (res: String)
    ensures
        res@ == escaped(vstd::utf8::encode_utf8(value@), Keeping::Unreserved),
{
    escape(value, Keeping::Unreserved)
}

/// Escape a path-shaped value going inside a query-string parameter, keeping
/// `/` readable.
pub fn encode_query_value(value: &str) -> (res: String)
    ensures
        res@ == escaped(vstd::utf8::encode_utf8(value@), Keeping::UnreservedOrSlash),
{
    escape(value, Keeping::UnreservedOrSlash)
}

/// Undo either of the above.
///
/// Invalid UTF-8 in the escapes is replaced rather than rejected: a malformed
/// value should render as mojibake, not take the request down.
pub fn decode(value: &str) -> (res: String)
    ensures
        decodes_to(value@, res@),
{
    decode_lossily(value)
}

// ---------------------------------------------------------------------------
// Escaping one character at a time
// ---------------------------------------------------------------------------

/// No mark in the text.
spec fn free_of_marks(cs: Seq<char>, keeping: Keeping) -> bool {
    forall|i: int| 0 <= i < cs.len() ==> !mark(cs[i] as u32, keeping)
}

/// The text escaped character by character.
spec fn char_by_char(cs: Seq<char>, keeping: Keeping) -> Seq<char>
    decreases cs.len(),
{
    if cs.len() == 0 {
        Seq::empty()
    } else {
        char_by_char(cs.drop_last(), keeping) + escaped(
            vstd::utf8::encode_scalar(cs.last() as u32),
            keeping,
        )
    }
}

proof fn lemma_escaped_concat(a: Seq<u8>, b: Seq<u8>, keeping: Keeping)
    ensures
        escaped(a + b, keeping) == escaped(a, keeping) + escaped(b, keeping),
    decreases a.len(),
{
    if a.len() == 0 {
        assert(a + b =~= b);
        assert(escaped(a, keeping) + escaped(b, keeping) =~= escaped(b, keeping));
    } else {
        assert((a + b).skip(1) =~= a.skip(1) + b);
        lemma_escaped_concat(a.skip(1), b, keeping);
        assert(escaped(a + b, keeping) =~= escaped(a, keeping) + escaped(b, keeping));
    }
}

proof fn lemma_encode_push(cs: Seq<char>, c: char)
    ensures
        vstd::utf8::encode_utf8(cs.push(c)) == vstd::utf8::encode_utf8(cs)
            + vstd::utf8::encode_scalar(c as u32),
    decreases cs.len(),
{
    reveal_with_fuel(vstd::utf8::encode_utf8, 2);
    if cs.len() == 0 {
        assert(cs.push(c).drop_first() =~= Seq::<char>::empty());
        assert(vstd::utf8::encode_utf8(cs.push(c)) =~= vstd::utf8::encode_utf8(cs)
            + vstd::utf8::encode_scalar(c as u32));
    } else {
        assert(cs.push(c).drop_first() =~= cs.drop_first().push(c));
        lemma_encode_push(cs.drop_first(), c);
        assert(vstd::utf8::encode_utf8(cs.push(c)) =~= vstd::utf8::encode_utf8(cs)
            + vstd::utf8::encode_scalar(c as u32));
    }
}

proof fn lemma_escaped_char_by_char(cs: Seq<char>, keeping: Keeping)
    ensures
        escaped(vstd::utf8::encode_utf8(cs), keeping) == char_by_char(cs, keeping),
    decreases cs.len(),
{
    if cs.len() == 0 {
        assert(vstd::utf8::encode_utf8(cs) =~= Seq::<u8>::empty());
    } else {
        lemma_escaped_char_by_char(cs.drop_last(), keeping);
        lemma_encode_push(cs.drop_last(), cs.last());
        assert(cs.drop_last().push(cs.last()) =~= cs);
        lemma_escaped_concat(
            vstd::utf8::encode_utf8(cs.drop_last()),
            vstd::utf8::encode_scalar(cs.last() as u32),
            keeping,
        );
    }
}

/// An ASCII character is one byte, its own; any other is bytes beyond ASCII.
proof fn lemma_scalar_bytes(c: char)
    ensures
        (c as u32) < 128 ==> vstd::utf8::encode_scalar(c as u32) == seq![c as u8],
        c as u32 >= 128 ==> forall|i: int|
            0 <= i < vstd::utf8::encode_scalar(c as u32).len() ==> #[trigger]
                vstd::utf8::encode_scalar(c as u32)[i] >= 128,
{
    let v: u32 = c as u32;
    if v < 128 {
        assert((v & 0x7F) as u8 == v as u8) by (bit_vector)
            requires
                v < 128,
        ;
        assert(vstd::utf8::encode_scalar(v) =~= seq![c as u8]);
    } else {
        let a: u8 = ((v >> 6) & 0x1F) as u8;
        let b: u8 = ((v >> 12) & 0x0F) as u8;
        let d: u8 = ((v >> 18) & 0x7) as u8;
        let e: u8 = (v & 0x3F) as u8;
        let f: u8 = ((v >> 6) & 0x3F) as u8;
        let g: u8 = ((v >> 12) & 0x3F) as u8;
        assert((0xC0u8 | a) >= 128 && (0xE0u8 | b) >= 128 && (0xF0u8 | d) >= 128 && (0x80u8 | e)
            >= 128 && (0x80u8 | f) >= 128 && (0x80u8 | g) >= 128) by (bit_vector);
    }
}

proof fn lemma_same_writing(bytes: Seq<u8>, keeping: Keeping)
    requires
        forall|i: int| 0 <= i < bytes.len() ==> !mark(#[trigger] bytes[i] as u32, keeping),
    ensures
        escaped(bytes, keeping) == escaped(bytes, Keeping::Alphanumeric),
    decreases bytes.len(),
{
    if bytes.len() > 0 {
        assert(!mark(bytes[0] as u32, keeping));
        assert forall|i: int| 0 <= i < bytes.skip(1).len() implies !mark(
            #[trigger] bytes.skip(1)[i] as u32,
            keeping,
        ) by {
            assert(bytes.skip(1)[i] == bytes[i + 1]);
        }
        lemma_same_writing(bytes.skip(1), keeping);
    }
}

proof fn lemma_marks_do_not_matter(cs: Seq<char>, keeping: Keeping)
    requires
        free_of_marks(cs, keeping),
    ensures
        char_by_char(cs, keeping) == char_by_char(cs, Keeping::Alphanumeric),
    decreases cs.len(),
{
    if cs.len() > 0 {
        lemma_marks_do_not_matter(cs.drop_last(), keeping);
        let c = cs.last();
        crate::text::lemma_char_range(c);
        assert(!mark(c as u32, keeping));
        lemma_scalar_bytes(c);
        let bytes = vstd::utf8::encode_scalar(c as u32);
        assert forall|i: int| 0 <= i < bytes.len() implies !mark(
            #[trigger] bytes[i] as u32,
            keeping,
        ) by {
            if (c as u32) < 128 {
                assert(bytes[i] == c as u8);
            } else {
                assert(bytes[i] >= 128);
            }
        }
        lemma_same_writing(bytes, keeping);
    }
}

proof fn lemma_mark_written(c: char, keeping: Keeping)
    requires
        mark(c as u32, keeping),
    ensures
        escaped(vstd::utf8::encode_scalar(c as u32), keeping) == seq![c],
{
    lemma_scalar_bytes(c);
    let bytes = vstd::utf8::encode_scalar(c as u32);
    assert(bytes =~= seq![c as u8]);
    assert(bytes.skip(1) =~= Seq::<u8>::empty());
    assert(escaped(bytes.skip(1), keeping) =~= Seq::<char>::empty());
    assert(written(bytes[0], keeping) =~= seq![c]);
    assert(escaped(bytes, keeping) =~= seq![c]);
}

// ---------------------------------------------------------------------------
// Laws
// ---------------------------------------------------------------------------

/// A character that an escaped text can hold.
pub open spec fn plain(c: char, keeping: Keeping) -> bool {
    c == '%' || (c as u32) < 128 && kept(c as u8, keeping)
}

/// Nothing but kept characters and `%` is ever written: a separator such as
/// `&`, `?`, `=`, `#` or a space cannot leak out of an escaped value.
pub proof fn law_only_plain_characters_are_written(bytes: Seq<u8>, keeping: Keeping)
    ensures
        forall|i: int|
            0 <= i < escaped(bytes, keeping).len() ==> plain(#[trigger] escaped(bytes, keeping)[i], keeping),
    decreases bytes.len(),
{
    if bytes.len() > 0 {
        law_only_plain_characters_are_written(bytes.skip(1), keeping);
        let head = written(bytes[0], keeping);
        let rest = escaped(bytes.skip(1), keeping);
        assert forall|i: int| 0 <= i < escaped(bytes, keeping).len() implies plain(
            #[trigger] escaped(bytes, keeping)[i],
            keeping,
        ) by {
            if i < head.len() {
                assert(escaped(bytes, keeping)[i] == head[i]);
            } else {
                assert(escaped(bytes, keeping)[i] == rest[i - head.len()]);
            }
        }
    }
}

/// The bytes of an ASCII text are its characters.
spec fn ascii_bytes(cs: Seq<char>) -> Seq<u8> {
    Seq::new(cs.len(), |i: int| cs[i] as u8)
}

proof fn lemma_unescape_escaped(bytes: Seq<u8>, keeping: Keeping)
    ensures
        unescaped(ascii_bytes(escaped(bytes, keeping))) == bytes,
    decreases bytes.len(),
{
    let out = ascii_bytes(escaped(bytes, keeping));
    if bytes.len() == 0 {
        assert(out =~= Seq::<u8>::empty());
        assert(bytes =~= Seq::<u8>::empty());
    } else {
        let rest = ascii_bytes(escaped(bytes.skip(1), keeping));
        let b = bytes[0];
        lemma_unescape_escaped(bytes.skip(1), keeping);
        if kept(b, keeping) {
            assert(out[0] == b);
            assert(out.skip(1) =~= rest);
            assert(unescaped(out) == seq![b] + unescaped(rest));
        } else {
            assert(out[0] == 37);
            assert(out[1] == hex_upper(b / 16) as u8);
            assert(out[2] == hex_upper(b % 16) as u8);
            assert(out.skip(3) =~= rest);
            assert(hex_value(out[1]) == Some((b / 16) as u8));
            assert(hex_value(out[2]) == Some((b % 16) as u8));
            assert((b / 16) * 16 + b % 16 == b);
        }
        assert(seq![b] + bytes.skip(1) =~= bytes);
    }
}

/// Decoding undoes either encoding, whatever the text: every text that can come
/// out of decoding an encoded value is the value.
pub proof fn law_decode_undoes_encode(value: Seq<char>, keeping: Keeping, text: Seq<char>)
    requires
        decodes_to(escaped(vstd::utf8::encode_utf8(value), keeping), text),
    ensures
        text == value,
{
    let bytes = vstd::utf8::encode_utf8(value);
    let out = escaped(bytes, keeping);
    law_only_plain_characters_are_written(bytes, keeping);
    assert(vstd::utf8::is_ascii_chars(out)) by {
        assert forall|i: int| 0 <= i < out.len() implies '\0' <= #[trigger] out[i] <= '\u{7f}' by {
            crate::text::lemma_char_range(out[i]);
            assert(plain(out[i], keeping));
        }
    }
    vstd::utf8::is_ascii_chars_encode_utf8(out);
    assert(vstd::utf8::encode_utf8(out) =~= ascii_bytes(out));
    lemma_unescape_escaped(bytes, keeping);
    vstd::utf8::encode_utf8_valid_utf8(value);
    vstd::utf8::encode_utf8_decode_utf8(value);
}

/// Every byte is written on its own: letters and digits as they are, `-`, `.`, `_` and `~`
/// too wherever marks are kept, `/` only where it is asked for, and anything else as `%`
/// and two digits of base sixteen, in capitals.
pub proof fn law_each_byte_is_written_on_its_own(
    a: Seq<u8>,
    b: Seq<u8>,
    byte: u8,
    keeping: Keeping,
)
    ensures
        escaped(a + b, keeping) == escaped(a, keeping) + escaped(b, keeping),
        ({
            let letter = 65 <= byte <= 90 || 97 <= byte <= 122 || 48 <= byte <= 57;
            let dash = byte == 45 || byte == 46 || byte == 95 || byte == 126;
            let stays = letter || dash && !(keeping is Alphanumeric) || byte == 47
                && keeping is UnreservedOrSlash;
            let told = escaped(seq![byte], keeping);
            &&& stays ==> told == seq![byte as char]
            &&& !stays ==> told.len() == 3 && told[0] == '%' && told[1] as int == (if byte / 16 < 10 {
                48 + byte / 16
            } else {
                55 + byte / 16
            }) && told[2] as int == (if byte % 16 < 10 {
                48 + byte % 16
            } else {
                55 + byte % 16
            })
        }),
{
    lemma_escaped_concat(a, b, keeping);
    reveal_with_fuel(escaped, 2);
    assert(seq![byte].skip(1) =~= Seq::<u8>::empty());
    assert(escaped(seq![byte], keeping) =~= written(byte, keeping));
}

/// An escape is read whether its digits are capitals or not; what is no escape stands for
/// itself, a lone `%` too.
pub proof fn law_what_is_no_escape_stands_for_itself(byte: u8, rest: Seq<u8>, high: u8, low: u8)
    requires
        48 <= high <= 57 || 65 <= high <= 70 || 97 <= high <= 102,
        48 <= low <= 57 || 65 <= low <= 70 || 97 <= low <= 102,
    ensures
        byte != 37 ==> unescaped(seq![byte] + rest) == seq![byte] + unescaped(rest),
        rest.len() < 2 ==> unescaped(seq![37u8] + rest) == seq![37u8] + unescaped(rest),
        rest.len() >= 1 && !(48 <= rest[0] <= 57 || 65 <= rest[0] <= 70 || 97 <= rest[0] <= 102)
            ==> unescaped(seq![37u8] + rest) == seq![37u8] + unescaped(rest),
        ({
            let h = if high <= 57 {
                high - 48
            } else if high <= 70 {
                high - 55
            } else {
                high - 87
            };
            let l = if low <= 57 {
                low - 48
            } else if low <= 70 {
                low - 55
            } else {
                low - 87
            };
            unescaped(seq![37u8, high, low] + rest) == seq![(h * 16 + l) as u8] + unescaped(rest)
        }),
{
    assert((seq![byte] + rest).skip(1) =~= rest);
    assert((seq![37u8] + rest).skip(1) =~= rest);
    let all = seq![37u8, high, low] + rest;
    assert(all.skip(3) =~= rest);
    assert(all[0] == 37 && all[1] == high && all[2] == low);
    if rest.len() >= 1 {
        assert((seq![37u8] + rest)[1] == rest[0]);
    }
}

} // verus!
