//! The stylesheet these pages are drawn with, served under a URL that names
//! its content: the response can be cached forever, and different content
//! has a different URL.

use crate::auth_ui::chrome::STYLE;
use crate::auth_ui::utilities::UTILITIES;
use crate::text::{cat3, strip_prefix, strip_suffix};
use vstd::prelude::*;

verus! {

/// Everything the pages need, in cascade order.
pub open spec fn whole_sheet() -> Seq<char> {
    UTILITIES@ + "\n"@ + STYLE@
}

/// Everything the pages need: the utilities first, which are a short stand-in for
/// a compiled sheet, and the pages' own rules last, where they win.
pub fn sheet() -> (res: String)
    ensures
        res@ == whole_sheet(),
{
    cat3(UTILITIES, "\n", STYLE)
}

/// The 64-bit FNV-1a hash of some bytes.
pub open spec fn fnv(bytes: Seq<u8>) -> u64
    decreases bytes.len(),
{
    if bytes.len() == 0 {
        0xcbf2_9ce4_8422_2325
    } else {
        (fnv(bytes.drop_last()) ^ (bytes.last() as u64)).wrapping_mul(0x0100_0000_01b3)
    }
}

/// A hash of the sheet, for the URL.
///
/// Not a checksum anybody verifies: it only has to change when the content
/// does.
pub fn fingerprint(css: &str) -> (res: u64)
    ensures
        res == fnv(vstd::utf8::encode_utf8(css@)),
{
    let bytes = css.as_bytes();
    let mut hash: u64 = 0xcbf2_9ce4_8422_2325;
    assert(bytes@.take(0) =~= Seq::<u8>::empty());
    for i in 0..bytes.len()
        invariant
            hash == fnv(bytes@.take(i as int)),
    {
        proof {
            assert(bytes@.take(i + 1).drop_last() =~= bytes@.take(i as int));
        }
        hash = (hash ^ (bytes[i] as u64)).wrapping_mul(0x0100_0000_01b3);
    }
    assert(bytes@.take(bytes@.len() as int) =~= bytes@);
    hash
}

/// The last `width` hexadecimal digits of a number.
pub open spec fn hex_digits(v: nat, width: nat) -> Seq<char>
    decreases width,
{
    if width == 0 {
        Seq::empty()
    } else {
        hex_digits(v / 16, (width - 1) as nat).push(crate::ids::hex_lower(v % 16))
    }
}

fn hex_digit(d: u64) -> (res: char)
    requires
        d < 16,
    ensures
        res == crate::ids::hex_lower(d as nat),
{
    if d < 10 {
        (48 + d as u8) as char
    } else {
        (87 + d as u8) as char
    }
}

fn hex_text(v: u64, width: u8) -> (res: String)
    ensures
        res@ == hex_digits(v as nat, width as nat),
    decreases width,
{
    if width == 0 {
        proof {
            reveal_strlit("");
            assert(""@ =~= Seq::<char>::empty());
        }
        "".to_owned()
    } else {
        let mut front = hex_text(v / 16, width - 1);
        front.push(hex_digit(v % 16));
        front
    }
}

/// Where the stylesheet with a fingerprint is linked.
pub open spec fn path_for(fingerprint: u64) -> Seq<char> {
    "/auth/assets/ui-"@ + hex_digits(fingerprint as nat, 16) + ".css"@
}

fn path_of(fingerprint: u64) -> (res: String)
    ensures
        res@ == path_for(fingerprint),
{
    let digits = hex_text(fingerprint, 16);
    cat3("/auth/assets/ui-", digits.as_str(), ".css")
}

/// The URL to link, with the content's fingerprint in it.
pub fn stylesheet_path() -> (res: String)
    ensures
        res@ == path_for(fnv(vstd::utf8::encode_utf8(whole_sheet()))),
{
    let css = sheet();
    let print = fingerprint(css.as_str());
    path_of(print)
}

/// The names the stylesheet answers to.
pub open spec fn is_sheet_name(file: Seq<char>) -> bool {
    match crate::text::without_prefix(file, "ui-"@) {
        Some(rest) => crate::text::without_suffix(rest, ".css"@) is Some,
        None => false,
    }
}

/// What a request for an asset is answered with.
#[derive(Clone, Debug, PartialEq, Eq)]
pub enum Asset {
    NotFound,
    Sheet { content_type: &'static str, cache_control: &'static str, css: String },
}

/// `GET /auth/assets/{file}`: one file, under many names, and anything else
/// is missing.
pub fn serve(file: &str) -> (res: Asset)
    ensures
        match res {
            Asset::NotFound => !is_sheet_name(file@),
            Asset::Sheet { content_type, cache_control, css } => {
                &&& is_sheet_name(file@)
                &&& content_type@ == "text/css; charset=utf-8"@
                &&& cache_control@ == "public, max-age=31536000, immutable"@
                &&& css@ == whole_sheet()
            },
        },
{
    if let Some(rest) = strip_prefix(file, "ui-") {
        if strip_suffix(rest.as_str(), ".css").is_some() {
            return Asset::Sheet {
                content_type: "text/css; charset=utf-8",
                cache_control: "public, max-age=31536000, immutable",
                css: sheet(),
            };
        }
    }
    Asset::NotFound
}

proof fn lemma_hex_digits_tell_apart(a: nat, b: nat, width: nat, bound: nat)
    requires
        bound == vstd::arithmetic::power::pow(16, width),
        a < bound,
        b < bound,
        hex_digits(a, width) == hex_digits(b, width),
    ensures
        a == b,
    decreases width,
{
    vstd::arithmetic::power::lemma_pow0(16);
    if width > 0 {
        let less = (width - 1) as nat;
        let small = vstd::arithmetic::power::pow(16, less);
        assert(vstd::arithmetic::power::pow(16, width) == 16 * small) by {
            reveal(vstd::arithmetic::power::pow);
        }
        let x = hex_digits(a, width);
        let y = hex_digits(b, width);
        assert(x.drop_last() =~= hex_digits(a / 16, less));
        assert(y.drop_last() =~= hex_digits(b / 16, less));
        assert(x.last() == y.last());
        assert(a % 16 == b % 16);
        assert(a / 16 < small && b / 16 < small);
        lemma_hex_digits_tell_apart(a / 16, b / 16, less, small as nat);
    }
}

/// Sheets with different fingerprints are linked under different URLs.
pub proof fn law_a_different_fingerprint_is_a_different_url(a: u64, b: u64)
    requires
        a != b,
    ensures
        path_for(a) != path_for(b),
{
    let before = "/auth/assets/ui-"@;
    let after = ".css"@;
    lemma_hex_digits_width(a as nat, 16);
    lemma_hex_digits_width(b as nat, 16);
    if path_for(a) == path_for(b) {
        let from = before.len() as int;
        assert(path_for(a).subrange(from, from + 16) =~= hex_digits(a as nat, 16));
        assert(path_for(b).subrange(from, from + 16) =~= hex_digits(b as nat, 16));
        assert(vstd::arithmetic::power::pow(16, 16) == 0x1_0000_0000_0000_0000) by {
            reveal(vstd::arithmetic::power::pow);
            reveal_with_fuel(vstd::arithmetic::power::pow, 17);
        }
        lemma_hex_digits_tell_apart(a as nat, b as nat, 16, 0x1_0000_0000_0000_0000);
    }
}

proof fn lemma_hex_digits_width(v: nat, width: nat)
    ensures
        hex_digits(v, width).len() == width,
    decreases width,
{
    if width > 0 {
        lemma_hex_digits_width(v / 16, (width - 1) as nat);
    }
}

/// The stylesheet is served under every URL that it is ever linked as.
pub proof fn law_a_linked_sheet_is_served(fingerprint: u64)
    ensures
        crate::text::without_prefix(path_for(fingerprint), "/auth/assets/"@) matches Some(file)
            && is_sheet_name(file),
{
    reveal_strlit("/auth/assets/ui-");
    reveal_strlit("/auth/assets/");
    reveal_strlit("ui-");
    reveal_strlit(".css");
    let digits = hex_digits(fingerprint as nat, 16);
    lemma_hex_digits_width(fingerprint as nat, 16);
    let path = path_for(fingerprint);
    let file = "ui-"@ + digits + ".css"@;
    assert(path.subrange(0, 13) =~= "/auth/assets/"@);
    assert(path.skip(13) =~= file);
    assert(file.subrange(0, 3) =~= "ui-"@);
    let rest = digits + ".css"@;
    assert(file.skip(3) =~= rest);
    assert(rest.subrange(16, 20) =~= ".css"@);
    assert(crate::text::without_prefix(path, "/auth/assets/"@) == Some(file));
    assert(crate::text::without_prefix(file, "ui-"@) == Some(rest));
}

/// A sheet's name is anything between `ui-` and `.css`, and nothing else is one.
pub proof fn law_a_sheet_is_known_by_both_ends(middle: Seq<char>, file: Seq<char>)
    ensures
        is_sheet_name("ui-"@ + middle + ".css"@),
        is_sheet_name(file) ==> crate::text::begins(file, "ui-"@) && crate::text::ends(file, ".css"@)
            && file.len() >= 7,
{
    reveal_strlit("ui-");
    reveal_strlit(".css");
    let s = "ui-"@ + middle + ".css"@;
    assert(s.subrange(0, 3) =~= "ui-"@);
    let rest = s.skip(3);
    assert(rest =~= middle + ".css"@);
    assert(rest.subrange(rest.len() - 4, rest.len() as int) =~= ".css"@);
    if is_sheet_name(file) {
        let tail = file.skip(3);
        assert(tail.subrange(tail.len() - 4, tail.len() as int) == ".css"@);
        assert(file.subrange(file.len() - 4, file.len() as int) =~= tail.subrange(
            tail.len() - 4,
            tail.len() as int,
        ));
    }
}

/// A fingerprint takes the bytes one after the other, each first mixed in and then spread:
/// the FNV-1a hash of 64 bits.
pub proof fn law_a_fingerprint_takes_one_byte_after_the_other(bytes: Seq<u8>, byte: u8)
    ensures
        fnv(Seq::<u8>::empty()) == 14_695_981_039_346_656_037u64,
        fnv(bytes.push(byte)) == (fnv(bytes) ^ (byte as u64)).wrapping_mul(1_099_511_628_211u64),
{
    assert(bytes.push(byte).drop_last() =~= bytes);
}

/// The sheet is the utilities and then the styles of the pages, which so have the last word.
pub proof fn law_the_pages_have_the_last_word()
    ensures
        crate::text::begins(whole_sheet(), UTILITIES@),
        crate::text::ends(whole_sheet(), STYLE@),
        whole_sheet().len() == UTILITIES@.len() + 1 + STYLE@.len(),
{
    let s = whole_sheet();
    reveal_strlit("\n");
    assert(s.subrange(0, UTILITIES@.len() as int) =~= UTILITIES@);
    assert(s.subrange(s.len() - STYLE@.len(), s.len() as int) =~= STYLE@);
}

} // verus!
