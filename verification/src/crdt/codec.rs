//! Codec primitives: wire field to map slot and back.
//!
//! Storage choices:
//!
//! - a UUID is its RFC 4122 string, a timestamp its RFC 3339 string;
//! - `i32`, `u32` and `i64` are stored as `i64`, range-checked on read;
//! - an `Option` omits the key when it is `None`, and reads `Null` as `None` too;
//! - a list of strings is one tab-separated string;
//! - character-level text is a text container under the key, edited in Unicode
//!   scalar positions.

use crate::auth::expiry::Moment;
use crate::ids::{parse_uuid, uuid_text};
use crate::text::{cat, cat3, chars_of, join, same, signed_decimal_of, split, string_of};
use chrono::{DateTime, Utc};
use loro::{Container, LoroError, LoroMap, LoroText, LoroValue, ValueOrContainer};
use vstd::prelude::*;

verus! {

// ---------------------------------------------------------------------------
// The document, as far as the codec sees it
// ---------------------------------------------------------------------------

/// A map container of the document. Every handle on one container shares it:
/// what is said here of a map holds as long as no other handle edits it and the
/// document is not checked out elsewhere.
#[verifier::external_type_specification]
#[verifier::external_body]
pub struct ExLoroMap(LoroMap);

/// A handle on a text container.
#[verifier::external_type_specification]
#[verifier::external_body]
pub struct ExLoroText(LoroText);

/// Why the document refused an edit.
#[verifier::external_type_specification]
#[verifier::external_body]
pub struct ExLoroError(LoroError);

/// What a slot of a map can hold, as far as the codec tells things apart.
#[derive(Debug, Clone, PartialEq, Eq)]
pub enum Stored {
    Null,
    Bool(bool),
    I64(i64),
    Str(String),
    /// A text container, with the text in it.
    Text(String),
    /// Any other value or container.
    Other,
}

/// What a slot holds, in the mathematical model.
pub enum Content {
    Null,
    Bool(bool),
    I64(i64),
    Str(Seq<char>),
    Text(Seq<char>),
    Other,
}

impl Stored {
    pub open spec fn content(self) -> Content {
        match self {
            Stored::Null => Content::Null,
            Stored::Bool(b) => Content::Bool(b),
            Stored::I64(n) => Content::I64(n),
            Stored::Str(s) => Content::Str(s@),
            Stored::Text(t) => Content::Text(t@),
            Stored::Other => Content::Other,
        }
    }
}

/// What the slots of a map hold.
pub uninterp spec fn slots(m: LoroMap) -> Map<Seq<char>, Content>;

/// The text in the mergeable text child of each key that has ever had one,
/// whether or not the key shows it now.
pub uninterp spec fn resting(m: LoroMap) -> Map<Seq<char>, Seq<char>>;

/// Whether the map takes a deletion: it stands alone, or it is still part of its
/// document and the document can be edited.
pub uninterp spec fn takes_deletions(m: LoroMap) -> bool;

/// Whether the map takes text: it is still part of its document, and the document
/// can be edited. A map that stands alone takes no text child.
pub uninterp spec fn takes_text(m: LoroMap) -> bool;

/// The id of the container that a handle stands for.
pub uninterp spec fn container_id(t: LoroText) -> Seq<char>;

/// The ids of the text containers that the slots of a map hold.
pub uninterp spec fn text_ids(m: LoroMap) -> Map<Seq<char>, Seq<char>>;

/// What a `loro::LoroError` shows itself as.
pub uninterp spec fn loro_words(e: LoroError) -> Seq<char>;

/// Two states of a map in which the same edits are taken.
pub open spec fn same_terms(a: LoroMap, b: LoroMap) -> bool {
    takes_deletions(a) == takes_deletions(b) && takes_text(a) == takes_text(b)
}

/// What the slot under `k` holds.
pub open spec fn stored_at(m: LoroMap, k: Seq<char>) -> Option<Content> {
    if slots(m).contains_key(k) {
        Some(slots(m)[k])
    } else {
        None
    }
}

/// The text a text child created under `k` starts with.
pub open spec fn first_text(m: LoroMap, k: Seq<char>) -> Seq<char> {
    if resting(m).contains_key(k) {
        resting(m)[k]
    } else {
        Seq::empty()
    }
}

/// Two states of a map that tell the same.
pub open spec fn same_map(a: LoroMap, b: LoroMap) -> bool {
    slots(a) == slots(b) && resting(a) == resting(b) && text_ids(a) == text_ids(b)
}

/// Two states of a map that differ at most under `k`.
pub open spec fn same_but_for(a: LoroMap, b: LoroMap, k: Seq<char>) -> bool {
    &&& slots(a).remove(k) == slots(b).remove(k)
    &&& resting(a).remove(k) == resting(b).remove(k)
    &&& text_ids(a).remove(k) == text_ids(b).remove(k)
}

/// `loro::LoroMap::get`: what the slot under the key holds, or nothing where it
/// is absent; a text container is handed out as the text in it.
#[verifier::external_body]
fn get(m: &LoroMap, k: &str) -> (res: Option<Stored>)
    ensures
        match res {
            Some(s) => stored_at(*m, k@) == Some(s.content()),
            None => stored_at(*m, k@) is None,
        },
{
    Some(match m.get(k)? {
        ValueOrContainer::Value(LoroValue::Null) => Stored::Null,
        ValueOrContainer::Value(LoroValue::Bool(b)) => Stored::Bool(b),
        ValueOrContainer::Value(LoroValue::I64(n)) => Stored::I64(n),
        ValueOrContainer::Value(LoroValue::String(s)) => Stored::Str((*s).clone()),
        ValueOrContainer::Container(Container::Text(t)) => Stored::Text(t.to_string()),
        _ => Stored::Other,
    })
}

/// `loro::LoroMap::get` once more, for the `Debug` text of what the slot holds.
/// Nothing is said of that text: it names containers by the peers that made them.
#[verifier::external_body]
fn shown(m: &LoroMap, k: &str) -> String {
    m.get(k).map_or_else(String::new, |found| format!("{found:?}"))
}

/// `loro::LoroMap::get` where the slot holds a text container: the handle on that
/// container.
#[verifier::external_body]
fn text_handle(m: &LoroMap, k: &str) -> (res: Option<LoroText>)
    ensures
        res is Some <==> stored_at(*m, k@) matches Some(Content::Text(_)),
        res is Some <==> text_ids(*m).contains_key(k@),
        res matches Some(t) ==> container_id(t) == text_ids(*m)[k@],
{
    match m.get(k)? {
        ValueOrContainer::Container(Container::Text(t)) => Some(t),
        _ => None,
    }
}

/// `loro::LoroMap::insert` of a string, a bool or an integer: the slot then
/// holds it and nothing else has changed, or the document refused and nothing
/// has changed at all. It is refused only where a deletion would be; a value that
/// is there already is taken in any case.
#[verifier::external_body]
fn insert(m: &mut LoroMap, k: &str, v: Scalar) -> (res: Result<(), LoroError>)
    ensures
        takes_deletions(*old(m)) ==> res is Ok,
        takes_text(*old(m)) ==> res is Ok,
        same_terms(*final(m), *old(m)),
        res is Ok ==> slots(*final(m)) == slots(*old(m)).insert(k@, v.content()) && resting(
            *final(m),
        ) == resting(*old(m)) && text_ids(*final(m)) == text_ids(*old(m)).remove(k@),
        res is Err ==> same_map(*final(m), *old(m)),
{
    match v {
        Scalar::Str(s) => m.insert(k, s),
        Scalar::Bool(b) => m.insert(k, b),
        Scalar::I64(n) => m.insert(k, n),
    }
}

/// `loro::LoroMap::delete`: the slot is then absent, or the document refused
/// and nothing has changed. A text child stays as it was, out of sight. Whether
/// it is refused is a matter of the map and its document, whatever the key and
/// whether or not it is there: a document that is checked out and closed to
/// edits refuses, and so does a map that has been deleted from its document. A
/// map that takes text takes deletions.
#[verifier::external_body]
fn delete(m: &mut LoroMap, k: &str) -> (res: Result<(), LoroError>)
    ensures
        res is Ok <==> takes_deletions(*old(m)),
        takes_text(*old(m)) ==> res is Ok,
        same_terms(*final(m), *old(m)),
        res is Ok ==> slots(*final(m)) == slots(*old(m)).remove(k@) && resting(*final(m))
            == resting(*old(m)) && text_ids(*final(m)) == text_ids(*old(m)).remove(k@),
        res is Err ==> same_map(*final(m), *old(m)),
{
    m.delete(k)
}

/// `loro::LoroMap::ensure_mergeable_text` on an absent key: the slot then shows
/// the text child that belongs to the key, with the text it was left with, or
/// none where the key never had one, and the handle on it is handed out; or it was
/// refused and nothing has changed. Besides what refuses a deletion, a map that
/// stands alone refuses.
#[verifier::external_body]
fn ensure_mergeable_text(m: &mut LoroMap, k: &str) -> (res: Result<LoroText, LoroError>)
    requires
        stored_at(*old(m), k@) is None,
    ensures
        res is Ok <==> takes_text(*old(m)),
        same_terms(*final(m), *old(m)),
        res is Ok ==> slots(*final(m)) == slots(*old(m)).insert(
            k@,
            Content::Text(first_text(*old(m), k@)),
        ) && resting(*final(m)).remove(k@) == resting(*old(m)).remove(k@),
        res matches Ok(t) ==> text_ids(*final(m)) == text_ids(*old(m)).insert(k@, container_id(t)),
        res is Err ==> same_map(*final(m), *old(m)),
{
    m.ensure_mergeable_text(k)
}

/// `loro::LoroText::insert` on the text under the key, at a Unicode scalar
/// position: the text is spliced, or nothing has changed. A position past its end
/// is refused, and every other one is taken where the map takes text. There an
/// edit touches no other key; in a map that stands alone, nothing is said of
/// other keys, since one text can be put under several.
#[verifier::external_body]
fn text_insert(m: &mut LoroMap, k: &str, pos: usize, s: &str) -> (res: Result<(), LoroError>)
    requires
        stored_at(*old(m), k@) matches Some(Content::Text(_)),
    ensures
        stored_at(*old(m), k@) matches Some(Content::Text(t)) && {
            &&& pos > t.len() ==> res is Err
            &&& pos <= t.len() && takes_text(*old(m)) ==> res is Ok
            &&& res is Ok ==> stored_at(*final(m), k@) == Some(
                Content::Text(t.take(pos as int) + s@ + t.skip(pos as int)),
            )
        },
        stored_at(*final(m), k@) matches Some(Content::Text(_)),
        text_ids(*final(m)) == text_ids(*old(m)),
        res is Err ==> same_map(*final(m), *old(m)),
        takes_text(*old(m)) ==> same_but_for(*final(m), *old(m), k@),
        same_terms(*final(m), *old(m)),
{
    match m.get(k) {
        Some(ValueOrContainer::Container(Container::Text(t))) => t.insert(pos, s),
        _ => Ok(()),
    }
}

/// `loro::LoroText::delete` on the text under the key, in Unicode scalars: the
/// span is cut out, or nothing has changed. A span that reaches past the end of
/// the text is refused unless it is empty, and every other one is taken where the
/// map takes text. Of other keys the same is said as for an insertion.
#[verifier::external_body]
fn text_delete(m: &mut LoroMap, k: &str, pos: usize, len: usize) -> (res: Result<(), LoroError>)
    requires
        stored_at(*old(m), k@) matches Some(Content::Text(_)),
    ensures
        stored_at(*old(m), k@) matches Some(Content::Text(t)) && {
            &&& len > 0 && pos + len > t.len() ==> res is Err
            &&& (len == 0 || pos + len <= t.len()) && takes_text(*old(m)) ==> res is Ok
            &&& res is Ok ==> stored_at(*final(m), k@) == Some(
                Content::Text(
                    if len == 0 {
                        t
                    } else {
                        t.take(pos as int) + t.skip(pos + len)
                    },
                ),
            )
        },
        stored_at(*final(m), k@) matches Some(Content::Text(_)),
        text_ids(*final(m)) == text_ids(*old(m)),
        res is Err ==> same_map(*final(m), *old(m)),
        takes_text(*old(m)) ==> same_but_for(*final(m), *old(m), k@),
        same_terms(*final(m), *old(m)),
{
    match m.get(k) {
        Some(ValueOrContainer::Container(Container::Text(t))) => t.delete(pos, len),
        _ => Ok(()),
    }
}

/// The `Display` text of a `loro::LoroError`, which depends on nothing but the
/// error. Its wording is left to the name.
#[verifier::external_body]
fn loro_error_text(e: &LoroError) -> (res: String)
    ensures
        res@ == loro_words(*e),
{
    e.to_string()
}

// ---------------------------------------------------------------------------
// Timestamps as text
// ---------------------------------------------------------------------------

/// The years that RFC 3339 can write.
pub open spec fn in_four_digit_years(at: Moment) -> bool {
    -62_167_219_200 <= at.secs <= 253_402_300_799
}

/// What `chrono::DateTime::<Utc>::to_rfc3339` writes for a moment.
pub uninterp spec fn rfc3339(secs: i64, nanos: u32) -> Seq<char>;

/// What `chrono::DateTime::parse_from_rfc3339` makes of a text: the moment in
/// UTC, or the words it refuses it with.
pub uninterp spec fn rfc3339_parse(s: Seq<char>) -> Result<(i64, u32), Seq<char>>;

/// A reading of `s` that takes a written moment for what it was made from.
pub open spec fn reads_rfc3339(s: Seq<char>, read: Result<Moment, Seq<char>>) -> bool {
    forall|at: Moment|
        at.valid() && in_four_digit_years(at) && s == #[trigger] rfc3339(at.secs, at.nanos)
            ==> read == Ok::<Moment, Seq<char>>(at)
}

/// Seconds and nanoseconds as a moment.
pub open spec fn moment_of(parsed: Result<(i64, u32), Seq<char>>) -> Result<Moment, Seq<char>> {
    match parsed {
        Ok(at) => Ok(Moment { secs: at.0, nanos: at.1 }),
        Err(e) => Err(e),
    }
}

/// `chrono::DateTime::<Utc>::to_rfc3339`: the date and time down to the
/// nanosecond, named rather than spelled out.
#[verifier::external_body]
fn rfc3339_text(at: Moment) -> (res: String)
    requires
        at.valid(),
    ensures
        res@ == rfc3339(at.secs, at.nanos),
{
    DateTime::<Utc>::from_timestamp(at.secs, at.nanos).unwrap_or_default().to_rfc3339()
}

/// `chrono::DateTime::parse_from_rfc3339`, carried over to UTC, and the words of
/// its error. What `to_rfc3339` wrote of a moment in the years 0 to 9999 is read
/// back as that moment; of other years it writes more digits than are read.
#[verifier::external_body]
fn parse_rfc3339(s: &str) -> (res: Result<Moment, String>)
    ensures
        crate::text::in_words(res) == moment_of(rfc3339_parse(s@)),
        res matches Ok(at) ==> at.valid(),
        reads_rfc3339(s@, crate::text::in_words(res)),
{
    match DateTime::parse_from_rfc3339(s).map(|at| at.with_timezone(&Utc)) {
        Ok(at) => Ok(Moment { secs: at.timestamp(), nanos: at.timestamp_subsec_nanos() }),
        Err(e) => Err(e.to_string()),
    }
}

// ---------------------------------------------------------------------------
// Errors
// ---------------------------------------------------------------------------

/// What went wrong with the stored data.
#[derive(Debug, Clone, PartialEq, Eq)]
pub enum RepoError {
    Internal(String),
}

impl RepoError {
    pub open spec fn message(self) -> Seq<char> {
        match self {
            RepoError::Internal(s) => s@,
        }
    }
}

/// The words for a refusal by the document.
pub open spec fn refusal(words: Seq<char>) -> Seq<char> {
    "loro: "@ + words
}

/// Whether a message reports a refusal by the document.
pub open spec fn is_refusal(message: Seq<char>) -> bool {
    exists|words: Seq<char>| message == #[trigger] refusal(words)
}

/// The words for a value of the wrong type.
pub open spec fn mismatch(expected: Seq<char>, k: Seq<char>, found: Seq<char>) -> Seq<char> {
    "expected "@ + expected + " at `"@ + k + "`, got "@ + found
}

/// Whether a message reports a value of the wrong type.
pub open spec fn is_mismatch(message: Seq<char>, expected: Seq<char>, k: Seq<char>) -> bool {
    exists|found: Seq<char>| message == #[trigger] mismatch(expected, k, found)
}

/// The words for an absent key.
pub open spec fn missing(k: Seq<char>) -> Seq<char> {
    "missing key `"@ + k + "`"@
}

/// Wrap the words of a refusal.
pub fn refused(words: &str) -> (res: RepoError)
    ensures
        res.message() == refusal(words@),
{
    RepoError::Internal(cat("loro: ", words))
}

/// Wrap an error of the document.
pub fn loro_err(e: LoroError) -> (res: RepoError)
    ensures
        res.message() == refusal(loro_words(e)),
{
    let words: String = loro_error_text(&e);
    refused(words.as_str())
}

/// The error for a value of the wrong type.
pub fn mismatched(expected: &str, k: &str, found: &str) -> (res: RepoError)
    ensures
        res.message() == mismatch(expected@, k@, found@),
{
    let mut out: String = cat3("expected ", expected, " at `");
    out.append(k);
    out.append("`, got ");
    out.append(found);
    assert(out@ =~= mismatch(expected@, k@, found@));
    RepoError::Internal(out)
}

fn mismatch_at(m: &LoroMap, expected: &str, k: &str) -> (res: RepoError)
    ensures
        is_mismatch(res.message(), expected@, k@),
{
    let found: String = shown(m, k);
    mismatched(expected, k, found.as_str())
}

fn missing_key(k: &str) -> (res: RepoError)
    ensures
        res.message() == missing(k@),
{
    RepoError::Internal(cat3("missing key `", k, "`"))
}

// ---------------------------------------------------------------------------
// Writes
// ---------------------------------------------------------------------------

/// A value that a slot can be set to.
pub enum Scalar<'a> {
    Str(&'a str),
    Bool(bool),
    I64(i64),
}

impl<'a> Scalar<'a> {
    pub open spec fn content(self) -> Content {
        match self {
            Scalar::Str(s) => Content::Str(s@),
            Scalar::Bool(b) => Content::Bool(b),
            Scalar::I64(n) => Content::I64(n),
        }
    }
}

/// What a write of `v` under `k` does: the slot holds `v` and all else is as it
/// was; or, where the map takes no edits, the document may refuse, with its words,
/// and everything is as it was.
pub open spec fn written(
    before: LoroMap,
    after: LoroMap,
    k: Seq<char>,
    v: Content,
    res: Result<(), RepoError>,
) -> bool {
    &&& same_terms(after, before)
    &&& match res {
        Ok(_) => slots(after) == slots(before).insert(k, v) && resting(after) == resting(before)
            && text_ids(after) == text_ids(before).remove(k),
        Err(e) => is_refusal(e.message()) && same_map(after, before) && !takes_deletions(before)
            && !takes_text(before),
    }
}

/// What leaving out a value does: it never fails. The slot is absent and all else
/// is as it was; where the map takes no deletion, everything is as it was.
pub open spec fn omitted(
    before: LoroMap,
    after: LoroMap,
    k: Seq<char>,
    res: Result<(), RepoError>,
) -> bool {
    &&& res is Ok
    &&& same_terms(after, before)
    &&& resting(after) == resting(before)
    &&& slots(after) == (if takes_deletions(before) {
        slots(before).remove(k)
    } else {
        slots(before)
    })
    &&& text_ids(after) == (if takes_deletions(before) {
        text_ids(before).remove(k)
    } else {
        text_ids(before)
    })
}

fn write(m: &mut LoroMap, k: &str, v: Scalar) -> (res: Result<(), RepoError>)
    ensures
        written(*old(m), *final(m), k@, v.content(), res),
{
    match insert(m, k, v) {
        Ok(()) => Ok(()),
        Err(e) => Err(loro_err(e)),
    }
}

fn omit(m: &mut LoroMap, k: &str) -> (res: Result<(), RepoError>)
    ensures
        omitted(*old(m), *final(m), k@, res),
{
    let _ = delete(m, k);
    Ok(())
}

/// Write a string at `k`.
pub fn write_str(m: &mut LoroMap, k: &str, v: &str) -> (res: Result<(), RepoError>)
    ensures
        written(*old(m), *final(m), k@, Content::Str(v@), res),
{
    write(m, k, Scalar::Str(v))
}

/// Write `v`, or delete the key when it is `None`.
pub fn write_opt_str(m: &mut LoroMap, k: &str, v: Option<&str>) -> (res: Result<(), RepoError>)
    ensures
        match v {
            Some(s) => written(*old(m), *final(m), k@, Content::Str(s@), res),
            None => omitted(*old(m), *final(m), k@, res),
        },
{
    match v {
        Some(s) => write_str(m, k, s),
        None => omit(m, k),
    }
}

/// Write a UUID, given as its 128 bits, as its RFC 4122 string form.
pub fn write_uuid(m: &mut LoroMap, k: &str, v: u128) -> (res: Result<(), RepoError>)
    ensures
        written(*old(m), *final(m), k@, Content::Str(crate::ids::hyphenated(v)), res),
{
    let id: String = uuid_text(v);
    write_str(m, k, id.as_str())
}

/// Write `v`, or delete the key when it is `None`.
pub fn write_opt_uuid(m: &mut LoroMap, k: &str, v: Option<u128>) -> (res: Result<(), RepoError>)
    ensures
        match v {
            Some(id) => written(*old(m), *final(m), k@, Content::Str(crate::ids::hyphenated(id)), res),
            None => omitted(*old(m), *final(m), k@, res),
        },
{
    match v {
        Some(id) => write_uuid(m, k, id),
        None => omit(m, k),
    }
}

/// Write a timestamp as its RFC 3339 string form.
pub fn write_dt(m: &mut LoroMap, k: &str, v: Moment) -> (res: Result<(), RepoError>)
    requires
        v.valid(),
    ensures
        written(*old(m), *final(m), k@, Content::Str(rfc3339(v.secs, v.nanos)), res),
{
    let at: String = rfc3339_text(v);
    write_str(m, k, at.as_str())
}

/// Write `v`, or delete the key when it is `None`.
pub fn write_opt_dt(m: &mut LoroMap, k: &str, v: Option<Moment>) -> (res: Result<(), RepoError>)
    requires
        v matches Some(at) ==> at.valid(),
    ensures
        match v {
            Some(at) => written(
                *old(m),
                *final(m),
                k@,
                Content::Str(rfc3339(at.secs, at.nanos)),
                res,
            ),
            None => omitted(*old(m), *final(m), k@, res),
        },
{
    match v {
        Some(at) => write_dt(m, k, at),
        None => omit(m, k),
    }
}

/// Write a bool at `k`.
pub fn write_bool(m: &mut LoroMap, k: &str, v: bool) -> (res: Result<(), RepoError>)
    ensures
        written(*old(m), *final(m), k@, Content::Bool(v), res),
{
    write(m, k, Scalar::Bool(v))
}

/// Write `v`, or delete the key when it is `None`.
pub fn write_opt_bool(m: &mut LoroMap, k: &str, v: Option<bool>) -> (res: Result<(), RepoError>)
    ensures
        match v {
            Some(b) => written(*old(m), *final(m), k@, Content::Bool(b), res),
            None => omitted(*old(m), *final(m), k@, res),
        },
{
    match v {
        Some(b) => write_bool(m, k, b),
        None => omit(m, k),
    }
}

/// Write an `i64` at `k`.
pub fn write_i64(m: &mut LoroMap, k: &str, v: i64) -> (res: Result<(), RepoError>)
    ensures
        written(*old(m), *final(m), k@, Content::I64(v), res),
{
    write(m, k, Scalar::I64(v))
}

/// Write `v`, or delete the key when it is `None`.
pub fn write_opt_i64(m: &mut LoroMap, k: &str, v: Option<i64>) -> (res: Result<(), RepoError>)
    ensures
        match v {
            Some(n) => written(*old(m), *final(m), k@, Content::I64(n), res),
            None => omitted(*old(m), *final(m), k@, res),
        },
{
    match v {
        Some(n) => write_i64(m, k, n),
        None => omit(m, k),
    }
}

/// Write an `i32`, widened to the stored `i64`.
pub fn write_i32(m: &mut LoroMap, k: &str, v: i32) -> (res: Result<(), RepoError>)
    ensures
        written(*old(m), *final(m), k@, Content::I64(v as i64), res),
{
    write_i64(m, k, v as i64)
}

/// Write `v`, or delete the key when it is `None`.
pub fn write_opt_i32(m: &mut LoroMap, k: &str, v: Option<i32>) -> (res: Result<(), RepoError>)
    ensures
        match v {
            Some(n) => written(*old(m), *final(m), k@, Content::I64(n as i64), res),
            None => omitted(*old(m), *final(m), k@, res),
        },
{
    match v {
        Some(n) => write_i32(m, k, n),
        None => omit(m, k),
    }
}

/// Write a `u32`, widened to the stored `i64`.
pub fn write_u32(m: &mut LoroMap, k: &str, v: u32) -> (res: Result<(), RepoError>)
    ensures
        written(*old(m), *final(m), k@, Content::I64(v as i64), res),
{
    write_i64(m, k, v as i64)
}

/// Write `v`, or delete the key when it is `None`.
pub fn write_opt_u32(m: &mut LoroMap, k: &str, v: Option<u32>) -> (res: Result<(), RepoError>)
    ensures
        match v {
            Some(n) => written(*old(m), *final(m), k@, Content::I64(n as i64), res),
            None => omitted(*old(m), *final(m), k@, res),
        },
{
    match v {
        Some(n) => write_u32(m, k, n),
        None => omit(m, k),
    }
}

/// A list of strings as one, with a tab between each two.
pub open spec fn tabbed(v: Seq<Seq<char>>) -> Seq<char> {
    crate::text::joined(v, "\t"@)
}

/// The list that a tab-separated string stands for; an empty string is an empty
/// list.
pub open spec fn untabbed(raw: Seq<char>) -> Seq<Seq<char>> {
    if raw.len() == 0 {
        Seq::empty()
    } else {
        crate::text::pieces(raw, '\t')
    }
}

/// Write a list as one tab-separated string.
pub fn write_string_list(m: &mut LoroMap, k: &str, v: &Vec<String>) -> (res: Result<
    (),
    RepoError,
>)
    ensures
        written(
            *old(m),
            *final(m),
            k@,
            Content::Str(tabbed(crate::text::views(v@))),
            res,
        ),
{
    let one: String = join(v, "\t");
    write_str(m, k, one.as_str())
}

/// Write `v`, or delete the key when it is `None`.
pub fn write_opt_string_list(m: &mut LoroMap, k: &str, v: Option<&Vec<String>>) -> (res: Result<
    (),
    RepoError,
>)
    ensures
        match v {
            Some(list) => written(
                *old(m),
                *final(m),
                k@,
                Content::Str(tabbed(crate::text::views(list@))),
                res,
            ),
            None => omitted(*old(m), *final(m), k@, res),
        },
{
    match v {
        Some(list) => write_string_list(m, k, list),
        None => omit(m, k),
    }
}

// ---------------------------------------------------------------------------
// Reads
// ---------------------------------------------------------------------------

/// How a read of a slot that does not hold `expected` fails.
pub open spec fn fails(
    stored: Option<Content>,
    expected: Seq<char>,
    k: Seq<char>,
    message: Seq<char>,
) -> bool {
    match stored {
        None => message == missing(k),
        Some(_) => is_mismatch(message, expected, k),
    }
}

/// Read a string at `k`.
pub fn read_str(m: &LoroMap, k: &str) -> (res: Result<String, RepoError>)
    ensures
        match stored_at(*m, k@) {
            Some(Content::Str(s)) => res matches Ok(t) && t@ == s,
            stored => res matches Err(e) && fails(stored, "string"@, k@, e.message()),
        },
{
    match get(m, k) {
        Some(Stored::Str(s)) => Ok(s),
        Some(_) => Err(mismatch_at(m, "string", k)),
        None => Err(missing_key(k)),
    }
}

/// Read an optional string: an absent key and `Null` both read as `None`.
pub fn read_opt_str(m: &LoroMap, k: &str) -> (res: Result<Option<String>, RepoError>)
    ensures
        match stored_at(*m, k@) {
            None | Some(Content::Null) => res matches Ok(None),
            Some(Content::Str(s)) => res matches Ok(Some(t)) && t@ == s,
            Some(_) => res matches Err(e) && is_mismatch(e.message(), "string"@, k@),
        },
{
    match get(m, k) {
        None => Ok(None),
        Some(Stored::Null) => Ok(None),
        Some(Stored::Str(s)) => Ok(Some(s)),
        Some(_) => Err(mismatch_at(m, "string", k)),
    }
}

/// What the string `s` under `k` reads as, where a UUID is wanted.
pub open spec fn uuid_at(s: Seq<char>, k: Seq<char>) -> Result<u128, Seq<char>> {
    match crate::ids::uuid_parse(s) {
        Ok(v) => Ok(v),
        Err(e) => Err("bad uuid at `"@ + k + "`: "@ + e),
    }
}

/// A read's outcome with the error as its message.
pub open spec fn told<T>(res: Result<T, RepoError>) -> Result<T, Seq<char>> {
    match res {
        Ok(v) => Ok(v),
        Err(e) => Err(e.message()),
    }
}

/// Name the UUID that parsed, or say why `k` holds none.
pub fn uuid_parsed(parsed: Result<u128, String>, k: &str) -> (res: Result<u128, RepoError>)
    ensures
        match parsed {
            Ok(v) => told(res) == Ok::<u128, Seq<char>>(v),
            Err(e) => told(res) == Err::<u128, Seq<char>>("bad uuid at `"@ + k@ + "`: "@ + e@),
        },
{
    match parsed {
        Ok(v) => Ok(v),
        Err(e) => {
            let mut out: String = cat3("bad uuid at `", k, "`: ");
            out.append(e.as_str());
            Err(RepoError::Internal(out))
        },
    }
}

/// Read a UUID from its RFC 4122 string form.
pub fn read_uuid(m: &LoroMap, k: &str) -> (res: Result<u128, RepoError>)
    ensures
        match stored_at(*m, k@) {
            Some(Content::Str(s)) => told(res) == uuid_at(s, k@),
            stored => res matches Err(e) && fails(stored, "string"@, k@, e.message()),
        },
        forall|v: u128|
            stored_at(*m, k@) == Some(Content::Str(#[trigger] crate::ids::hyphenated(v))) ==> told(res) == Ok::<
                u128,
                Seq<char>,
            >(v),
{
    match read_str(m, k) {
        Ok(s) => {
            let parsed: Result<u128, String> = parse_uuid(s.as_str());
            uuid_parsed(parsed, k)
        },
        Err(e) => Err(e),
    }
}

/// Read an optional UUID: an absent key and `Null` both read as `None`.
pub fn read_opt_uuid(m: &LoroMap, k: &str) -> (res: Result<Option<u128>, RepoError>)
    ensures
        match stored_at(*m, k@) {
            None | Some(Content::Null) => res matches Ok(None),
            Some(Content::Str(s)) => match uuid_at(s, k@) {
                Ok(v) => told(res) == Ok::<Option<u128>, Seq<char>>(Some(v)),
                Err(e) => told(res) == Err::<Option<u128>, Seq<char>>(e),
            },
            Some(_) => res matches Err(e) && is_mismatch(e.message(), "string"@, k@),
        },
        forall|v: u128|
            stored_at(*m, k@) == Some(Content::Str(#[trigger] crate::ids::hyphenated(v))) ==> told(res) == Ok::<
                Option<u128>,
                Seq<char>,
            >(Some(v)),
{
    match read_opt_str(m, k) {
        Ok(None) => Ok(None),
        Ok(Some(s)) => {
            let parsed: Result<u128, String> = parse_uuid(s.as_str());
            match uuid_parsed(parsed, k) {
                Ok(v) => Ok(Some(v)),
                Err(e) => Err(e),
            }
        },
        Err(e) => Err(e),
    }
}

/// What the string `s` under `k` reads as, where a timestamp is wanted.
pub open spec fn dt_at(s: Seq<char>, k: Seq<char>) -> Result<Moment, Seq<char>> {
    match rfc3339_parse(s) {
        Ok(at) => Ok(Moment { secs: at.0, nanos: at.1 }),
        Err(e) => Err("bad timestamp at `"@ + k + "`: "@ + e),
    }
}

/// Name the moment that parsed, or say why `k` holds none.
pub fn dt_parsed(parsed: Result<Moment, String>, k: &str) -> (res: Result<Moment, RepoError>)
    ensures
        match parsed {
            Ok(v) => told(res) == Ok::<Moment, Seq<char>>(v),
            Err(e) => told(res) == Err::<Moment, Seq<char>>(
                "bad timestamp at `"@ + k@ + "`: "@ + e@,
            ),
        },
{
    match parsed {
        Ok(v) => Ok(v),
        Err(e) => {
            let mut out: String = cat3("bad timestamp at `", k, "`: ");
            out.append(e.as_str());
            Err(RepoError::Internal(out))
        },
    }
}

/// Read a timestamp from its RFC 3339 string form.
pub fn read_dt(m: &LoroMap, k: &str) -> (res: Result<Moment, RepoError>)
    ensures
        match stored_at(*m, k@) {
            Some(Content::Str(s)) => told(res) == dt_at(s, k@),
            stored => res matches Err(e) && fails(stored, "string"@, k@, e.message()),
        },
        res matches Ok(at) ==> at.valid(),
        forall|at: Moment|
            at.valid() && in_four_digit_years(at) && stored_at(*m, k@) == Some(
                Content::Str(#[trigger] rfc3339(at.secs, at.nanos)),
            ) ==> told(res) == Ok::<Moment, Seq<char>>(at),
{
    match read_str(m, k) {
        Ok(s) => {
            let parsed: Result<Moment, String> = parse_rfc3339(s.as_str());
            dt_parsed(parsed, k)
        },
        Err(e) => Err(e),
    }
}

/// Read an optional timestamp: an absent key and `Null` both read as `None`.
pub fn read_opt_dt(m: &LoroMap, k: &str) -> (res: Result<Option<Moment>, RepoError>)
    ensures
        match stored_at(*m, k@) {
            None | Some(Content::Null) => res matches Ok(None),
            Some(Content::Str(s)) => match dt_at(s, k@) {
                Ok(v) => told(res) == Ok::<Option<Moment>, Seq<char>>(Some(v)),
                Err(e) => told(res) == Err::<Option<Moment>, Seq<char>>(e),
            },
            Some(_) => res matches Err(e) && is_mismatch(e.message(), "string"@, k@),
        },
        forall|at: Moment|
            at.valid() && in_four_digit_years(at) && stored_at(*m, k@) == Some(
                Content::Str(#[trigger] rfc3339(at.secs, at.nanos)),
            ) ==> told(res) == Ok::<Option<Moment>, Seq<char>>(Some(at)),
{
    match read_opt_str(m, k) {
        Ok(None) => Ok(None),
        Ok(Some(s)) => {
            let parsed: Result<Moment, String> = parse_rfc3339(s.as_str());
            match dt_parsed(parsed, k) {
                Ok(v) => Ok(Some(v)),
                Err(e) => Err(e),
            }
        },
        Err(e) => Err(e),
    }
}

/// Read a bool at `k`.
pub fn read_bool(m: &LoroMap, k: &str) -> (res: Result<bool, RepoError>)
    ensures
        match stored_at(*m, k@) {
            Some(Content::Bool(b)) => res == Ok::<bool, RepoError>(b),
            stored => res matches Err(e) && fails(stored, "bool"@, k@, e.message()),
        },
{
    match get(m, k) {
        Some(Stored::Bool(b)) => Ok(b),
        Some(_) => Err(mismatch_at(m, "bool", k)),
        None => Err(missing_key(k)),
    }
}

/// Read an optional bool: an absent key and `Null` both read as `None`.
pub fn read_opt_bool(m: &LoroMap, k: &str) -> (res: Result<Option<bool>, RepoError>)
    ensures
        match stored_at(*m, k@) {
            None | Some(Content::Null) => res matches Ok(None),
            Some(Content::Bool(b)) => res == Ok::<Option<bool>, RepoError>(Some(b)),
            Some(_) => res matches Err(e) && is_mismatch(e.message(), "bool"@, k@),
        },
{
    match get(m, k) {
        None => Ok(None),
        Some(Stored::Null) => Ok(None),
        Some(Stored::Bool(b)) => Ok(Some(b)),
        Some(_) => Err(mismatch_at(m, "bool", k)),
    }
}

/// Read an `i64` at `k`.
pub fn read_i64(m: &LoroMap, k: &str) -> (res: Result<i64, RepoError>)
    ensures
        match stored_at(*m, k@) {
            Some(Content::I64(n)) => res == Ok::<i64, RepoError>(n),
            stored => res matches Err(e) && fails(stored, "i64"@, k@, e.message()),
        },
{
    match get(m, k) {
        Some(Stored::I64(n)) => Ok(n),
        Some(_) => Err(mismatch_at(m, "i64", k)),
        None => Err(missing_key(k)),
    }
}

/// Read an optional `i64`: an absent key and `Null` both read as `None`.
pub fn read_opt_i64(m: &LoroMap, k: &str) -> (res: Result<Option<i64>, RepoError>)
    ensures
        match stored_at(*m, k@) {
            None | Some(Content::Null) => res matches Ok(None),
            Some(Content::I64(n)) => res == Ok::<Option<i64>, RepoError>(Some(n)),
            Some(_) => res matches Err(e) && is_mismatch(e.message(), "i64"@, k@),
        },
{
    match get(m, k) {
        None => Ok(None),
        Some(Stored::Null) => Ok(None),
        Some(Stored::I64(n)) => Ok(Some(n)),
        Some(_) => Err(mismatch_at(m, "i64", k)),
    }
}

/// The words for an integer that does not fit.
pub open spec fn out_of_range(width: Seq<char>, k: Seq<char>, n: i64) -> Seq<char> {
    "out of range "@ + width + " at `"@ + k + "`: "@ + crate::text::signed_decimal(n as int)
}

fn out_of_range_error(width: &str, k: &str, n: i64) -> (res: RepoError)
    ensures
        res.message() == out_of_range(width@, k@, n),
{
    let mut out: String = cat3("out of range ", width, " at `");
    out.append(k);
    out.append("`: ");
    out.append(signed_decimal_of(n).as_str());
    assert(out@ =~= out_of_range(width@, k@, n));
    RepoError::Internal(out)
}

/// `n` as an `i32`, where it fits.
pub open spec fn narrowed_i32(n: i64, k: Seq<char>) -> Result<i32, Seq<char>> {
    if i32::MIN <= n <= i32::MAX {
        Ok(n as i32)
    } else {
        Err(out_of_range("i32"@, k, n))
    }
}

/// `n` as a `u32`, where it fits.
pub open spec fn narrowed_u32(n: i64, k: Seq<char>) -> Result<u32, Seq<char>> {
    if u32::MIN <= n <= u32::MAX {
        Ok(n as u32)
    } else {
        Err(out_of_range("u32"@, k, n))
    }
}

fn narrow_i32(n: i64, k: &str) -> (res: Result<i32, RepoError>)
    ensures
        told(res) == narrowed_i32(n, k@),
{
    if i32::MIN as i64 <= n && n <= i32::MAX as i64 {
        Ok(n as i32)
    } else {
        Err(out_of_range_error("i32", k, n))
    }
}

fn narrow_u32(n: i64, k: &str) -> (res: Result<u32, RepoError>)
    ensures
        told(res) == narrowed_u32(n, k@),
{
    if 0 <= n && n <= u32::MAX as i64 {
        Ok(n as u32)
    } else {
        Err(out_of_range_error("u32", k, n))
    }
}

/// Read an `i32` from the stored `i64`.
pub fn read_i32(m: &LoroMap, k: &str) -> (res: Result<i32, RepoError>)
    ensures
        match stored_at(*m, k@) {
            Some(Content::I64(n)) => told(res) == narrowed_i32(n, k@),
            stored => res matches Err(e) && fails(stored, "i64"@, k@, e.message()),
        },
{
    match read_i64(m, k) {
        Ok(n) => narrow_i32(n, k),
        Err(e) => Err(e),
    }
}

/// Read an optional `i32`: an absent key and `Null` both read as `None`.
pub fn read_opt_i32(m: &LoroMap, k: &str) -> (res: Result<Option<i32>, RepoError>)
    ensures
        match stored_at(*m, k@) {
            None | Some(Content::Null) => res matches Ok(None),
            Some(Content::I64(n)) => match narrowed_i32(n, k@) {
                Ok(v) => told(res) == Ok::<Option<i32>, Seq<char>>(Some(v)),
                Err(e) => told(res) == Err::<Option<i32>, Seq<char>>(e),
            },
            Some(_) => res matches Err(e) && is_mismatch(e.message(), "i64"@, k@),
        },
{
    match read_opt_i64(m, k) {
        Ok(None) => Ok(None),
        Ok(Some(n)) => match narrow_i32(n, k) {
            Ok(v) => Ok(Some(v)),
            Err(e) => Err(e),
        },
        Err(e) => Err(e),
    }
}

/// Read a `u32` from the stored `i64`.
pub fn read_u32(m: &LoroMap, k: &str) -> (res: Result<u32, RepoError>)
    ensures
        match stored_at(*m, k@) {
            Some(Content::I64(n)) => told(res) == narrowed_u32(n, k@),
            stored => res matches Err(e) && fails(stored, "i64"@, k@, e.message()),
        },
{
    match read_i64(m, k) {
        Ok(n) => narrow_u32(n, k),
        Err(e) => Err(e),
    }
}

/// Read an optional `u32`: an absent key and `Null` both read as `None`.
pub fn read_opt_u32(m: &LoroMap, k: &str) -> (res: Result<Option<u32>, RepoError>)
    ensures
        match stored_at(*m, k@) {
            None | Some(Content::Null) => res matches Ok(None),
            Some(Content::I64(n)) => match narrowed_u32(n, k@) {
                Ok(v) => told(res) == Ok::<Option<u32>, Seq<char>>(Some(v)),
                Err(e) => told(res) == Err::<Option<u32>, Seq<char>>(e),
            },
            Some(_) => res matches Err(e) && is_mismatch(e.message(), "i64"@, k@),
        },
{
    match read_opt_i64(m, k) {
        Ok(None) => Ok(None),
        Ok(Some(n)) => match narrow_u32(n, k) {
            Ok(v) => Ok(Some(v)),
            Err(e) => Err(e),
        },
        Err(e) => Err(e),
    }
}

fn untab(raw: &str) -> (res: Vec<String>)
    ensures
        crate::text::views(res@) == untabbed(raw@),
{
    let cs: Vec<char> = chars_of(raw);
    if cs.len() == 0 {
        let none: Vec<String> = Vec::new();
        assert(crate::text::views(none@) =~= untabbed(raw@));
        none
    } else {
        split(raw, '\t')
    }
}

/// Read a tab-separated string list. An empty string reads as an empty list.
pub fn read_string_list(m: &LoroMap, k: &str) -> (res: Result<Vec<String>, RepoError>)
    ensures
        match stored_at(*m, k@) {
            Some(Content::Str(s)) => res matches Ok(v) && crate::text::views(v@) == untabbed(s),
            stored => res matches Err(e) && fails(stored, "string"@, k@, e.message()),
        },
{
    match read_str(m, k) {
        Ok(raw) => Ok(untab(raw.as_str())),
        Err(e) => Err(e),
    }
}

/// Read an optional list: an absent key and `Null` both read as `None`.
pub fn read_opt_string_list(m: &LoroMap, k: &str) -> (res: Result<Option<Vec<String>>, RepoError>)
    ensures
        match stored_at(*m, k@) {
            None | Some(Content::Null) => res matches Ok(None),
            Some(Content::Str(s)) => res matches Ok(Some(v)) && crate::text::views(v@) == untabbed(
                s,
            ),
            Some(_) => res matches Err(e) && is_mismatch(e.message(), "string"@, k@),
        },
{
    match read_opt_str(m, k) {
        Ok(None) => Ok(None),
        Ok(Some(raw)) => Ok(Some(untab(raw.as_str()))),
        Err(e) => Err(e),
    }
}

// ---------------------------------------------------------------------------
// Text
// ---------------------------------------------------------------------------

/// Edit op against a text child container.
#[derive(Debug, Clone, PartialEq, Eq)]
pub enum TextOp {
    Insert { pos: u32, text: String },
    Delete { pos: u32, len: u32 },
}

/// The text after one op, where its place is within the text.
pub open spec fn edited(t: Seq<char>, op: TextOp) -> Option<Seq<char>> {
    match op {
        TextOp::Insert { pos, text } => if pos <= t.len() {
            Some(t.take(pos as int) + text@ + t.skip(pos as int))
        } else {
            None
        },
        TextOp::Delete { pos, len } => if len == 0 {
            Some(t)
        } else if pos + len <= t.len() {
            Some(t.take(pos as int) + t.skip(pos + len))
        } else {
            None
        },
    }
}

/// The text after all ops, each against what the ones before it left.
pub open spec fn edited_by(t: Seq<char>, ops: Seq<TextOp>) -> Option<Seq<char>>
    decreases ops.len(),
{
    if ops.len() == 0 {
        Some(t)
    } else {
        match edited_by(t, ops.drop_last()) {
            Some(u) => edited(u, ops.last()),
            None => None,
        }
    }
}

/// The text a text operation under `k` starts from, where the slot admits one.
pub open spec fn text_from(m: LoroMap, k: Seq<char>) -> Option<Seq<char>> {
    match stored_at(m, k) {
        Some(Content::Text(t)) => Some(t),
        Some(_) => None,
        None => Some(first_text(m, k)),
    }
}

/// What getting or creating the text child under `k` does: a text container that
/// is there is left as it is, one is created where the key is absent and the map
/// takes text, and the handle that comes out stands for the container that the
/// key then holds.
pub open spec fn handed_out(
    before: LoroMap,
    after: LoroMap,
    k: Seq<char>,
    res: Result<LoroText, RepoError>,
) -> bool {
    &&& same_terms(after, before)
    &&& res matches Ok(t) ==> text_ids(after).contains_key(k) && container_id(t) == text_ids(
        after,
    )[k]
    &&& match stored_at(before, k) {
        Some(Content::Text(_)) => res is Ok && after == before,
        Some(_) => after == before && (res matches Err(e) && is_mismatch(
            e.message(),
            "text container"@,
            k,
        )),
        None => match res {
            Ok(_) => takes_text(before) && slots(after) == slots(before).insert(
                k,
                Content::Text(first_text(before, k)),
            ) && same_but_for(after, before, k),
            Err(e) => !takes_text(before) && is_refusal(e.message()) && same_map(after, before),
        },
    }
}

/// Get or create the text child container under `k`.
///
/// A key that holds something else is an error; where a string from an older
/// snapshot may be there, read with [`read_text_with_migration`] first.
pub fn text_child(m: &mut LoroMap, key: &str) -> (res: Result<LoroText, RepoError>)
    ensures
        handed_out(*old(m), *final(m), key@, res),
{
    match text_handle(m, key) {
        Some(t) => {
            return Ok(t);
        },
        None => {},
    }
    match get(m, key) {
        Some(_) => Err(mismatch_at(m, "text container", key)),
        None => match ensure_mergeable_text(m, key) {
            Ok(t) => {
                assert(slots(*m).remove(key@) =~= slots(*old(m)).remove(key@));
                assert(text_ids(*m).remove(key@) =~= text_ids(*old(m)).remove(key@));
                Ok(t)
            },
            Err(e) => Err(loro_err(e)),
        },
    }
}

/// Read the current text; an absent key reads as empty.
pub fn read_text(m: &LoroMap, key: &str) -> (res: Result<String, RepoError>)
    ensures
        match stored_at(*m, key@) {
            None => res matches Ok(t) && t@ == Seq::<char>::empty(),
            Some(Content::Text(s)) => res matches Ok(t) && t@ == s,
            Some(_) => res matches Err(e) && is_mismatch(e.message(), "text container"@, key@),
        },
{
    match get(m, key) {
        None => Ok(String::new()),
        Some(Stored::Text(t)) => Ok(t),
        Some(_) => Err(mismatch_at(m, "text container", key)),
    }
}

/// What reading text with migration does: a text container is read as it is; a
/// plain string becomes the front of a text container that shows from then on,
/// where the map takes text, and where it takes none it is an error, by which the
/// string is lost if the map takes deletions; an absent key and `Null` read as
/// empty; anything else is an error.
pub open spec fn migrated(
    before: LoroMap,
    after: LoroMap,
    k: Seq<char>,
    res: Result<String, RepoError>,
) -> bool {
    match stored_at(before, k) {
        Some(Content::Text(s)) => after == before && (res matches Ok(t) && t@ == s),
        Some(Content::Str(s)) => same_but_for(after, before, k) && same_terms(after, before)
            && match res {
            Ok(t) => takes_text(before) && t@ == s + first_text(before, k) && stored_at(after, k)
                == Some(Content::Text(t@)),
            Err(e) => !takes_text(before) && is_refusal(e.message()) && stored_at(after, k) == (
            if takes_deletions(before) {
                None
            } else {
                Some(Content::Str(s))
            }),
        },
        Some(Content::Null) | None => after == before && (res matches Ok(t) && t@ == Seq::<
            char,
        >::empty()),
        Some(_) => after == before && (res matches Err(e) && is_mismatch(
            e.message(),
            "text container or legacy string"@,
            k,
        )),
    }
}

/// Read text, first turning a plain string from an older snapshot into a text
/// container that holds it. After that the text is read as it is.
pub fn read_text_with_migration(m: &mut LoroMap, key: &str) -> (res: Result<String, RepoError>)
    ensures
        migrated(*old(m), *final(m), key@, res),
{
    match get(m, key) {
        Some(Stored::Text(t)) => Ok(t),
        Some(Stored::Str(legacy)) => {
            match delete(m, key) {
                Ok(()) => {},
                Err(e) => {
                    return Err(loro_err(e));
                },
            }
            let ghost gone = *m;
            assert(slots(gone).remove(key@) =~= slots(*old(m)).remove(key@));
            assert(text_ids(gone).remove(key@) =~= text_ids(*old(m)).remove(key@));
            match ensure_mergeable_text(m, key) {
                Ok(_) => {},
                Err(e) => {
                    return Err(loro_err(e));
                },
            }
            assert(slots(*m).remove(key@) =~= slots(*old(m)).remove(key@));
            assert(text_ids(*m).remove(key@) =~= text_ids(*old(m)).remove(key@));
            let ghost start = first_text(*old(m), key@);
            let ghost made = *m;
            let is_empty: bool = chars_of(legacy.as_str()).len() == 0;
            if !is_empty {
                match text_insert(m, key, 0, legacy.as_str()) {
                    Ok(()) => {},
                    Err(e) => {
                        return Err(loro_err(e));
                    },
                }
                assert(start.take(0) + legacy@ + start.skip(0) =~= legacy@ + start);
            } else {
                assert(legacy@ + start =~= start);
            }
            match get(m, key) {
                Some(Stored::Text(t)) => Ok(t),
                _ => Ok(String::new()),
            }
        },
        Some(Stored::Null) => Ok(String::new()),
        None => Ok(String::new()),
        Some(_) => Err(mismatch_at(m, "text container or legacy string", key)),
    }
}

/// Whether the first `n` ops have been applied to the text under `k`, and the next
/// one was refused: in a map that takes text, because it does not fit.
pub open spec fn stopped_at(
    before: LoroMap,
    after: LoroMap,
    k: Seq<char>,
    ops: Seq<TextOp>,
    n: int,
) -> bool {
    &&& 0 <= n < ops.len()
    &&& text_from(before, k) matches Some(t) && {
        &&& edited_by(t, ops.take(n)) is Some
        &&& stored_at(after, k) == Some(Content::Text(edited_by(t, ops.take(n))->0))
        &&& takes_text(before) ==> edited_by(t, ops.take(n + 1)) is None
    }
}

/// What applying `ops` to the text under `k` does. On success the text is the
/// edited one, which then exists. In a map that takes text it succeeds wherever
/// every op fits the text that the ones before it left. Where an op is refused,
/// the ops before it stay applied.
pub open spec fn ops_applied(
    before: LoroMap,
    after: LoroMap,
    k: Seq<char>,
    ops: Seq<TextOp>,
    res: Result<(), RepoError>,
) -> bool {
    &&& same_terms(after, before)
    &&& takes_text(before) ==> same_but_for(after, before, k)
    &&& text_ids(after).remove(k) == text_ids(before).remove(k)
    &&& stored_at(before, k) is Some ==> text_ids(after) == text_ids(before)
    &&& match text_from(before, k) {
        Some(t) => match res {
            Ok(_) => edited_by(t, ops) is Some && stored_at(after, k) == Some(
                Content::Text(edited_by(t, ops)->0),
            ),
            Err(e) => {
                &&& is_refusal(e.message())
                &&& takes_text(before) ==> edited_by(t, ops) is None
                &&& same_map(after, before) || exists|n: int| #[trigger]
                    stopped_at(before, after, k, ops, n)
            },
        },
        None => same_map(after, before) && (res matches Err(e) && is_mismatch(
            e.message(),
            "text container"@,
            k,
        )),
    }
}

proof fn lemma_a_misfit_stays_one(t: Seq<char>, ops: Seq<TextOp>, n: int)
    requires
        0 <= n <= ops.len(),
        edited_by(t, ops.take(n)) is None,
    ensures
        edited_by(t, ops) is None,
    decreases ops.len() - n,
{
    if n < ops.len() {
        assert(ops.take(n + 1).drop_last() =~= ops.take(n));
        lemma_a_misfit_stays_one(t, ops, n + 1);
    } else {
        assert(ops.take(n) =~= ops);
    }
}

/// Apply a sequence of ops against the text child under `key`, each against
/// what the ones before it left.
pub fn apply_text_ops(m: &mut LoroMap, key: &str, ops: &Vec<TextOp>) -> (res: Result<
    (),
    RepoError,
>)
    ensures
        ops_applied(*old(m), *final(m), key@, ops@, res),
{
    match text_child(m, key) {
        Ok(_) => {},
        Err(e) => {
            return Err(e);
        },
    }
    let ghost start = text_from(*old(m), key@)->0;
    assert(stored_at(*m, key@) == Some(Content::Text(start)));
    let mut i: usize = 0;
    while i < ops.len()
        invariant
            i <= ops@.len(),
            text_from(*old(m), key@) == Some(start),
            same_terms(*m, *old(m)),
            takes_text(*old(m)) ==> same_but_for(*m, *old(m), key@),
            text_ids(*m).remove(key@) == text_ids(*old(m)).remove(key@),
            stored_at(*old(m), key@) is Some ==> text_ids(*m) == text_ids(*old(m)),
            edited_by(start, ops@.take(i as int)) is Some,
            stored_at(*m, key@) == Some(Content::Text(edited_by(start, ops@.take(i as int))->0)),
        decreases ops@.len() - i,
    {
        let ghost now = edited_by(start, ops@.take(i as int))->0;
        proof {
            assert(ops@.take(i + 1).drop_last() =~= ops@.take(i as int));
        }
        let done: Result<(), LoroError> = match &ops[i] {
            TextOp::Insert { pos, text } => text_insert(m, key, *pos as usize, text.as_str()),
            TextOp::Delete { pos, len } => text_delete(m, key, *pos as usize, *len as usize),
        };
        match done {
            Ok(()) => {},
            Err(e) => {
                proof {
                    assert(stopped_at(*old(m), *m, key@, ops@, i as int));
                    if takes_text(*old(m)) {
                        lemma_a_misfit_stays_one(start, ops@, i + 1);
                    }
                }
                return Err(loro_err(e));
            },
        }
        i = i + 1;
    }
    assert(ops@.take(i as int) =~= ops@);
    Ok(())
}

/// How many characters the two texts share at the front.
pub open spec fn shared_front(a: Seq<char>, b: Seq<char>) -> nat
    decreases a.len(),
{
    if a.len() > 0 && b.len() > 0 && a[0] == b[0] {
        1 + shared_front(a.skip(1), b.skip(1))
    } else {
        0
    }
}

/// How many characters the two texts share at the back.
pub open spec fn shared_back(a: Seq<char>, b: Seq<char>) -> nat
    decreases a.len(),
{
    if a.len() > 0 && b.len() > 0 && a.last() == b.last() {
        1 + shared_back(a.drop_last(), b.drop_last())
    } else {
        0
    }
}

/// An edit as one cut and one splice at the same place: `cut` characters go, and
/// `put` comes in.
pub struct Change {
    pub at: nat,
    pub cut: nat,
    pub put: Seq<char>,
}

/// The change between two texts, less what they share at the front and, of the
/// rest, at the back.
pub open spec fn change(old_text: Seq<char>, new_text: Seq<char>) -> Change {
    let front = shared_front(old_text, new_text);
    let old_rest = old_text.skip(front as int);
    let new_rest = new_text.skip(front as int);
    let back = shared_back(old_rest, new_rest);
    Change {
        at: front,
        cut: (old_rest.len() - back) as nat,
        put: new_rest.take(new_rest.len() - back),
    }
}

/// The ops that carry out a change: a deletion and an insertion, each left out
/// where it is empty.
pub open spec fn carries_out(ops: Seq<TextOp>, c: Change) -> bool {
    let cuts = if c.cut > 0 { 1int } else { 0 };
    let puts = if c.put.len() > 0 { 1int } else { 0 };
    &&& ops.len() == cuts + puts
    &&& c.cut > 0 ==> (ops[0] matches TextOp::Delete { pos, len } && pos == c.at && len == c.cut)
    &&& c.put.len() > 0 ==> (ops[cuts] matches TextOp::Insert { pos, text } && pos == c.at && text@
        == c.put)
}

proof fn lemma_shared_front(a: Seq<char>, b: Seq<char>)
    ensures
        shared_front(a, b) <= a.len(),
        shared_front(a, b) <= b.len(),
        a.take(shared_front(a, b) as int) == b.take(shared_front(a, b) as int),
        shared_front(a, b) < a.len() && shared_front(a, b) < b.len() ==> a[shared_front(
            a,
            b,
        ) as int] != b[shared_front(a, b) as int],
    decreases a.len(),
{
    if a.len() > 0 && b.len() > 0 && a[0] == b[0] {
        lemma_shared_front(a.skip(1), b.skip(1));
        let n = shared_front(a.skip(1), b.skip(1)) as int;
        assert(a.take(n + 1) =~= seq![a[0]] + a.skip(1).take(n));
        assert(b.take(n + 1) =~= seq![b[0]] + b.skip(1).take(n));
    } else {
        assert(a.take(0) =~= b.take(0));
    }
}

proof fn lemma_shared_back(a: Seq<char>, b: Seq<char>)
    ensures
        shared_back(a, b) <= a.len(),
        shared_back(a, b) <= b.len(),
        a.skip(a.len() - shared_back(a, b)) == b.skip(b.len() - shared_back(a, b)),
        shared_back(a, b) < a.len() && shared_back(a, b) < b.len() ==> a[a.len() - 1 - shared_back(
            a,
            b,
        )] != b[b.len() - 1 - shared_back(a, b)],
    decreases a.len(),
{
    if a.len() > 0 && b.len() > 0 && a.last() == b.last() {
        lemma_shared_back(a.drop_last(), b.drop_last());
        let n = shared_back(a.drop_last(), b.drop_last()) as int;
        assert(a.skip(a.len() - (n + 1)) =~= a.drop_last().skip(a.len() - 1 - n).push(a.last()));
        assert(b.skip(b.len() - (n + 1)) =~= b.drop_last().skip(b.len() - 1 - n).push(b.last()));
    } else {
        assert(a.skip(a.len() as int) =~= b.skip(b.len() as int));
    }
}

/// Carrying out the change between two texts turns the one into the other.
pub proof fn law_the_change_leads_from_old_to_new(
    old_text: Seq<char>,
    new_text: Seq<char>,
    ops: Seq<TextOp>,
)
    requires
        carries_out(ops, change(old_text, new_text)),
    ensures
        edited_by(old_text, ops) == Some(new_text),
{
    let c = change(old_text, new_text);
    let front = shared_front(old_text, new_text) as int;
    let old_rest = old_text.skip(front);
    let new_rest = new_text.skip(front);
    let back = shared_back(old_rest, new_rest) as int;
    lemma_shared_front(old_text, new_text);
    lemma_shared_back(old_rest, new_rest);
    let cut = old_text.take(front) + old_text.skip(front + c.cut as int);
    assert(old_text.skip(front + c.cut as int) =~= old_rest.skip(old_rest.len() - back));
    assert(new_text =~= new_text.take(front) + c.put + new_rest.skip(new_rest.len() - back));
    assert(cut.take(front) =~= old_text.take(front));
    assert(cut.skip(front) =~= old_text.skip(front + c.cut as int));
    reveal_with_fuel(edited_by, 3);
    if c.cut == 0 {
        assert(cut =~= old_text);
    }
    if c.put.len() == 0 {
        assert(new_text =~= cut);
    }
    if c.cut > 0 && c.put.len() > 0 {
        assert(ops.drop_last() =~= seq![ops[0]]);
        assert(ops.drop_last().drop_last() =~= Seq::<TextOp>::empty());
    } else if c.cut > 0 || c.put.len() > 0 {
        assert(ops.drop_last() =~= Seq::<TextOp>::empty());
    }
}

/// The change is minimal: what it leaves alone is shared, and neither its first
/// nor its last character is, so a concurrent edit outside it is not disturbed.
pub proof fn law_the_change_is_minimal(old_text: Seq<char>, new_text: Seq<char>)
    ensures
        ({
            let c = change(old_text, new_text);
            let kept = old_text.len() - c.at - c.cut;
            &&& kept >= 0
            &&& c.at + c.put.len() + kept == new_text.len()
            &&& old_text.take(c.at as int) == new_text.take(c.at as int)
            &&& old_text.skip((c.at + c.cut) as int) == new_text.skip((c.at + c.put.len()) as int)
            &&& c.cut > 0 && c.put.len() > 0 ==> {
                &&& old_text[c.at as int] != c.put[0]
                &&& old_text[c.at + c.cut - 1] != c.put.last()
            }
        }),
        old_text == new_text ==> change(old_text, new_text).cut == 0 && change(
            old_text,
            new_text,
        ).put.len() == 0,
{
    let c = change(old_text, new_text);
    let front = shared_front(old_text, new_text) as int;
    let old_rest = old_text.skip(front);
    let new_rest = new_text.skip(front);
    lemma_shared_front(old_text, new_text);
    lemma_shared_back(old_rest, new_rest);
    let back = shared_back(old_rest, new_rest) as int;
    assert(old_text.skip(front + c.cut as int) =~= old_rest.skip(old_rest.len() - back));
    assert(new_text.skip(front + c.put.len() as int) =~= new_rest.skip(new_rest.len() - back));
}

/// The words for a text too long to be edited.
pub open spec fn too_far(n: nat) -> Seq<char> {
    "text position "@ + crate::text::decimal(n) + " out of range"@
}

fn fit(n: usize) -> (res: Result<u32, RepoError>)
    ensures
        n <= u32::MAX ==> res == Ok::<u32, RepoError>(n as u32),
        n > u32::MAX ==> (res matches Err(e) && e.message() == too_far(n as nat)),
{
    if n <= u32::MAX as usize {
        Ok(n as u32)
    } else {
        let digits: String = crate::text::decimal_of(n as u64);
        Err(RepoError::Internal(cat3("text position ", digits.as_str(), " out of range")))
    }
}

/// The ops that turn `old_text` into `new_text`: at most one deletion and one
/// insertion, at the end of what the texts share at the front.
#[verifier::spinoff_prover]
pub fn diff_ops(old_text: &str, new_text: &str) -> (res: Result<Vec<TextOp>, RepoError>)
    ensures
        ({
            let c = change(old_text@, new_text@);
            if c.at > u32::MAX {
                res matches Err(e) && e.message() == too_far(c.at)
            } else if c.cut > u32::MAX {
                res matches Err(e) && e.message() == too_far(c.cut)
            } else {
                res matches Ok(ops) && carries_out(ops@, c)
            }
        }),
{
    let a: Vec<char> = chars_of(old_text);
    let b: Vec<char> = chars_of(new_text);
    let ghost x = old_text@;
    let ghost y = new_text@;
    let mut front: usize = 0;
    proof {
        assert(x.skip(0) =~= x);
        assert(y.skip(0) =~= y);
    }
    while front < a.len() && front < b.len() && a[front] == b[front]
        invariant
            a@ == x,
            b@ == y,
            front <= x.len(),
            front <= y.len(),
            shared_front(x, y) == front + shared_front(x.skip(front as int), y.skip(front as int)),
        decreases x.len() - front,
    {
        proof {
            assert(x.skip(front as int).skip(1) =~= x.skip(front + 1));
            assert(y.skip(front as int).skip(1) =~= y.skip(front + 1));
        }
        front = front + 1;
    }
    let ghost old_rest = x.skip(front as int);
    let ghost new_rest = y.skip(front as int);
    let old_left: usize = a.len() - front;
    let new_left: usize = b.len() - front;
    let mut back: usize = 0;
    proof {
        assert(old_rest.take(old_rest.len() as int) =~= old_rest);
        assert(new_rest.take(new_rest.len() as int) =~= new_rest);
    }
    while back < old_left && back < new_left && a[a.len() - 1 - back] == b[b.len() - 1 - back]
        invariant
            a@ == x,
            b@ == y,
            old_rest == x.skip(front as int),
            new_rest == y.skip(front as int),
            front <= x.len(),
            front <= y.len(),
            old_left == old_rest.len(),
            new_left == new_rest.len(),
            back <= old_left,
            back <= new_left,
            shared_back(old_rest, new_rest) == back + shared_back(
                old_rest.take(old_left - back),
                new_rest.take(new_left - back),
            ),
        decreases old_left - back,
    {
        proof {
            assert(old_rest.take(old_left - back).drop_last() =~= old_rest.take(
                old_left - back - 1,
            ));
            assert(new_rest.take(new_left - back).drop_last() =~= new_rest.take(
                new_left - back - 1,
            ));
        }
        back = back + 1;
    }
    let cut: usize = old_left - back;
    let put: String = string_of(&b, front, b.len() - back);
    let put_is_empty: bool = b.len() - back == front;
    assert(put@ =~= new_rest.take(new_rest.len() - back));
    let ghost c = change(x, y);
    assert(c.at == front);
    assert(c.cut == cut);
    assert(c.put == put@);
    let pos: u32 = match fit(front) {
        Ok(n) => n,
        Err(e) => {
            return Err(e);
        },
    };
    let mut ops: Vec<TextOp> = Vec::new();
    if cut > 0 {
        let len: u32 = match fit(cut) {
            Ok(n) => n,
            Err(e) => {
                return Err(e);
            },
        };
        ops.push(TextOp::Delete { pos, len });
    }
    if !put_is_empty {
        ops.push(TextOp::Insert { pos, text: put });
    }
    Ok(ops)
}

/// Edit the text under `key` by the difference between `old_text` and
/// `new_text`, as one deletion and one insertion between what the two share at
/// either end. Equal texts only make sure that the container exists. A text of
/// more characters than 32 bits can count is an error, and changes nothing.
pub fn apply_text_diff(m: &mut LoroMap, key: &str, old_text: &str, new_text: &str) -> (res: Result<
    (),
    RepoError,
>)
    ensures
        if old_text@.len() > u32::MAX {
            *final(m) == *old(m) && (res matches Err(e) && e.message() == too_far(old_text@.len()))
        } else if new_text@.len() > u32::MAX {
            *final(m) == *old(m) && (res matches Err(e) && e.message() == too_far(new_text@.len()))
        } else {
            exists|ops: Seq<TextOp>| #[trigger]
                ops_applied(*old(m), *final(m), key@, ops, res) && carries_out(
                    ops,
                    change(old_text@, new_text@),
                )
        },
        text_from(*old(m), key@) == Some(old_text@) && takes_text(*old(m)) && old_text@.len()
            <= u32::MAX && new_text@.len() <= u32::MAX ==> res is Ok,
        text_from(*old(m), key@) == Some(old_text@) && res is Ok ==> stored_at(*final(m), key@)
            == Some(Content::Text(new_text@)),
{
    match fit(old_text.unicode_len()) {
        Ok(_) => {},
        Err(e) => {
            return Err(e);
        },
    }
    match fit(new_text.unicode_len()) {
        Ok(_) => {},
        Err(e) => {
            return Err(e);
        },
    }
    proof {
        law_the_change_is_minimal(old_text@, new_text@);
    }
    if same(old_text, new_text) {
        let ghost none = Seq::<TextOp>::empty();
        match text_child(m, key) {
            Ok(_) => {
                assert(ops_applied(*old(m), *m, key@, none, Ok(())));
                Ok(())
            },
            Err(e) => {
                assert(ops_applied(*old(m), *m, key@, none, Err(e)));
                Err(e)
            },
        }
    } else {
        match diff_ops(old_text, new_text) {
            Ok(ops) => {
                proof {
                    law_the_change_leads_from_old_to_new(old_text@, new_text@, ops@);
                }
                apply_text_ops(m, key, &ops)
            },
            Err(e) => Err(e),
        }
    }
}

// ---------------------------------------------------------------------------
// Laws
// ---------------------------------------------------------------------------

/// A map that takes edits takes every write. What was written is there to be
/// read, every other key reads as it did, and the map goes on taking edits.
pub proof fn law_a_write_stays_where_it_was_put(
    before: LoroMap,
    after: LoroMap,
    k: Seq<char>,
    v: Content,
    res: Result<(), RepoError>,
)
    requires
        takes_deletions(before) || res is Ok,
        written(before, after, k, v, res),
    ensures
        res is Ok,
        same_terms(after, before),
        stored_at(after, k) == Some(v),
        forall|other: Seq<char>|
            other != k ==> #[trigger] stored_at(after, other) == stored_at(before, other),
{
}

/// What is left out is absent, which reads as `None`, where the map takes
/// deletions; where it takes none, nothing changes. Every other key reads as it
/// did.
pub proof fn law_what_is_omitted_reads_as_none(before: LoroMap, after: LoroMap, k: Seq<char>)
    requires
        omitted(before, after, k, Ok(())),
    ensures
        takes_deletions(before) ==> stored_at(after, k) is None,
        !takes_deletions(before) ==> same_map(after, before),
        forall|other: Seq<char>|
            other != k ==> #[trigger] stored_at(after, other) == stored_at(before, other),
{
}

/// A text child stays what it is: asking for it again hands out the same container
/// and changes nothing.
pub proof fn law_the_same_text_child_is_handed_out(
    before: LoroMap,
    between: LoroMap,
    after: LoroMap,
    k: Seq<char>,
    first: LoroText,
    again: Result<LoroText, RepoError>,
)
    requires
        handed_out(before, between, k, Ok(first)),
        handed_out(between, after, k, again),
    ensures
        after == between,
        again matches Ok(t) && container_id(t) == container_id(first),
{
}

/// Edits of a text child leave it the container it was, whether or not they were
/// all taken.
pub proof fn law_an_edited_text_child_is_the_same(
    before: LoroMap,
    between: LoroMap,
    edited: LoroMap,
    after: LoroMap,
    k: Seq<char>,
    first: LoroText,
    ops: Seq<TextOp>,
    outcome: Result<(), RepoError>,
    again: Result<LoroText, RepoError>,
)
    requires
        handed_out(before, between, k, Ok(first)),
        ops_applied(between, edited, k, ops, outcome),
        handed_out(edited, after, k, again),
    ensures
        again matches Ok(t) && container_id(t) == container_id(first),
{
}

/// Every `i32` and every `u32` survives being widened, stored and narrowed.
pub proof fn law_integers_are_read_back(signed: i32, unsigned: u32, k: Seq<char>)
    ensures
        narrowed_i32(signed as i64, k) == Ok::<i32, Seq<char>>(signed),
        narrowed_u32(unsigned as i64, k) == Ok::<u32, Seq<char>>(unsigned),
{
}

/// A list is read back as it was written, unless an entry holds a tab or the
/// list is a single empty entry.
pub proof fn law_lists_are_read_back(v: Seq<Seq<char>>)
    requires
        forall|i: int| 0 <= i < v.len() ==> crate::text::free_of(#[trigger] v[i], '\t'),
        !(v.len() == 1 && v[0].len() == 0),
    ensures
        untabbed(tabbed(v)) == v,
{
    reveal_strlit("\t");
    assert("\t"@ =~= seq!['\t']);
    if v.len() == 0 {
        assert(v =~= Seq::<Seq<char>>::empty());
    } else {
        crate::text::law_split_undoes_join(v, '\t');
        if v.len() > 1 {
            let front = v.drop_last();
            assert(tabbed(v) == crate::text::joined(front, "\t"@) + "\t"@ + v.last());
            assert(tabbed(v).len() > 0);
        }
    }
}

/// Migration happens once: whatever a migrating read of a string or a text gave,
/// the next one gives again, and changes nothing.
pub proof fn law_migration_happens_once(
    first: LoroMap,
    second: LoroMap,
    third: LoroMap,
    k: Seq<char>,
    seen: String,
    again: Result<String, RepoError>,
)
    requires
        migrated(first, second, k, Ok(seen)),
        migrated(second, third, k, again),
    ensures
        again matches Ok(t) && t@ == seen@,
        third == second,
{
}

/// A plain string under a key that never had a text child, in a map that takes
/// text, is migrated to exactly that text.
pub proof fn law_migration_keeps_the_text(
    before: LoroMap,
    after: LoroMap,
    k: Seq<char>,
    legacy: Seq<char>,
    seen: Result<String, RepoError>,
)
    requires
        stored_at(before, k) == Some(Content::Str(legacy)),
        !resting(before).contains_key(k),
        takes_text(before),
        migrated(before, after, k, seen),
    ensures
        seen matches Ok(t) && t@ == legacy,
        takes_text(after),
        stored_at(after, k) == Some(Content::Text(legacy)),
{
    assert(legacy + Seq::<char>::empty() =~= legacy);
}

/// What does not fit into the narrower number is refused, and never cut to fit; the refusal
/// names the slot.
pub proof fn law_what_does_not_fit_is_refused(n: i64, k: Seq<char>)
    ensures
        narrowed_i32(n, k) is Ok <==> -2_147_483_648 <= n <= 2_147_483_647,
        narrowed_i32(n, k) is Ok ==> narrowed_i32(n, k)->Ok_0 == n,
        narrowed_u32(n, k) is Ok <==> 0 <= n <= 4_294_967_295,
        narrowed_u32(n, k) is Ok ==> narrowed_u32(n, k)->Ok_0 == n,
        narrowed_i32(n, k) is Err ==> crate::text::ends(
            narrowed_i32(n, k)->Err_0,
            " at `"@ + k + "`: "@ + crate::text::signed_decimal(n as int),
        ),
        narrowed_u32(n, k) is Err ==> crate::text::ends(
            narrowed_u32(n, k)->Err_0,
            " at `"@ + k + "`: "@ + crate::text::signed_decimal(n as int),
        ),
{
    let tail = " at `"@ + k + "`: "@ + crate::text::signed_decimal(n as int);
    let a = out_of_range("i32"@, k, n);
    let b = out_of_range("u32"@, k, n);
    assert(a.subrange(a.len() - tail.len(), a.len() as int) =~= tail);
    assert(b.subrange(b.len() - tail.len(), b.len() as int) =~= tail);
}

/// An insertion puts the text where it says, and a deletion takes out that much from where
/// it says; either is refused where it reaches beyond the text.
pub proof fn law_edits_take_effect_where_they_say(
    front: Seq<char>,
    middle: Seq<char>,
    back: Seq<char>,
    pos: u32,
    len: u32,
    text: String,
)
    requires
        pos == front.len(),
        len == middle.len(),
        text@ == middle,
    ensures
        edited(front + back, TextOp::Insert { pos, text }) == Some(front + middle + back),
        edited(front + middle + back, TextOp::Delete { pos, len }) == Some(front + back),
{
    let both = front + back;
    assert(both.take(pos as int) =~= front);
    assert(both.skip(pos as int) =~= back);
    let all = front + middle + back;
    assert(all.take(pos as int) =~= front);
    assert(all.skip(pos + len) =~= back);
    if len == 0 {
        assert(all =~= both);
    }
}

/// An edit beyond the end of the text is refused.
pub proof fn law_edits_beyond_the_text_are_refused(t: Seq<char>, pos: u32, len: u32, text: String)
    ensures
        pos > t.len() ==> edited(t, TextOp::Insert { pos, text }) is None,
        len > 0 && pos + len > t.len() ==> edited(t, TextOp::Delete { pos, len }) is None,
{
}

/// Edits are made one after the other: those of two lists are those of the second made on
/// what the first left.
pub proof fn law_edits_are_made_in_order(t: Seq<char>, a: Seq<TextOp>, b: Seq<TextOp>)
    ensures
        edited_by(t, a) is Some ==> edited_by(t, a + b) == edited_by(edited_by(t, a)->0, b),
        edited_by(t, a) is None ==> edited_by(t, a + b) is None,
    decreases b.len(),
{
    if b.len() == 0 {
        assert(a + b =~= a);
    } else {
        assert((a + b).drop_last() =~= a + b.drop_last());
        assert((a + b).last() == b.last());
        law_edits_are_made_in_order(t, a, b.drop_last());
    }
}

/// What could not be read is told with the slot it stands in.
pub proof fn law_troubles_name_their_slot(
    k: Seq<char>,
    s: Seq<char>,
    expected: Seq<char>,
    found: Seq<char>,
)
    ensures
        crate::text::holds(missing(k), seq!['`'] + k + seq!['`']),
        crate::text::holds(mismatch(expected, k, found), seq!['`'] + k + seq!['`']),
        crate::text::holds(mismatch(expected, k, found), expected),
        crate::text::ends(mismatch(expected, k, found), found),
        uuid_at(s, k) is Err ==> crate::text::holds(uuid_at(s, k)->Err_0, seq!['`'] + k + seq!['`']),
        dt_at(s, k) is Err ==> crate::text::holds(dt_at(s, k)->Err_0, seq!['`'] + k + seq!['`']),
        crate::ids::uuid_parse(s) is Ok ==> uuid_at(s, k) == crate::ids::uuid_parse(s),
        rfc3339_parse(s) is Ok ==> dt_at(s, k) is Ok && dt_at(s, k)->Ok_0.secs == rfc3339_parse(
            s,
        )->Ok_0.0 && dt_at(s, k)->Ok_0.nanos == rfc3339_parse(s)->Ok_0.1,
{
    let slot = seq!['`'] + k + seq!['`'];
    reveal_strlit("missing key `");
    reveal_strlit("`");
    reveal_strlit("expected ");
    reveal_strlit(" at `");
    reveal_strlit("`, got ");
    reveal_strlit("bad uuid at `");
    reveal_strlit("bad timestamp at `");
    reveal_strlit("`: ");
    let m = missing(k);
    assert(m.subrange(12, 12 + slot.len() as int) =~= slot);
    assert(crate::text::stands_at(m, slot, 12));
    let w = mismatch(expected, k, found);
    let at = 9 + expected.len() as int + 4;
    assert(w.subrange(at, at + slot.len()) =~= slot);
    assert(crate::text::stands_at(w, slot, at));
    assert(w.subrange(9, 9 + expected.len() as int) =~= expected);
    assert(crate::text::stands_at(w, expected, 9));
    assert(w.subrange(w.len() - found.len(), w.len() as int) =~= found);
    if let Err(e) = crate::ids::uuid_parse(s) {
        let u = uuid_at(s, k)->Err_0;
        assert(u.subrange(12, 12 + slot.len() as int) =~= slot);
        assert(crate::text::stands_at(u, slot, 12));
    }
    if let Err(e) = rfc3339_parse(s) {
        let d = dt_at(s, k)->Err_0;
        assert(d.subrange(17, 17 + slot.len() as int) =~= slot);
        assert(crate::text::stands_at(d, slot, 17));
    }
}

/// A refusal hands the document's own words on, behind its name; a place that is out of
/// range is told as a number.
pub proof fn law_a_refusal_hands_the_words_on(words: Seq<char>, n: u64)
    ensures
        refusal(words) == seq!['l', 'o', 'r', 'o', ':', ' '] + words,
        is_refusal(refusal(words)),
        crate::text::holds(too_far(n as nat), seq![' '] + crate::text::decimal(n as nat) + seq![' ']),
{
    reveal_strlit("loro: ");
    assert("loro: "@ =~= seq!['l', 'o', 'r', 'o', ':', ' ']);
    reveal_strlit("text position ");
    reveal_strlit(" out of range");
    let told = too_far(n as nat);
    let wanted = seq![' '] + crate::text::decimal(n as nat) + seq![' '];
    assert(told.subrange(13, 13 + wanted.len() as int) =~= wanted);
    assert(crate::text::stands_at(told, wanted, 13));
}

/// A text is edited from what stands in the slot, or, where nothing does, from what was left
/// there; any other value is no text.
pub proof fn law_a_text_goes_on_from_what_is_there(m: LoroMap, k: Seq<char>, t: Seq<char>)
    ensures
        stored_at(m, k) == Some(Content::Text(t)) ==> text_from(m, k) == Some(t),
        stored_at(m, k) == Some(Content::Str(t)) || stored_at(m, k) == Some(Content::Null) || stored_at(
            m,
            k,
        ) == Some(Content::Other) || stored_at(m, k) == Some(Content::Bool(true)) ==> text_from(m, k) is None,
        stored_at(m, k) is None && !resting(m).contains_key(k) ==> text_from(m, k) == Some(
            Seq::<char>::empty(),
        ),
        stored_at(m, k) is None && resting(m).contains_key(k) ==> text_from(m, k) == Some(
            resting(m)[k],
        ),
{
}

/// What is not there is told as missing, and what is of another kind as that.
pub proof fn law_what_is_missing_is_told_as_missing(
    stored: Option<Content>,
    expected: Seq<char>,
    k: Seq<char>,
    message: Seq<char>,
)
    requires
        fails(stored, expected, k, message),
    ensures
        stored is None ==> crate::text::begins(message, "missing key "@),
        stored is Some ==> crate::text::begins(message, "expected "@ + expected + " at `"@ + k + "`"@),
{
    reveal_strlit("missing key ");
    reveal_strlit("missing key `");
    reveal_strlit("`, got ");
    reveal_strlit("`");
    if stored is None {
        let head = "missing key "@;
        assert(message.subrange(0, head.len() as int) =~= head);
    } else {
        let found = choose|found: Seq<char>| message == #[trigger] mismatch(expected, k, found);
        let head = "expected "@ + expected + " at `"@ + k + "`"@;
        assert(message.subrange(0, head.len() as int) =~= head);
    }
}

} // verus!
