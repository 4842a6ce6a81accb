//! `/account/api-keys` — keys for programs acting as you.
//!
//! Only a hash is stored, so a key is shown by the reply that made it and
//! never again. Revoking keeps the row and its evidence; deleting removes
//! it.

use crate::auth::expiry::Moment;
use crate::auth_ui::dates::{day_of, expires_after};
use crate::auth_ui::orgs::fill;
use crate::auth_ui::page::{flash_to, settle, sign_in_first, with_session, Begin, Flash};
use crate::auth_ui::views::{flash_of, unwrap_or_blank};
use crate::text::{cat, copy, less, trim};
use vstd::prelude::*;

verus! {

/// A key, as the engine lists it.
#[derive(Clone, Debug, PartialEq, Eq)]
pub struct ApiKey {
    pub id: u128,
    pub name: Option<String>,
    pub prefix: Option<String>,
    pub enabled: bool,
    pub expires_at: Option<Moment>,
    pub created_at: Moment,
}

impl ApiKey {
    pub open spec fn valid(self) -> bool {
        self.created_at.valid() && (self.expires_at matches Some(at) ==> at.valid())
    }
}

#[derive(Clone, Debug, PartialEq, Eq)]
pub struct KeyRow {
    pub id: u128,
    pub name: String,
    pub prefix: String,
    pub enabled: bool,
    pub expires: String,
    pub created: String,
}

/// What the page asks of the engine.
#[derive(Clone, Debug, PartialEq, Eq)]
pub enum KeyCommand {
    Create { session_token: String, name: Option<String>, expires_at: Option<Moment> },
    Revoke { session_token: String, api_key_id: u128 },
    Delete { session_token: String, api_key_id: u128 },
}

#[derive(Clone, Debug, PartialEq, Eq)]
pub struct CreateForm {
    pub name: String,
    pub expires_days: String,
}

/// The keys, and one that was just made.
#[derive(Clone, Debug, PartialEq, Eq)]
pub struct KeysView {
    pub rows: Vec<KeyRow>,
    pub minted: Option<String>,
    pub flash: Option<Flash>,
}

/// A key reduced to what the list shows.
pub open spec fn key_row(key: ApiKey, row: KeyRow) -> bool {
    &&& row.id == key.id
    &&& row.name@ == match key.name {
        Some(name) if crate::text::trimmed(name@).len() > 0 => name@,
        _ => "Unnamed key"@,
    }
    &&& row.prefix@ == crate::auth_ui::views::or_blank(key.prefix)
    &&& row.enabled == key.enabled
    &&& row.expires@ == match key.expires_at {
        Some(at) => crate::auth_ui::dates::utc_day(at.secs, at.nanos),
        None => "never"@,
    }
    &&& row.created@ == crate::auth_ui::dates::utc_day(key.created_at.secs, key.created_at.nanos)
}

fn row_of(key: &ApiKey) -> (res: KeyRow)
    requires
        key.valid(),
    ensures
        key_row(*key, res),
{
    let unnamed = "Unnamed key".to_owned();
    let name = match &key.name {
        Some(name) => if trim(name.as_str()).as_str().unicode_len() > 0 {
            copy(name)
        } else {
            unnamed
        },
        None => unnamed,
    };
    KeyRow {
        id: key.id,
        name,
        prefix: unwrap_or_blank(&key.prefix),
        enabled: key.enabled,
        expires: match key.expires_at {
            Some(at) => day_of(at),
            None => "never".to_owned(),
        },
        created: day_of(key.created_at),
    }
}

/// A way of arranging `n` things: each once.
pub open spec fn arrangement(order: Seq<int>, n: int) -> bool {
    &&& order.len() == n
    &&& order.no_duplicates()
    &&& forall|i: int| 0 <= i < order.len() ==> 0 <= #[trigger] order[i] < n
}

/// The newest day first, and keys of one day in the order they came in.
pub open spec fn newest_first(rows: Seq<KeyRow>, order: Seq<int>) -> bool {
    forall|i: int, j: int|
        #![trigger rows[i], rows[j]]
        0 <= i < j < rows.len() ==> !crate::text::before(rows[i].created@, rows[j].created@) && (
        rows[i].created@ == rows[j].created@ ==> order[i] < order[j])
}

/// The rows of some keys: all of them, each once, newest day first.
pub open spec fn listed(keys: Seq<ApiKey>, rows: Seq<KeyRow>, order: Seq<int>) -> bool {
    &&& arrangement(order, keys.len() as int)
    &&& rows.len() == keys.len()
    &&& forall|i: int| 0 <= i < rows.len() ==> key_row(keys[order[i]], #[trigger] rows[i])
    &&& newest_first(rows, order)
}

/// The rows of some keys, in one order that is newest first.
pub open spec fn listing(keys: Seq<ApiKey>, rows: Seq<KeyRow>) -> bool {
    exists|order: Seq<int>| listed(keys, rows, order)
}

/// Where a row goes: after every row that is not older.
fn place(rows: &Vec<KeyRow>, created: &String) -> (res: usize)
    ensures
        res <= rows@.len(),
        forall|i: int|
            0 <= i < res ==> !crate::text::before((#[trigger] rows@[i]).created@, created@),
        res < rows@.len() ==> crate::text::before(rows@[res as int].created@, created@),
{
    let mut at: usize = 0;
    while at < rows.len() && !less(rows[at].created.as_str(), created.as_str())
        invariant
            at <= rows@.len(),
            forall|i: int|
                0 <= i < at ==> !crate::text::before((#[trigger] rows@[i]).created@, created@),
        decreases rows@.len() - at,
    {
        at = at + 1;
    }
    at
}

/// The rows of the list: the newest day first.
pub fn rows(keys: &Vec<ApiKey>) -> (res: Vec<KeyRow>)
    requires
        forall|i: int| 0 <= i < keys@.len() ==> (#[trigger] keys@[i]).valid(),
    ensures
        listing(keys@, res@),
{
    let mut out: Vec<KeyRow> = Vec::new();
    let ghost mut order: Seq<int> = Seq::empty();
    for k in 0..keys.len()
        invariant
            forall|i: int| 0 <= i < keys@.len() ==> (#[trigger] keys@[i]).valid(),
            listed(keys@.take(k as int), out@, order),
    {
        let row = row_of(&keys[k]);
        let at = place(&out, &row.created);
        let ghost before = out@;
        let ghost was = order;
        let ghost created = row.created@;
        out.insert(at, row);
        proof {
            order = was.insert(at as int, k as int);
            lemma_inserted(keys@, before, was, k as int, at as int, out@, order, row);
        }
    }
    assert(keys@.take(keys@.len() as int) =~= keys@);
    out
}

proof fn lemma_inserted(
    keys: Seq<ApiKey>,
    before: Seq<KeyRow>,
    was: Seq<int>,
    k: int,
    at: int,
    out: Seq<KeyRow>,
    order: Seq<int>,
    row: KeyRow,
)
    requires
        0 <= k < keys.len(),
        listed(keys.take(k), before, was),
        0 <= at <= before.len(),
        out == before.insert(at, row),
        order == was.insert(at, k),
        key_row(keys[k], row),
        forall|i: int|
            0 <= i < at ==> !crate::text::before((#[trigger] before[i]).created@, row.created@),
        at < before.len() ==> crate::text::before(before[at].created@, row.created@),
    ensures
        listed(keys.take(k + 1), out, order),
{
    let now = keys.take(k + 1);
    assert forall|i: int| 0 <= i < order.len() implies 0 <= #[trigger] order[i] < k + 1 by {
        if i < at {
            assert(order[i] == was[i]);
        } else if i > at {
            assert(order[i] == was[i - 1]);
        }
    }
    assert forall|i: int, j: int| 0 <= i < order.len() && 0 <= j < order.len() && i
        != j implies order[i] != order[j] by {
        let a = if i < at {
            i
        } else {
            i - 1
        };
        let b = if j < at {
            j
        } else {
            j - 1
        };
        if i != at {
            assert(order[i] == was[a]);
        }
        if j != at {
            assert(order[j] == was[b]);
        }
    }
    assert forall|i: int| 0 <= i < out.len() implies key_row(now[order[i]], #[trigger] out[i]) by {
        if i < at {
            assert(out[i] == before[i]);
            assert(order[i] == was[i]);
            assert(keys.take(k)[was[i]] == now[was[i]]);
        } else if i > at {
            assert(out[i] == before[i - 1]);
            assert(order[i] == was[i - 1]);
            assert(keys.take(k)[was[i - 1]] == now[was[i - 1]]);
        }
    }
    assert forall|i: int, j: int|
        #![trigger out[i], out[j]]
        0 <= i < j < out.len() implies !crate::text::before(out[i].created@, out[j].created@) && (
    out[i].created@ == out[j].created@ ==> order[i] < order[j]) by {
        let a = if i < at {
            i
        } else {
            i - 1
        };
        let b = if j < at {
            j
        } else {
            j - 1
        };
        if i != at {
            assert(out[i] == before[a]);
            assert(order[i] == was[a]);
        }
        if j != at {
            assert(out[j] == before[b]);
            assert(order[j] == was[b]);
        }
        if j == at {
            assert(was[a] < k);
        } else if i == at {
            let c = row.created@;
            let x = before[at].created@;
            let y = before[b].created@;
            if b > at {
                assert(!crate::text::before(before[at].created@, before[b].created@));
            }
            crate::text::lemma_before_is_total(x, y);
            if x != y && b > at {
                crate::text::lemma_before_is_transitive(y, x, c);
            }
            crate::text::lemma_before_is_strict(y, c);
        }
    }
}

/// `GET /account/api-keys`
pub fn page(token: Option<String>) -> (res: Begin<String>)
    ensures
        crate::auth_ui::page::begun(
            res,
            token,
            "/account/api-keys"@,
            |session: String, t: Seq<char>| session@ == t,
        ),
{
    with_session(token, "/account/api-keys")
}

/// The list, or signing in where it was refused.
pub fn page_listed(
    keys: &Result<Vec<ApiKey>, String>,
    ok: &Option<String>,
    error: &Option<String>,
) -> (res: Result<KeysView, String>)
    requires
        *keys matches Ok(list) ==> forall|i: int|
            0 <= i < list@.len() ==> (#[trigger] list@[i]).valid(),
    ensures
        match *keys {
            Ok(list) => res matches Ok(view) && listing(list@, view.rows@) && view.minted is None
                && crate::auth_ui::page::flash_view(view.flash) == crate::auth_ui::views::flash_in(
                *ok,
                *error,
            ),
            Err(_) => res matches Err(location) && location@ == crate::auth_ui::page::to_sign_in(
                "/account/api-keys"@,
            ),
        },
{
    match keys {
        Ok(list) => Ok(
            KeysView { rows: rows(list), minted: None, flash: flash_of(ok, error) },
        ),
        Err(_) => Err(sign_in_first("/account/api-keys")),
    }
}

/// `POST /account/api-keys`: a blank number of days is a key that does not
/// expire.
pub fn create(token: Option<String>, form: &CreateForm) -> (res: Begin<KeyCommand>)
    ensures
        crate::auth_ui::page::begun(
            res,
            token,
            "/account/api-keys"@,
            |c: KeyCommand, t: Seq<char>|
                c matches KeyCommand::Create { session_token, name, expires_at } && session_token@
                    == t && crate::text::opt_view(name) == crate::auth_ui::orgs::filled(form.name@)
                    && crate::auth_ui::dates::deadline(form.expires_days@, expires_at),
        ),
{
    match token {
        Some(session_token) => Begin::Ask(
            KeyCommand::Create {
                session_token,
                name: fill(form.name.as_str()),
                expires_at: expires_after(form.expires_days.as_str()),
            },
        ),
        None => Begin::Go(sign_in_first("/account/api-keys")),
    }
}

/// The key that was made is shown, once, above the list as it is now; a list
/// that could not be read is empty.
pub fn created(
    key: Result<String, String>,
    keys: Result<Vec<ApiKey>, String>,
) -> (res: Result<KeysView, String>)
    requires
        forall|i: int|
            0 <= i < crate::auth_ui::views::or_nothing(keys).len() ==> (
            #[trigger] crate::auth_ui::views::or_nothing(keys)[i]).valid(),
    ensures
        match key {
            Ok(secret) => res matches Ok(view) && listing(
                crate::auth_ui::views::or_nothing(keys),
                view.rows@,
            ) && (
            view.minted matches Some(shown) && shown@ == secret@)
                && crate::auth_ui::page::flash_view(view.flash) == Some(
                crate::auth_ui::page::Said::Success("Key created."@),
            ),
            Err(e) => res matches Err(location) && location@ == crate::auth_ui::page::flashed(
                "/account/api-keys"@,
                crate::auth_ui::page::Said::Error(e@),
            ),
        },
{
    match key {
        Ok(secret) => {
            let list = match keys {
                Ok(list) => list,
                Err(_) => Vec::new(),
            };
            assert(list@ == crate::auth_ui::views::or_nothing(keys));
            Ok(
                KeysView {
                    rows: rows(&list),
                    minted: Some(secret),
                    flash: Some(Flash::Success("Key created.".to_owned())),
                },
            )
        },
        Err(e) => Err(flash_to("/account/api-keys", &Flash::Error(e))),
    }
}

/// `POST /account/api-keys/revoke` — turn it off, keep the row.
pub fn revoke(token: Option<String>, id: u128) -> (res: Begin<KeyCommand>)
    ensures
        crate::auth_ui::page::begun(
            res,
            token,
            "/account/api-keys"@,
            |c: KeyCommand, t: Seq<char>|
                c matches KeyCommand::Revoke { session_token, api_key_id } && session_token@ == t
                    && api_key_id == id,
        ),
{
    match token {
        Some(session_token) => Begin::Ask(KeyCommand::Revoke { session_token, api_key_id: id }),
        None => Begin::Go(sign_in_first("/account/api-keys")),
    }
}

pub fn revoked(outcome: &Result<(), String>) -> (res: String)
    ensures
        res@ == crate::auth_ui::page::settled(
            "/account/api-keys"@,
            "Key revoked. It will no longer authenticate."@,
            *outcome,
        ),
{
    settle("/account/api-keys", "Key revoked. It will no longer authenticate.", outcome)
}

/// `POST /account/api-keys/delete` — remove the row entirely.
pub fn delete(token: Option<String>, id: u128) -> (res: Begin<KeyCommand>)
    ensures
        crate::auth_ui::page::begun(
            res,
            token,
            "/account/api-keys"@,
            |c: KeyCommand, t: Seq<char>|
                c matches KeyCommand::Delete { session_token, api_key_id } && session_token@ == t
                    && api_key_id == id,
        ),
{
    match token {
        Some(session_token) => Begin::Ask(KeyCommand::Delete { session_token, api_key_id: id }),
        None => Begin::Go(sign_in_first("/account/api-keys")),
    }
}

pub fn deleted(outcome: &Result<(), String>) -> (res: String)
    ensures
        res@ == crate::auth_ui::page::settled("/account/api-keys"@, "Key deleted."@, *outcome),
{
    settle("/account/api-keys", "Key deleted.", outcome)
}

/// A key, with the controls beside it.
#[derive(Clone, Debug, PartialEq, Eq)]
pub struct KeyLine {
    pub row: KeyRow,
    /// The start of the key, and an ellipsis.
    pub shown: String,
    pub revoked: bool,
    pub revocable: bool,
}

pub open spec fn key_line(row: KeyRow, line: KeyLine) -> bool {
    &&& line.row == row
    &&& line.shown@ == row.prefix@ + "…"@
    &&& line.revoked == !row.enabled
    &&& line.revocable == row.enabled
}

/// The lines of the list: a key that is off is marked, and only one that is
/// on can be revoked. Any can be deleted.
pub fn lay_out(rows: Vec<KeyRow>) -> (res: Vec<KeyLine>)
    ensures
        res@.len() == rows@.len(),
        forall|i: int| 0 <= i < res@.len() ==> key_line(rows@[i], #[trigger] res@[i]),
{
    let mut lines: Vec<KeyLine> = Vec::new();
    let ghost all = rows@;
    for row in it: rows
        invariant
            it.seq() == all,
            lines@.len() == it.index(),
            forall|j: int| 0 <= j < lines@.len() ==> key_line(all[j], #[trigger] lines@[j]),
    {
        let shown = cat(row.prefix.as_str(), "…");
        let enabled = row.enabled;
        lines.push(KeyLine { row, shown, revoked: !enabled, revocable: enabled });
    }
    lines
}

/// A list with the same day on every key keeps the order it came in.
pub proof fn law_keys_of_one_day_keep_their_order(
    keys: Seq<ApiKey>,
    rows: Seq<KeyRow>,
    order: Seq<int>,
)
    requires
        listed(keys, rows, order),
        forall|i: int, j: int|
            0 <= i < rows.len() && 0 <= j < rows.len() ==> (#[trigger] rows[i]).created@ == (
            #[trigger] rows[j]).created@,
    ensures
        forall|i: int, j: int| 0 <= i < j < rows.len() ==> order[i] < order[j],
{
    assert forall|i: int, j: int| 0 <= i < j < rows.len() implies order[i] < order[j] by {
        assert(rows[i].created@ == rows[j].created@);
    }
}

/// A key is listed under its own id and by its name where that shows anything; it can be
/// revoked while it works, and of the key itself only the beginning is shown.
pub proof fn law_a_key_is_listed_as_it_is(key: ApiKey, row: KeyRow, line: KeyLine)
    requires
        key_row(key, row),
        key_line(row, line),
    ensures
        line.row.id == key.id,
        key.name is Some && !crate::text::blank(key.name->0@) ==> row.name@ == key.name->0@,
        row.name@.len() > 0,
        key.enabled <==> line.revocable,
        line.revoked <==> !key.enabled,
        key.prefix is Some ==> crate::text::begins(line.shown@, key.prefix->0@) && line.shown@.len()
            == key.prefix->0@.len() + 1,
        key.expires_at is None ==> row.expires@ == "never"@,
        key.expires_at is Some ==> row.expires@ == crate::auth_ui::dates::utc_day(
            key.expires_at->0.secs,
            key.expires_at->0.nanos,
        ),
{
    reveal_strlit("…");
    reveal_strlit("Unnamed key");
    if let Some(name) = key.name {
        crate::text::law_white_space_alone_is_trimmed_to_nothing(name@);
        if name@.len() == 0 {
            assert(crate::text::blank(name@));
        }
    }
    if let Some(prefix) = key.prefix {
        assert(line.shown@.subrange(0, prefix@.len() as int) =~= prefix@);
    }
}

/// Every key is listed, the newest day first.
pub proof fn law_every_key_is_listed(keys: Seq<ApiKey>, rows: Seq<KeyRow>, i: int, j: int)
    requires
        listing(keys, rows),
        0 <= i < j < rows.len(),
    ensures
        rows.len() == keys.len(),
        rows[i].created@ == rows[j].created@ || crate::text::before(
            rows[j].created@,
            rows[i].created@,
        ),
{
    let order = choose|order: Seq<int>| listed(keys, rows, order);
    assert(!crate::text::before(rows[i].created@, rows[j].created@));
    crate::text::lemma_before_is_total(rows[i].created@, rows[j].created@);
}

} // verus!
