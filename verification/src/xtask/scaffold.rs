//! A new feature crate from the zero-ceremony templates.
//!
//! A feature is two crates: a contract with an entity, a service and its error,
//! and an in-memory backend that implements both.

use crate::text::{
    cat, chars_of, copy, is_ascii_digit, is_ascii_lower, same, split, to_ascii_upper,
};
use vstd::prelude::*;

verus! {

// ---------------------------------------------------------------------------
// Templates
// ---------------------------------------------------------------------------

/// The manifest of the contract crate.
pub const PROTO_MANIFEST: &'static str = r#"[package]
name = "$name$-proto"
version.workspace = true
edition.workspace = true
publish = false
description = "The $name$ contract: entities, services, errors — every wire is generated from here."

[dependencies]
architect.workspace = true
chrono.workspace = true
facet.workspace = true
thiserror.workspace = true
uuid.workspace = true
vox = { workspace = true, optional = true }
sea-orm = { workspace = true, optional = true }

# The proto-crate profile. `vox` is the RPC face (on by default); `server`
# adds the SeaORM storage and the migration. That is the whole contract.
[features]
default = ["vox"]
vox = ["dep:vox", "architect/vox"]
server = ["dep:sea-orm", "architect/server"]

[lints]
workspace = true
"#;

/// The source of the contract crate.
pub const PROTO_SOURCE: &'static str = r#"//! The `$name$` contract. Three declarations; everything else — the vox
//! service, the HTTP routes, both clients, the storage, the migration —
//! is generated.

use uuid::Uuid;

/// The entity. `NoteCreate`/`Update`/`List`, the `$entity$Repo` trait,
/// its clients and its storage all come from this.
#[architect::entity(table_name = "$entity_snake$s", repo, events)]
pub struct $entity$ {
    #[architect(primary_key, auto_increment = false, on_create = Uuid::new_v4())]
    pub id: Uuid,
    #[architect(filterable, sortable)]
    pub name: String,
}

/// How this feature fails. `HttpError` says how each case looks over
/// HTTP; `From<TransportError>` lets the generated clients implement the
/// service trait themselves.
#[architect::wire]
#[derive(Eq, thiserror::Error)]
pub enum $pascal$Error {
    #[error("not found")]
    NotFound,
    #[error("unreachable: {0}")]
    Unreachable(String),
}

impl architect::http::HttpError for $pascal$Error {
    fn status(&self) -> u16 {
        match self {
            Self::NotFound => 404,
            Self::Unreachable(_) => 503,
        }
    }
    fn code(&self) -> &'static str {
        match self {
            Self::NotFound => "not_found",
            Self::Unreachable(_) => "unreachable",
        }
    }
}

impl From<architect::TransportError> for $pascal$Error {
    fn from(e: architect::TransportError) -> Self {
        Self::Unreachable(e.to_string())
    }
}

/// The service: `POST /$name$/<method-kebab>` over HTTP, the same
/// methods over vox, and clients for both that implement this trait.
#[architect::service]
pub trait $service$ {
    /// Look one up by name.
    async fn find(&self, name: String) -> Result<$entity$, $pascal$Error>;
}

// The trait-prefixed mount names (`$service$Service`, `$snake$_service_layer`).
pub use prelude::*;
"#;

/// The manifest of the in-memory crate.
pub const MEMORY_MANIFEST: &'static str = r#"[package]
name = "$name$-memory"
version.workspace = true
edition.workspace = true
publish = false
description = "In-memory $name$ backend — tests, demos, offline."

[dependencies]
architect = { workspace = true, features = ["vox", "local", "http-client"] }
$name$-proto = { path = "../$name$-proto" }
uuid.workspace = true

[dev-dependencies]
tokio.workspace = true

[lints]
workspace = true
"#;

/// The source of the in-memory crate.
pub const MEMORY_SOURCE: &'static str = r#"//! An in-memory `$name$` backend: one struct implementing the repo and
//! the service, and one `Services` impl naming its bundle.

use std::sync::{Arc, Mutex};

use architect::{Filter, Page, RepoError, Sort};
use $snake$_proto::*;
use uuid::Uuid;

#[derive(Clone, Default)]
pub struct Memory {
    rows: Arc<Mutex<Vec<$entity$>>>,
}

impl $service$ for Memory {
    async fn find(&self, name: String) -> Result<$entity$, $pascal$Error> {
        architect::lock(&self.rows)
            .iter()
            .find(|r| r.name == name)
            .cloned()
            .ok_or($pascal$Error::NotFound)
    }
}

impl $entity$Repo for Memory {
    async fn get(&self, id: Uuid) -> Result<$entity$, RepoError> {
        architect::lock(&self.rows)
            .iter()
            .find(|r| r.id == id)
            .cloned()
            .ok_or(RepoError::NotFound)
    }
    async fn list(&self, page: Page, _sort: Option<Sort>, _filter: Option<Filter>) -> Result<$entity$List, RepoError> {
        let items = architect::lock(&self.rows).clone();
        let total = u32::try_from(items.len()).unwrap_or(u32::MAX);
        Ok($entity$List { items, total, page })
    }
    async fn create(&self, input: $entity$Create) -> Result<$entity$, RepoError> {
        let row = $entity$ { id: Uuid::new_v4(), name: input.name };
        architect::lock(&self.rows).push(row.clone());
        Ok(row)
    }
    async fn update(&self, id: Uuid, input: $entity$Update) -> Result<$entity$, RepoError> {
        let mut rows = architect::lock(&self.rows);
        let row = rows.iter_mut().find(|r| r.id == id).ok_or(RepoError::NotFound)?;
        if let Some(name) = input.name {
            row.name = name;
        }
        Ok(row.clone())
    }
    async fn delete(&self, id: Uuid) -> Result<(), RepoError> {
        let mut rows = architect::lock(&self.rows);
        let before = rows.len();
        rows.retain(|r| r.id != id);
        if rows.len() == before {
            return Err(RepoError::NotFound);
        }
        Ok(())
    }
}

impl architect::Services for Memory {
    fn layers() -> impl architect::Layer<Self> {
        architect::layers![$service$Service, $entity$RepoLayer]
    }
}

#[cfg(test)]
mod tests {
    use super::*;
    use architect::{LocalServer, Scope, Services as _};

    /// The scenario is generic over the trait: the in-process backend and
    /// the vox client both satisfy it.
    async fn finds_what_it_created(s: &(impl $service$ + $entity$Repo)) {
        let made = s.create($entity$Create { name: "one".into() }).await.unwrap();
        assert_eq!(s.find("one".into()).await.unwrap().id, made.id);
        assert_eq!(s.find("two".into()).await.unwrap_err(), $pascal$Error::NotFound);
    }

    #[tokio::test]
    async fn in_process() {
        finds_what_it_created(&Memory::default()).await;
    }

    #[tokio::test]
    async fn over_vox() {
        let scope = Scope::new();
        let local = LocalServer::serve(Memory::default().into_router(), scope.clone());
        // Two typed clients over one backend; each implements its trait.
        let service: $service$Client = local.establish().await.unwrap();
        let repo: $entity$RepoClient = local.establish().await.unwrap();
        let made = repo.create($entity$Create { name: "one".into() }).await.unwrap();
        assert_eq!(service.find("one".into()).await.unwrap().id, made.id);
        scope.close().await;
    }
}
"#;

/// What the templates are filled with.
#[derive(Clone, Debug, PartialEq, Eq)]
pub struct Names {
    pub name: String,
    pub snake: String,
    pub pascal: String,
    pub service: String,
}

/// The names, in the mathematical model.
pub struct NamesModel {
    pub name: Seq<char>,
    pub snake: Seq<char>,
    pub pascal: Seq<char>,
    pub service: Seq<char>,
}

impl Names {
    pub open spec fn model(self) -> NamesModel {
        NamesModel {
            name: self.name@,
            snake: self.snake@,
            pascal: self.pascal@,
            service: self.service@,
        }
    }
}

/// What a marker between dollar signs stands for.
pub open spec fn meaning(marker: Seq<char>, names: NamesModel) -> Option<Seq<char>> {
    if marker == "name"@ {
        Some(names.name)
    } else if marker == "snake"@ || marker == "entity_snake"@ {
        Some(names.snake)
    } else if marker == "pascal"@ || marker == "entity"@ {
        Some(names.pascal)
    } else if marker == "service"@ {
        Some(names.service)
    } else {
        None
    }
}

/// The pieces of a template from piece `from` on, every other one a marker. A
/// marker without a meaning stands for nothing.
pub open spec fn filled_from(pieces: Seq<Seq<char>>, names: NamesModel, from: int) -> Seq<char>
    decreases pieces.len() - from,
{
    if from >= pieces.len() {
        Seq::empty()
    } else {
        (if from % 2 == 0 {
            pieces[from]
        } else {
            match meaning(pieces[from], names) {
                Some(m) => m,
                None => Seq::empty(),
            }
        }) + filled_from(pieces, names, from + 1)
    }
}

/// A template with its markers replaced.
pub open spec fn filled(template: Seq<char>, names: NamesModel) -> Seq<char> {
    filled_from(crate::text::pieces(template, '$'), names, 0)
}

fn mean(marker: &str, names: &Names) -> (res: Option<String>)
    ensures
        crate::text::opt_view(res) == meaning(marker@, names.model()),
{
    if same(marker, "name") {
        Some(copy(&names.name))
    } else if same(marker, "snake") || same(marker, "entity_snake") {
        Some(copy(&names.snake))
    } else if same(marker, "pascal") || same(marker, "entity") {
        Some(copy(&names.pascal))
    } else if same(marker, "service") {
        Some(copy(&names.service))
    } else {
        None
    }
}

fn fill(template: &str, names: &Names) -> (res: String)
    ensures
        res@ == filled(template@, names.model()),
{
    let parts: Vec<String> = split(template, '$');
    let ghost all = crate::text::pieces(template@, '$');
    let mut out: String = String::new();
    let mut i: usize = 0;
    let mut odd: bool = false;
    assert(out@ + filled_from(all, names.model(), 0) =~= filled(template@, names.model()));
    while i < parts.len()
        invariant
            i <= parts@.len(),
            odd == (i % 2 == 1),
            all == crate::text::pieces(template@, '$'),
            crate::text::views(parts@) == all,
            out@ + filled_from(all, names.model(), i as int) == filled(template@, names.model()),
        decreases parts@.len() - i,
    {
        assert(all[i as int] == parts@[i as int]@);
        let ghost before = out@;
        let ghost rest = filled_from(all, names.model(), i + 1);
        if !odd {
            out.append(parts[i].as_str());
            assert(before + (parts@[i as int]@ + rest) =~= out@ + rest);
        } else {
            match mean(parts[i].as_str(), names) {
                Some(m) => {
                    out.append(m.as_str());
                    assert(before + (m@ + rest) =~= out@ + rest);
                },
                None => {
                    assert(before + (Seq::<char>::empty() + rest) =~= out@ + rest);
                },
            }
        }
        odd = !odd;
        i = i + 1;
    }
    assert(out@ + Seq::<char>::empty() =~= out@);
    out
}

// ---------------------------------------------------------------------------
// Names
// ---------------------------------------------------------------------------

pub open spec fn in_a_name(c: char) -> bool {
    crate::text::ascii_lower(c) || crate::text::ascii_digit(c) || c == '-'
}

/// Whether a name is a lower-case kebab-case crate name.
pub open spec fn acceptable(name: Seq<char>) -> bool {
    &&& name.len() > 0
    &&& crate::text::ascii_lower(name[0])
    &&& forall|i: int| 0 <= i < name.len() ==> in_a_name(#[trigger] name[i])
}

pub fn is_acceptable(name: &str) -> (res: bool)
    ensures
        res == acceptable(name@),
{
    let cs: Vec<char> = chars_of(name);
    if cs.len() == 0 || !is_ascii_lower(cs[0]) {
        return false;
    }
    let mut i: usize = 0;
    while i < cs.len()
        invariant
            i <= cs@.len(),
            cs@ == name@,
            forall|j: int| 0 <= j < i ==> in_a_name(#[trigger] name@[j]),
        decreases cs@.len() - i,
    {
        if !(is_ascii_lower(cs[i]) || is_ascii_digit(cs[i]) || cs[i] == '-') {
            return false;
        }
        i = i + 1;
    }
    true
}

/// `name` with underscores for hyphens.
pub open spec fn snake_case(name: Seq<char>) -> Seq<char> {
    Seq::new(
        name.len(),
        |i: int|
            if name[i] == '-' {
                '_'
            } else {
                name[i]
            },
    )
}

fn to_snake(name: &str) -> (out: String)
    ensures
        out@ == snake_case(name@),
{
    let cs: Vec<char> = chars_of(name);
    let mut out: String = String::new();
    let mut i: usize = 0;
    while i < cs.len()
        invariant
            i <= cs@.len(),
            cs@ == name@,
            out@ == snake_case(name@).take(i as int),
        decreases cs@.len() - i,
    {
        if cs[i] == '-' {
            out.push('_');
        } else {
            out.push(cs[i]);
        }
        i = i + 1;
        assert(out@ =~= snake_case(name@).take(i as int));
    }
    assert(out@ =~= snake_case(name@));
    out
}

/// A word with its first letter raised.
pub open spec fn capitalised(word: Seq<char>) -> Seq<char> {
    if word.len() == 0 {
        word
    } else {
        word.update(0, crate::text::raised(word[0]))
    }
}

/// The first `n` words, each capitalised, in a row.
pub open spec fn run_together(words: Seq<Seq<char>>, n: nat) -> Seq<char>
    decreases n,
{
    if n == 0 {
        Seq::empty()
    } else {
        run_together(words, (n - 1) as nat) + capitalised(words[n - 1])
    }
}

/// The words between underscores, each capitalised, in a row.
pub open spec fn pascal_case(snake: Seq<char>) -> Seq<char> {
    let words = crate::text::pieces(snake, '_');
    run_together(words, words.len())
}

pub fn to_pascal(snake: &str) -> (out: String)
    ensures
        out@ == pascal_case(snake@),
{
    let words: Vec<String> = split(snake, '_');
    let ghost all = crate::text::pieces(snake@, '_');
    let mut out: String = String::new();
    let mut i: usize = 0;
    while i < words.len()
        invariant
            i <= words@.len(),
            crate::text::views(words@) == all,
            out@ == run_together(all, i as nat),
        decreases words@.len() - i,
    {
        assert(all[i as int] == words@[i as int]@);
        let cs: Vec<char> = chars_of(words[i].as_str());
        let ghost before = out@;
        let mut j: usize = 0;
        while j < cs.len()
            invariant
                j <= cs@.len(),
                out@ == before + capitalised(cs@).take(j as int),
            decreases cs@.len() - j,
        {
            if j == 0 {
                out.push(to_ascii_upper(cs[j]));
            } else {
                out.push(cs[j]);
            }
            j = j + 1;
            assert(out@ =~= before + capitalised(cs@).take(j as int));
        }
        assert(capitalised(cs@).take(j as int) =~= capitalised(cs@));
        i = i + 1;
    }
    out
}

/// What Rust's `Debug` writes for a text: quoted, with escapes.
pub uninterp spec fn quoted(s: Seq<char>) -> Seq<char>;

/// `Debug` for `str`: the text in quotes, with escapes, left to the name.
#[verifier::external_body]
fn quote(s: &str) -> (res: String)
    ensures
        res@ == quoted(s@),
{
    format!("{s:?}")
}

// ---------------------------------------------------------------------------
// The crates
// ---------------------------------------------------------------------------

/// A file to be written, by its path below the feature's directory.
#[derive(Clone, Debug, PartialEq, Eq)]
pub struct NewFile {
    pub path: String,
    pub contents: String,
}

/// The names that follow from a feature's name.
pub open spec fn names_of(name: Seq<char>) -> NamesModel {
    let snake = snake_case(name);
    let pascal = pascal_case(snake);
    NamesModel { name, snake, pascal, service: pascal + "Service"@ }
}

/// Whether `f` is the file at `path` made from a template.
pub open spec fn made_from(
    f: NewFile,
    path: Seq<char>,
    template: Seq<char>,
    names: NamesModel,
) -> bool {
    f.path@ == path && f.contents@ == filled(template, names)
}

/// The four files of a new feature, in the order they are written.
pub open spec fn feature_files(name: Seq<char>, files: Seq<NewFile>) -> bool {
    let names = names_of(name);
    &&& files.len() == 4
    &&& made_from(files[0], name + "-proto/Cargo.toml"@, PROTO_MANIFEST@, names)
    &&& made_from(files[1], name + "-proto/src/lib.rs"@, PROTO_SOURCE@, names)
    &&& made_from(files[2], name + "-memory/Cargo.toml"@, MEMORY_MANIFEST@, names)
    &&& made_from(files[3], name + "-memory/src/lib.rs"@, MEMORY_SOURCE@, names)
}

/// The files of a new feature. A name that is no crate name is refused, and so
/// is one whose directory, named `root`, is already there: it is taken, and not
/// to be written over.
pub fn feature_new(name: &str, root: &str, root_exists: bool) -> (res: Result<Vec<NewFile>, String>)
    ensures
        if !acceptable(name@) {
            res matches Err(e) && e@
                == "feature names are lowercase kebab-case crate names (`inventory`, `tour-dates`), got "@
                + quoted(name@)
        } else if root_exists {
            res matches Err(e) && e@ == root@ + " already exists"@
        } else {
            res matches Ok(files) && feature_files(name@, files@)
        },
{
    if !is_acceptable(name) {
        return Err(
            cat(
                "feature names are lowercase kebab-case crate names (`inventory`, `tour-dates`), got ",
                quote(name).as_str(),
            ),
        );
    }
    if root_exists {
        return Err(cat(root, " already exists"));
    }
    let snake: String = to_snake(name);
    let pascal: String = to_pascal(snake.as_str());
    let service: String = cat(pascal.as_str(), "Service");
    let names: Names = Names { name: name.to_owned(), snake, pascal, service };
    let mut files: Vec<NewFile> = Vec::new();
    files.push(
        NewFile { path: cat(name, "-proto/Cargo.toml"), contents: fill(PROTO_MANIFEST, &names) },
    );
    files.push(
        NewFile { path: cat(name, "-proto/src/lib.rs"), contents: fill(PROTO_SOURCE, &names) },
    );
    files.push(
        NewFile { path: cat(name, "-memory/Cargo.toml"), contents: fill(MEMORY_MANIFEST, &names) },
    );
    files.push(
        NewFile { path: cat(name, "-memory/src/lib.rs"), contents: fill(MEMORY_SOURCE, &names) },
    );
    Ok(files)
}

// ---------------------------------------------------------------------------
// Laws
// ---------------------------------------------------------------------------

proof fn lemma_filled_front(a: Seq<Seq<char>>, b: Seq<Seq<char>>, names: NamesModel, from: int)
    requires
        0 <= from <= a.len(),
    ensures
        filled_from(a + b, names, from) == filled_from(a, names, from) + filled_from(
            a + b,
            names,
            a.len() as int,
        ),
    decreases a.len() - from,
{
    let rest = filled_from(a + b, names, a.len() as int);
    if from < a.len() {
        lemma_filled_front(a, b, names, from + 1);
        assert((a + b)[from] == a[from]);
        let first = if from % 2 == 0 {
            a[from]
        } else {
            match meaning(a[from], names) {
                Some(m) => m,
                None => Seq::empty(),
            }
        };
        assert(first + (filled_from(a, names, from + 1) + rest) =~= first + filled_from(
            a,
            names,
            from + 1,
        ) + rest);
    } else {
        assert(Seq::<char>::empty() + rest =~= rest);
    }
}

proof fn lemma_filled_back(a: Seq<Seq<char>>, b: Seq<Seq<char>>, names: NamesModel, from: int)
    requires
        a.len() % 2 == 0,
        0 <= from <= b.len(),
    ensures
        filled_from(a + b, names, a.len() + from) == filled_from(b, names, from),
    decreases b.len() - from,
{
    if from < b.len() {
        lemma_filled_back(a, b, names, from + 1);
        assert((a + b)[a.len() + from] == b[from]);
    }
}

/// Whether a text has every dollar sign paired, so that what follows it is no
/// marker.
pub open spec fn paired(text: Seq<char>) -> bool {
    crate::text::pieces(text, '$').len() % 2 == 1
}

proof fn lemma_marker(before: Seq<char>, marker: Seq<char>, after: Seq<char>, names: NamesModel)
    requires
        paired(before),
        crate::text::free_of(marker, '$'),
    ensures
        filled(before + seq!['$'] + marker + seq!['$'] + after, names) == filled(before, names) + (
        match meaning(marker, names) {
            Some(m) => m,
            None => Seq::empty(),
        }) + filled(after, names),
{
    let text = before + seq!['$'] + marker + seq!['$'] + after;
    let head = crate::text::pieces(before, '$');
    let tail = crate::text::pieces(after, '$');
    crate::text::law_parts_add_up(before + seq!['$'] + marker, after, '$');
    crate::text::law_parts_add_up(before, marker, '$');
    crate::text::lemma_pieces_of_free(marker, '$');
    let front = head + seq![marker];
    let parts = crate::text::pieces(text, '$');
    assert(parts == front + tail);
    let told = match meaning(marker, names) {
        Some(m) => m,
        None => Seq::<char>::empty(),
    };
    lemma_filled_front(front, tail, names, 0);
    lemma_filled_back(front, tail, names, 0);
    lemma_filled_front(head, seq![marker], names, 0);
    let n = head.len() as int;
    assert(front[n] == marker);
    assert(filled_from(front, names, n + 1) =~= Seq::<char>::empty());
    assert(filled_from(front, names, n) =~= told);
}

/// A text without a dollar sign stands in a filled template as it is.
pub proof fn law_plain_text_is_kept(text: Seq<char>, name: Seq<char>)
    requires
        crate::text::free_of(text, '$'),
    ensures
        paired(text),
        filled(text, names_of(name)) == text,
{
    crate::text::lemma_pieces_of_free(text, '$');
    reveal_with_fuel(filled_from, 3);
    assert(text + Seq::<char>::empty() =~= text);
}

/// Whether `snake` is a name with an underscore for each hyphen, and the name
/// otherwise.
pub open spec fn is_snake_of(snake: Seq<char>, name: Seq<char>) -> bool {
    &&& snake.len() == name.len()
    &&& crate::text::free_of(snake, '-')
    &&& forall|i: int|
        0 <= i < name.len() ==> #[trigger] snake[i] == name[i] || name[i] == '-' && snake[i] == '_'
}

/// What a template becomes at each of its markers, whatever stands before and after:
/// the name stands for `$name$`, the name with underscores for hyphens for `$snake$`
/// and `$entity_snake$`, its words run together for `$pascal$` and `$entity$`, and
/// those with `Service` behind them for `$service$`. Any other marker is dropped.
pub proof fn law_a_marker_is_filled(
    before: Seq<char>,
    marker: Seq<char>,
    after: Seq<char>,
    name: Seq<char>,
)
    requires
        paired(before),
        crate::text::free_of(marker, '$'),
    ensures
        ({
            let names = names_of(name);
            let text = filled(before + seq!['$'] + marker + seq!['$'] + after, names);
            let head = filled(before, names);
            let tail = filled(after, names);
            let stood = text.subrange(head.len() as int, text.len() - tail.len());
            &&& text.len() >= head.len() + tail.len()
            &&& text == head + stood + tail
            &&& marker == "name"@ ==> stood == name
            &&& marker == "snake"@ || marker == "entity_snake"@ ==> is_snake_of(stood, name)
            &&& marker == "pascal"@ || marker == "entity"@ ==> forall|snake: Seq<char>| #[trigger]
                is_snake_of(snake, name) ==> stood == pascal_case(snake)
            &&& marker == "service"@ ==> forall|snake: Seq<char>| #[trigger]
                is_snake_of(snake, name) ==> stood == pascal_case(snake) + "Service"@
            &&& (marker != "name"@ && marker != "snake"@ && marker != "entity_snake"@ && marker
                != "pascal"@ && marker != "entity"@ && marker != "service"@) ==> stood.len() == 0
        }),
{
    let names = names_of(name);
    let text = filled(before + seq!['$'] + marker + seq!['$'] + after, names);
    let head = filled(before, names);
    let tail = filled(after, names);
    lemma_marker(before, marker, after, names);
    let told = match meaning(marker, names) {
        Some(m) => m,
        None => Seq::<char>::empty(),
    };
    let stood = text.subrange(head.len() as int, text.len() - tail.len());
    assert(stood =~= told);
    assert(text =~= head + stood + tail);
    assert forall|snake: Seq<char>| #[trigger] is_snake_of(snake, name) implies snake
        == snake_case(name) by {
        assert forall|i: int| 0 <= i < name.len() implies snake[i] == snake_case(name)[i] by {
            assert(snake[i] == name[i] || name[i] == '-' && snake[i] == '_');
        }
        assert(snake =~= snake_case(name));
    }
    assert(is_snake_of(snake_case(name), name));
    reveal_strlit("name");
    reveal_strlit("snake");
    reveal_strlit("entity_snake");
    reveal_strlit("pascal");
    reveal_strlit("entity");
    reveal_strlit("service");
    assert("name"@.len() == 4 && "snake"@.len() == 5 && "entity_snake"@.len() == 12 && "pascal"@.len()
        == 6 && "entity"@.len() == 6 && "service"@.len() == 7);
    assert("pascal"@[0] == 'p' && "entity"@[0] == 'e');
}

/// A template that brings in the contract crate brings it in under the name with
/// underscores for hyphens, which is a Rust name.
pub proof fn law_the_contract_crate_is_brought_in_by_its_rust_name(
    before: Seq<char>,
    after: Seq<char>,
    name: Seq<char>,
    snake: Seq<char>,
)
    requires
        paired(before),
        is_snake_of(snake, name),
    ensures
        crate::text::holds(
            filled(before + "use $snake$_proto::*;"@ + after, names_of(name)),
            "use "@ + snake + "_proto::*;"@,
        ),
{
    reveal_strlit("use $snake$_proto::*;");
    reveal_strlit("use ");
    reveal_strlit("snake");
    reveal_strlit("_proto::*;");
    let names = names_of(name);
    let opening = before + "use "@;
    let closing = "_proto::*;"@ + after;
    let template = before + "use $snake$_proto::*;"@ + after;
    assert(template =~= opening + seq!['$'] + "snake"@ + seq!['$'] + closing);
    lemma_plain_behind(before, "use "@, names);
    lemma_plain_before("_proto::*;"@, after, names);
    lemma_marker(opening, "snake"@, closing, names);
    law_a_marker_is_filled(opening, "snake"@, closing, name);
    assert(snake =~= snake_case(name)) by {
        assert forall|i: int| 0 <= i < name.len() implies snake[i] == snake_case(name)[i] by {
            assert(snake[i] == name[i] || name[i] == '-' && snake[i] == '_');
        }
    }
    let text = filled(template, names);
    let head = filled(before, names);
    let wanted = "use "@ + snake + "_proto::*;"@;
    assert(text =~= head + wanted + filled(after, names));
    assert(text.subrange(head.len() as int, head.len() as int + wanted.len()) =~= wanted);
    assert(crate::text::stands_at(text, wanted, head.len() as int));
}

proof fn lemma_plain_behind(before: Seq<char>, text: Seq<char>, names: NamesModel)
    requires
        paired(before),
        crate::text::free_of(text, '$'),
    ensures
        paired(before + text),
        filled(before + text, names) == filled(before, names) + text,
    decreases text.len(),
{
    if text.len() == 0 {
        assert(before + text =~= before);
        assert(filled(before, names) + text =~= filled(before, names));
    } else {
        let front = text.drop_last();
        lemma_plain_behind(before, front, names);
        let all = before + text;
        assert(all.drop_last() =~= before + front);
        assert(all.last() == text.last());
        let was = crate::text::pieces(before + front, '$');
        let now = crate::text::pieces(all, '$');
        crate::text::lemma_pieces_nonempty(before + front, '$');
        let rest = was.drop_last();
        assert(rest + seq![was.last()] =~= was);
        assert(rest + seq![now.last()] =~= now);
        lemma_filled_front(rest, seq![was.last()], names, 0);
        lemma_filled_front(rest, seq![now.last()], names, 0);
        lemma_filled_back(rest, seq![was.last()], names, 0);
        lemma_filled_back(rest, seq![now.last()], names, 0);
        reveal_with_fuel(filled_from, 3);
        assert(seq![was.last()][0] == was.last() && seq![now.last()][0] == now.last());
        assert(filled_from(seq![was.last()], names, 0) =~= was.last());
        assert(filled_from(seq![now.last()], names, 0) =~= now.last());
        let f = filled_from(rest, names, 0);
        assert(filled(before + front, names) == f + was.last());
        assert(filled(all, names) == f + now.last());
        assert(now.last() == was.last().push(text.last()));
        assert(f + now.last() =~= (f + was.last()).push(text.last()));
        assert((filled(before, names) + front).push(text.last()) =~= filled(before, names) + text);
    }
}

proof fn lemma_plain_before(text: Seq<char>, after: Seq<char>, names: NamesModel)
    requires
        crate::text::free_of(text, '$'),
    ensures
        filled(text + after, names) == text + filled(after, names),
    decreases after.len(),
{
    let parts = crate::text::pieces(after, '$');
    let all = crate::text::pieces(text + after, '$');
    crate::text::lemma_pieces_nonempty(after, '$');
    lemma_first_piece(text, after);
    let rest = parts.skip(1);
    assert(parts =~= seq![parts[0]] + rest);
    assert(all =~= seq![text + parts[0]] + rest);
    lemma_later_pieces(seq![parts[0]], seq![text + parts[0]], rest, names, 1);
    assert(text + parts[0] + filled_from(parts, names, 1) =~= text + (parts[0] + filled_from(
        parts,
        names,
        1,
    )));
}

proof fn lemma_first_piece(text: Seq<char>, after: Seq<char>)
    requires
        crate::text::free_of(text, '$'),
    ensures
        crate::text::pieces(text + after, '$').len() == crate::text::pieces(after, '$').len(),
        crate::text::pieces(text + after, '$')[0] == text + crate::text::pieces(after, '$')[0],
        crate::text::pieces(text + after, '$').skip(1) == crate::text::pieces(after, '$').skip(1),
    decreases after.len(),
{
    let all = text + after;
    if after.len() == 0 {
        assert(all =~= text);
        crate::text::lemma_pieces_of_free(text, '$');
        assert(text + Seq::<char>::empty() =~= text);
        assert(crate::text::pieces(all, '$').skip(1) =~= crate::text::pieces(after, '$').skip(1));
    } else {
        let front = after.drop_last();
        lemma_first_piece(text, front);
        crate::text::lemma_pieces_nonempty(front, '$');
        crate::text::lemma_pieces_nonempty(text + front, '$');
        assert(all.drop_last() =~= text + front);
        assert(all.last() == after.last());
        let was = crate::text::pieces(front, '$');
        let was_all = crate::text::pieces(text + front, '$');
        let now = crate::text::pieces(after, '$');
        let now_all = crate::text::pieces(all, '$');
        if was.len() > 1 {
            assert(was.skip(1).last() == was_all.skip(1).last());
            assert(was.last() == was_all.last());
        }
        assert forall|i: int| 1 <= i < was.len() implies was[i] == was_all[i] by {
            assert(was.skip(1)[i - 1] == was_all.skip(1)[i - 1]);
        }
        assert(now_all[0] =~= text + now[0]);
        assert(now_all.skip(1) =~= now.skip(1));
    }
}

proof fn lemma_later_pieces(
    a: Seq<Seq<char>>,
    b: Seq<Seq<char>>,
    rest: Seq<Seq<char>>,
    names: NamesModel,
    from: int,
)
    requires
        a.len() == 1,
        b.len() == 1,
        1 <= from <= rest.len() + 1,
    ensures
        filled_from(a + rest, names, from) == filled_from(b + rest, names, from),
    decreases rest.len() + 1 - from,
{
    if from < rest.len() + 1 {
        lemma_later_pieces(a, b, rest, names, from + 1);
        assert((a + rest)[from] == (b + rest)[from]);
    }
}

proof fn lemma_run_together(a: Seq<Seq<char>>, b: Seq<Seq<char>>, n: nat)
    requires
        n <= b.len(),
    ensures
        run_together(a + b, a.len() + n) == run_together(a, a.len()) + run_together(b, n),
    decreases n,
{
    if n > 0 {
        lemma_run_together(a, b, (n - 1) as nat);
        assert((a + b)[a.len() + n - 1] == b[n - 1]);
        assert(run_together(a + b, a.len() + n) =~= run_together(a, a.len()) + run_together(b, n));
    } else {
        lemma_run_of_front(a, b, a.len());
        assert(run_together(a, a.len()) + Seq::<char>::empty() =~= run_together(a, a.len()));
    }
}

proof fn lemma_run_of_front(a: Seq<Seq<char>>, b: Seq<Seq<char>>, n: nat)
    requires
        n <= a.len(),
    ensures
        run_together(a + b, n) == run_together(a, n),
    decreases n,
{
    if n > 0 {
        lemma_run_of_front(a, b, (n - 1) as nat);
        assert((a + b)[n - 1] == a[n - 1]);
    }
}

/// Words are run together one by one: an underscore joins what stands on its two
/// sides, and a single word keeps all but its first letter, which is raised.
pub proof fn law_words_are_run_together(a: Seq<char>, b: Seq<char>, word: Seq<char>)
    requires
        crate::text::free_of(word, '_'),
    ensures
        pascal_case(a + seq!['_'] + b) == pascal_case(a) + pascal_case(b),
        pascal_case(word).len() == word.len(),
        forall|i: int| 0 < i < word.len() ==> #[trigger] pascal_case(word)[i] == word[i],
        word.len() > 0 && 'a' <= word[0] <= 'z' ==> pascal_case(word)[0] as u32 == word[0] as u32
            - 32,
        word.len() > 0 && !('a' <= word[0] <= 'z') ==> pascal_case(word)[0] == word[0],
{
    crate::text::law_parts_add_up(a, b, '_');
    let left = crate::text::pieces(a, '_');
    let right = crate::text::pieces(b, '_');
    lemma_run_together(left, right, right.len());
    crate::text::lemma_pieces_of_free(word, '_');
    reveal_with_fuel(run_together, 2);
    assert(pascal_case(word) =~= capitalised(word));
    if word.len() > 0 {
        crate::text::lemma_char_range(word[0]);
    }
}

/// What is written for a feature: four files, of the contract crate and of the
/// in-memory one, each a manifest and a source, under directories that are named
/// after it; and each is a template in which nothing but the markers has changed.
pub proof fn law_a_feature_is_two_crates(name: Seq<char>, files: Seq<NewFile>)
    requires
        feature_files(name, files),
    ensures
        files.len() == 4,
        files[0].path@ == name + "-proto/Cargo.toml"@,
        files[1].path@ == name + "-proto/src/lib.rs"@,
        files[2].path@ == name + "-memory/Cargo.toml"@,
        files[3].path@ == name + "-memory/src/lib.rs"@,
        files[0].contents@ == filled(PROTO_MANIFEST@, names_of(name)),
        files[1].contents@ == filled(PROTO_SOURCE@, names_of(name)),
        files[2].contents@ == filled(MEMORY_MANIFEST@, names_of(name)),
        files[3].contents@ == filled(MEMORY_SOURCE@, names_of(name)),
{
}

/// A name begins with a small letter and goes on with small letters, digits and hyphens.
pub proof fn law_a_name_begins_with_a_small_letter(name: Seq<char>, c: char)
    ensures
        !acceptable(Seq::<char>::empty()),
        acceptable(seq![c]) <==> 'a' <= c <= 'z',
        name.len() > 0 ==> (acceptable(name.push(c)) <==> acceptable(name) && ('a' <= c <= 'z' || '0'
            <= c <= '9' || c == '-')),
{
    assert(seq![c][0] == c);
    if name.len() > 0 {
        let longer = name.push(c);
        assert(longer[0] == name[0]);
        assert(longer[name.len() as int] == c);
        if acceptable(longer) {
            assert forall|i: int| 0 <= i < name.len() implies in_a_name(#[trigger] name[i]) by {
                assert(longer[i] == name[i]);
            }
        }
    }
}

} // verus!
