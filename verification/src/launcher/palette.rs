//! The launcher as a state machine.
//!
//! A key, a click or a change of the query turns one state into the next and
//! asks for at most one thing to be done outside: closing the launcher, running
//! an action, or a change to the filter, the favourites, the ratings or the
//! presets, all of which live elsewhere. What is shown is worked out from the
//! state and the results.

use crate::launcher::item::{Action, ActionModifier, Item};
use crate::text::{cat, chars_of, copy, decimal_of, same, split};
use vstd::prelude::*;

verus! {

/// What the query searches.
#[derive(Clone, Copy, Debug, PartialEq, Eq, Structural)]
pub enum SearchMode {
    Items,
    Filters,
}

/// The state of the launcher.
#[derive(Clone, Debug, PartialEq, Eq)]
pub struct Palette {
    pub query: String,
    pub selected: usize,
    pub mode: SearchMode,
    /// How many presets have been saved so far.
    pub presets: u32,
    /// Whether the next Escape closes.
    pub escape_armed: bool,
}

/// The state, in the mathematical model.
pub struct State {
    pub query: Seq<char>,
    pub selected: int,
    pub mode: SearchMode,
    pub presets: int,
    pub escape_armed: bool,
}

impl Palette {
    pub open spec fn state(self) -> State {
        State {
            query: self.query@,
            selected: self.selected as int,
            mode: self.mode,
            presets: self.presets as int,
            escape_armed: self.escape_armed,
        }
    }

    /// The counters are far from their limits.
    pub open spec fn in_bounds(self) -> bool {
        self.selected <= usize::MAX - PAGE && self.presets < u32::MAX
    }
}

/// How far a page key moves.
pub const PAGE: usize = 10;

/// A key, as far as the launcher tells keys apart.
#[derive(Clone, Debug, PartialEq, Eq)]
pub enum Key {
    ArrowDown,
    ArrowUp,
    Tab,
    Enter,
    Escape,
    Home,
    End,
    PageDown,
    PageUp,
    Character(String),
    Other,
}

/// What the launcher looks at when a key comes: the results, whether the filter
/// is empty, and how the selected result is rated.
pub struct Surroundings<'a> {
    pub results: &'a Vec<Item>,
    pub filter_is_empty: bool,
    pub rating: u8,
}

/// What is to be done outside.
#[derive(Clone, Debug, PartialEq, Eq)]
pub enum Request {
    Nothing,
    Close,
    /// Run an action of the result at `index`; when it asks to close, close
    /// unless `keep_open`.
    Activate { index: usize, action: String, query: String, keep_open: bool },
    ToggleTag(String),
    ClearFilter,
    ToggleFavorite(String),
    SetRating { id: String, rating: u8 },
    SavePreset(String),
}

/// What is to be done outside, in the mathematical model.
pub enum Ask {
    Nothing,
    Close,
    Activate { index: int, action: Seq<char>, query: Seq<char>, keep_open: bool },
    ToggleTag(Seq<char>),
    ClearFilter,
    ToggleFavorite(Seq<char>),
    SetRating { id: Seq<char>, rating: u8 },
    SavePreset(Seq<char>),
}

impl Request {
    pub open spec fn ask(self) -> Ask {
        match self {
            Request::Nothing => Ask::Nothing,
            Request::Close => Ask::Close,
            Request::Activate { index, action, query, keep_open } => Ask::Activate {
                index: index as int,
                action: action@,
                query: query@,
                keep_open,
            },
            Request::ToggleTag(path) => Ask::ToggleTag(path@),
            Request::ClearFilter => Ask::ClearFilter,
            Request::ToggleFavorite(id) => Ask::ToggleFavorite(id@),
            Request::SetRating { id, rating } => Ask::SetRating { id: id@, rating },
            Request::SavePreset(name) => Ask::SavePreset(name@),
        }
    }
}

/// What a key leads to.
#[derive(Clone, Debug, PartialEq, Eq)]
pub struct Step {
    pub next: Palette,
    pub request: Request,
    /// Whether the key is used up here.
    pub prevent_default: bool,
}

/// What a key leads to, in the mathematical model.
pub struct Outcome {
    pub next: State,
    pub ask: Ask,
    pub used: bool,
}

impl Step {
    pub open spec fn outcome(self) -> Outcome {
        Outcome { next: self.next.state(), ask: self.request.ask(), used: self.prevent_default }
    }
}

// ---------------------------------------------------------------------------
// Results and actions
// ---------------------------------------------------------------------------

/// The action that stands for all others.
pub open spec fn default_action() -> Seq<char> {
    "activate"@
}

/// The first action for the modifiers among those from `from` on.
pub open spec fn action_for(actions: Seq<Action>, modifier: ActionModifier, from: int) -> Option<
    Action,
>
    decreases actions.len() - from,
{
    if from >= actions.len() {
        None
    } else if actions[from].modifier == modifier {
        Some(actions[from])
    } else {
        action_for(actions, modifier, from + 1)
    }
}

/// The name of the first action, or the default.
pub open spec fn first_action(actions: Seq<Action>) -> Seq<char> {
    if actions.len() > 0 {
        actions[0].name@
    } else {
        default_action()
    }
}

/// The name of the action that Enter runs.
pub open spec fn entered_action(actions: Seq<Action>, modifier: ActionModifier) -> Seq<char> {
    match action_for(actions, modifier, 0) {
        Some(a) => a.name@,
        None => first_action(actions),
    }
}

/// Whether the launcher stays open after Enter.
pub open spec fn stays_open(actions: Seq<Action>, modifier: ActionModifier) -> bool {
    match action_for(actions, modifier, 0) {
        Some(a) => a.keep_open,
        None => false,
    }
}

fn first_action_of(actions: &Vec<Action>) -> (res: String)
    ensures
        res@ == first_action(actions@),
{
    if actions.len() > 0 {
        copy(&actions[0].name)
    } else {
        "activate".to_owned()
    }
}

fn find_action(actions: &Vec<Action>, modifier: ActionModifier) -> (res: Option<usize>)
    ensures
        match res {
            Some(i) => i < actions@.len() && action_for(actions@, modifier, 0) == Some(
                actions@[i as int],
            ),
            None => action_for(actions@, modifier, 0) is None,
        },
{
    let mut i: usize = 0;
    while i < actions.len()
        invariant
            i <= actions@.len(),
            action_for(actions@, modifier, 0) == action_for(actions@, modifier, i as int),
        decreases actions@.len() - i,
    {
        if actions[i].modifier == modifier {
            return Some(i);
        }
        i = i + 1;
    }
    None
}

/// Picking the tag of a result as a filter: the search starts over.
pub open spec fn tag_picked(s: State, path: Seq<char>, used: bool) -> Outcome {
    Outcome {
        next: State { query: Seq::empty(), selected: 0, mode: SearchMode::Items, ..s },
        ask: Ask::ToggleTag(path),
        used,
    }
}

/// What a click on result `index` leads to: in tag search its first tag becomes
/// a filter, otherwise its first action runs.
pub open spec fn clicked(s: State, results: Seq<Item>, index: int) -> Outcome {
    if !(0 <= index < results.len()) {
        Outcome { next: s, ask: Ask::Nothing, used: false }
    } else if s.mode == SearchMode::Filters && results[index].tags@.len() > 0 {
        tag_picked(s, results[index].tags@[0]@, false)
    } else {
        Outcome {
            next: s,
            ask: Ask::Activate {
                index,
                action: first_action(results[index].actions@),
                query: s.query,
                keep_open: false,
            },
            used: false,
        }
    }
}

/// What Enter leads to.
pub open spec fn entered(s: State, results: Seq<Item>, modifier: ActionModifier) -> Outcome {
    if !(0 <= s.selected < results.len()) {
        Outcome { next: s, ask: Ask::Nothing, used: true }
    } else {
        let item = results[s.selected];
        if s.mode == SearchMode::Filters && item.tags@.len() > 0 {
            tag_picked(s, item.tags@[0]@, true)
        } else {
            Outcome {
                next: s,
                ask: Ask::Activate {
                    index: s.selected,
                    action: entered_action(item.actions@, modifier),
                    query: s.query,
                    keep_open: stays_open(item.actions@, modifier),
                },
                used: true,
            }
        }
    }
}

// ---------------------------------------------------------------------------
// Keys
// ---------------------------------------------------------------------------

/// What Escape leads to: it undoes one thing at a time, the query, then tag
/// search, then the filter, and closes when there is nothing left to undo or
/// when it is pressed twice in a row.
pub open spec fn escaped(s: State, filter_is_empty: bool) -> Outcome {
    if s.escape_armed {
        Outcome { next: s, ask: Ask::Close, used: true }
    } else if s.query.len() > 0 {
        Outcome {
            next: State { query: Seq::empty(), selected: 0, escape_armed: true, ..s },
            ask: Ask::Nothing,
            used: true,
        }
    } else if s.mode == SearchMode::Filters {
        Outcome {
            next: State { mode: SearchMode::Items, escape_armed: true, ..s },
            ask: Ask::Nothing,
            used: true,
        }
    } else if !filter_is_empty {
        Outcome {
            next: State { selected: 0, escape_armed: true, ..s },
            ask: Ask::ClearFilter,
            used: true,
        }
    } else {
        Outcome { next: s, ask: Ask::Close, used: true }
    }
}

/// The number a one-digit text stands for.
pub open spec fn digit_of(c: Seq<char>) -> Option<int> {
    if c.len() == 1 && crate::text::ascii_digit(c[0]) {
        Some(c[0] as int - 48)
    } else {
        None
    }
}

/// What a character key leads to.
pub open spec fn typed(
    s: State,
    results: Seq<Item>,
    filter_is_empty: bool,
    rating: u8,
    c: Seq<char>,
    ctrl: bool,
    shift: bool,
) -> Outcome {
    let unused = Outcome { next: s, ask: Ask::Nothing, used: false };
    let there = 0 <= s.selected < results.len();
    if c == ":"@ {
        Outcome { next: s, ask: Ask::Close, used: true }
    } else if !ctrl {
        unused
    } else if c == "f"@ {
        Outcome {
            next: s,
            ask: if there {
                Ask::ToggleFavorite(results[s.selected].id@)
            } else {
                Ask::Nothing
            },
            used: true,
        }
    } else if c == "l"@ {
        Outcome { next: State { selected: 0, ..s }, ask: Ask::ClearFilter, used: true }
    } else if !shift && c == "s"@ {
        if filter_is_empty {
            Outcome { next: s, ask: Ask::Nothing, used: true }
        } else {
            Outcome {
                next: State { presets: s.presets + 1, ..s },
                ask: Ask::SavePreset(
                    "Preset "@ + crate::text::decimal((s.presets + 1) as nat),
                ),
                used: true,
            }
        }
    } else if shift {
        match digit_of(c) {
            Some(d) => if 1 <= d <= 5 {
                Outcome {
                    next: s,
                    ask: if there {
                        Ask::SetRating {
                            id: results[s.selected].id@,
                            rating: if rating == d {
                                0
                            } else {
                                d as u8
                            },
                        }
                    } else {
                        Ask::Nothing
                    },
                    used: true,
                }
            } else {
                unused
            },
            None => unused,
        }
    } else {
        match digit_of(c) {
            Some(d) => if 1 <= d && d - 1 < results.len() {
                Outcome {
                    next: s,
                    ask: Ask::Activate {
                        index: d - 1,
                        action: default_action(),
                        query: s.query,
                        keep_open: false,
                    },
                    used: false,
                }
            } else {
                unused
            },
            None => unused,
        }
    }
}

/// The state with another result selected.
pub open spec fn selecting(s: State, selected: int) -> Outcome {
    Outcome { next: State { selected, ..s }, ask: Ask::Nothing, used: true }
}

pub open spec fn smaller(a: int, b: int) -> int {
    if a <= b {
        a
    } else {
        b
    }
}

/// What a key leads to. Any key but Escape disarms Escape; Ctrl and space
/// close at once.
pub open spec fn pressed(
    from: State,
    results: Seq<Item>,
    filter_is_empty: bool,
    rating: u8,
    key: Key,
    held: ActionModifier,
) -> Outcome {
    let s = if key is Escape {
        from
    } else {
        State { escape_armed: false, ..from }
    };
    let len = results.len() as int;
    match key {
        Key::ArrowDown => selecting(
            s,
            if len > 0 {
                (s.selected + 1) % len
            } else {
                s.selected
            },
        ),
        Key::ArrowUp => selecting(
            s,
            if len == 0 {
                s.selected
            } else if s.selected == 0 {
                len - 1
            } else {
                s.selected - 1
            },
        ),
        Key::Tab => Outcome {
            next: State {
                mode: match s.mode {
                    SearchMode::Items => SearchMode::Filters,
                    SearchMode::Filters => SearchMode::Items,
                },
                selected: 0,
                ..s
            },
            ask: Ask::Nothing,
            used: true,
        },
        Key::Enter => entered(s, results, held),
        Key::Escape => escaped(s, filter_is_empty),
        Key::Home => selecting(s, 0),
        Key::End => selecting(
            s,
            if len > 0 {
                len - 1
            } else {
                s.selected
            },
        ),
        Key::PageDown => selecting(
            s,
            if len > 0 {
                smaller(s.selected + PAGE, len - 1)
            } else {
                s.selected
            },
        ),
        Key::PageUp => selecting(
            s,
            if s.selected >= PAGE {
                s.selected - PAGE
            } else {
                0
            },
        ),
        Key::Character(c) => if held.ctrl && c@ == " "@ {
            Outcome { next: s, ask: Ask::Close, used: true }
        } else {
            typed(s, results, filter_is_empty, rating, c@, held.ctrl, held.shift)
        },
        Key::Other => Outcome { next: s, ask: Ask::Nothing, used: false },
    }
}

impl Palette {
    /// The launcher as it opens.
    pub fn new() -> (res: Palette)
        ensures
            res.state() == (State {
                query: Seq::empty(),
                selected: 0,
                mode: SearchMode::Items,
                presets: 0,
                escape_armed: false,
            }),
            res.in_bounds(),
    {
        Palette {
            query: String::new(),
            selected: 0,
            mode: SearchMode::Items,
            presets: 0,
            escape_armed: false,
        }
    }

    fn step(self, request: Request, prevent_default: bool) -> (res: Step)
        ensures
            res.outcome() == (Outcome {
                next: self.state(),
                ask: request.ask(),
                used: prevent_default,
            }),
            res.next == self,
    {
        Step { next: self, request, prevent_default }
    }

    fn select(self, selected: usize) -> (res: Step)
        ensures
            res.outcome() == selecting(self.state(), selected as int),
    {
        Palette { selected, ..self }.step(Request::Nothing, true)
    }

    fn pick_tag(self, path: String, prevent_default: bool) -> (res: Step)
        ensures
            res.outcome() == tag_picked(self.state(), path@, prevent_default),
    {
        Palette {
            query: String::new(),
            selected: 0,
            mode: SearchMode::Items,
            presets: self.presets,
            escape_armed: self.escape_armed,
        }.step(Request::ToggleTag(path), prevent_default)
    }

    /// A click on a result.
    pub fn click(self, results: &Vec<Item>, index: usize) -> (res: Step)
        ensures
            res.outcome() == clicked(self.state(), results@, index as int),
    {
        if index >= results.len() {
            return self.step(Request::Nothing, false);
        }
        let item: &Item = &results[index];
        if self.mode == SearchMode::Filters && item.tags.len() > 0 {
            let path: String = copy(&item.tags[0]);
            return self.pick_tag(path, false);
        }
        let request: Request = Request::Activate {
            index,
            action: first_action_of(&item.actions),
            query: copy(&self.query),
            keep_open: false,
        };
        self.step(request, false)
    }

    fn enter(self, results: &Vec<Item>, held: ActionModifier) -> (res: Step)
        ensures
            res.outcome() == entered(self.state(), results@, held),
    {
        if self.selected >= results.len() {
            return self.step(Request::Nothing, true);
        }
        let item: &Item = &results[self.selected];
        if self.mode == SearchMode::Filters && item.tags.len() > 0 {
            let path: String = copy(&item.tags[0]);
            return self.pick_tag(path, true);
        }
        let (action, keep_open): (String, bool) = match find_action(&item.actions, held) {
            Some(i) => (copy(&item.actions[i].name), item.actions[i].keep_open),
            None => (first_action_of(&item.actions), false),
        };
        let request: Request = Request::Activate {
            index: self.selected,
            action,
            query: copy(&self.query),
            keep_open,
        };
        self.step(request, true)
    }

    fn escape(self, filter_is_empty: bool) -> (res: Step)
        ensures
            res.outcome() == escaped(self.state(), filter_is_empty),
    {
        if self.escape_armed {
            return self.step(Request::Close, true);
        }
        let has_query: bool = self.query.as_str().unicode_len() > 0;
        if has_query {
            return Palette {
                query: String::new(),
                selected: 0,
                mode: self.mode,
                presets: self.presets,
                escape_armed: true,
            }.step(Request::Nothing, true);
        }
        if self.mode == SearchMode::Filters {
            return Palette { mode: SearchMode::Items, escape_armed: true, ..self }.step(
                Request::Nothing,
                true,
            );
        }
        if !filter_is_empty {
            return Palette { selected: 0, escape_armed: true, ..self }.step(
                Request::ClearFilter,
                true,
            );
        }
        self.step(Request::Close, true)
    }

    fn type_character(
        self,
        around: &Surroundings,
        c: &str,
        ctrl: bool,
        shift: bool,
    ) -> (res: Step)
        requires
            self.in_bounds(),
        ensures
            res.outcome() == typed(
                self.state(),
                around.results@,
                around.filter_is_empty,
                around.rating,
                c@,
                ctrl,
                shift,
            ),
    {
        if same(c, ":") {
            return self.step(Request::Close, true);
        }
        if !ctrl {
            return self.step(Request::Nothing, false);
        }
        let there: bool = self.selected < around.results.len();
        if same(c, "f") {
            let request: Request = if there {
                Request::ToggleFavorite(copy(&around.results[self.selected].id))
            } else {
                Request::Nothing
            };
            return self.step(request, true);
        }
        if same(c, "l") {
            return Palette { selected: 0, ..self }.step(Request::ClearFilter, true);
        }
        if !shift && same(c, "s") {
            if around.filter_is_empty {
                return self.step(Request::Nothing, true);
            }
            let presets: u32 = self.presets + 1;
            let name: String = cat("Preset ", decimal_of(presets as u64).as_str());
            return Palette { presets, ..self }.step(Request::SavePreset(name), true);
        }
        let cs: Vec<char> = chars_of(c);
        if cs.len() != 1 || !crate::text::is_ascii_digit(cs[0]) {
            return self.step(Request::Nothing, false);
        }
        let d: u8 = cs[0] as u8 - 48;
        if shift {
            if d < 1 || d > 5 {
                return self.step(Request::Nothing, false);
            }
            let request: Request = if there {
                Request::SetRating {
                    id: copy(&around.results[self.selected].id),
                    rating: if around.rating == d {
                        0
                    } else {
                        d
                    },
                }
            } else {
                Request::Nothing
            };
            return self.step(request, true);
        }
        if d < 1 || (d - 1) as usize >= around.results.len() {
            return self.step(Request::Nothing, false);
        }
        let request: Request = Request::Activate {
            index: (d - 1) as usize,
            action: "activate".to_owned(),
            query: copy(&self.query),
            keep_open: false,
        };
        self.step(request, false)
    }

    /// A key press.
    pub fn press(self, around: &Surroundings, key: &Key, held: ActionModifier) -> (res: Step)
        requires
            self.in_bounds(),
        ensures
            res.outcome() == pressed(
                self.state(),
                around.results@,
                around.filter_is_empty,
                around.rating,
                *key,
                held,
            ),
    {
        let armed: bool = match key {
            Key::Escape => self.escape_armed,
            _ => false,
        };
        let now: Palette = Palette { escape_armed: armed, ..self };
        let selected: usize = now.selected;
        let len: usize = around.results.len();
        match key {
            Key::ArrowDown => now.select(
                if len > 0 {
                    (selected + 1) % len
                } else {
                    selected
                },
            ),
            Key::ArrowUp => now.select(
                if len == 0 {
                    selected
                } else if selected == 0 {
                    len - 1
                } else {
                    selected - 1
                },
            ),
            Key::Tab => {
                let mode: SearchMode = match now.mode {
                    SearchMode::Items => SearchMode::Filters,
                    SearchMode::Filters => SearchMode::Items,
                };
                Palette { mode, selected: 0, ..now }.step(Request::Nothing, true)
            },
            Key::Enter => now.enter(around.results, held),
            Key::Escape => now.escape(around.filter_is_empty),
            Key::Home => now.select(0),
            Key::End => now.select(
                if len > 0 {
                    len - 1
                } else {
                    selected
                },
            ),
            Key::PageDown => now.select(
                if len == 0 {
                    selected
                } else if selected + PAGE <= len - 1 {
                    selected + PAGE
                } else {
                    len - 1
                },
            ),
            Key::PageUp => now.select(
                if selected >= PAGE {
                    selected - PAGE
                } else {
                    0
                },
            ),
            Key::Character(c) => {
                let close: bool = held.ctrl && same(c.as_str(), " ");
                if close {
                    now.step(Request::Close, true)
                } else {
                    now.type_character(around, c.as_str(), held.ctrl, held.shift)
                }
            },
            Key::Other => now.step(Request::Nothing, false),
        }
    }

    /// The query was edited: the selection starts over, and Escape is disarmed.
    pub fn input(self, value: String) -> (res: Palette)
        ensures
            res.state() == (State {
                query: value@,
                selected: 0,
                escape_armed: false,
                ..self.state()
            }),
    {
        Palette {
            query: value,
            selected: 0,
            mode: self.mode,
            presets: self.presets,
            escape_armed: false,
        }
    }

    /// The filter was changed from outside the keys: the selection starts over.
    pub fn refiltered(self) -> (res: Palette)
        ensures
            res.state() == (State { selected: 0, ..self.state() }),
    {
        Palette { selected: 0, ..self }
    }

    /// Keep the selection on a result.
    pub fn clamped(self, results: usize) -> (res: Palette)
        ensures
            res.state() == held_within(self.state(), results as int),
    {
        let selected: usize = if results == 0 {
            0
        } else if self.selected >= results {
            results - 1
        } else {
            self.selected
        };
        Palette { selected, ..self }
    }
}

/// The state with the selection on one of `results` results, or at the start
/// where there are none.
pub open spec fn held_within(s: State, results: int) -> State {
    State {
        selected: if results == 0 {
            0
        } else if s.selected >= results {
            results - 1
        } else {
            s.selected
        },
        ..s
    }
}

/// Whether the launcher closes after an action asked for it.
pub fn closes_after(asked: bool, keep_open: bool) -> (res: bool)
    ensures
        res == (asked && !keep_open),
{
    asked && !keep_open
}

// ---------------------------------------------------------------------------
// What is shown
// ---------------------------------------------------------------------------

/// The last segment of a tag path.
pub open spec fn last_segment(path: Seq<char>) -> Seq<char> {
    crate::text::pieces(path, '/').last()
}

pub fn leaf(path: &str) -> (res: String)
    ensures
        res@ == last_segment(path@),
{
    let mut parts: Vec<String> = split(path, '/');
    let ghost all = parts@;
    match parts.pop() {
        Some(last) => {
            assert(crate::text::views(all).last() == last@);
            last
        },
        None => String::new(),
    }
}

/// One result as a row.
#[derive(Clone, Debug, PartialEq, Eq)]
pub struct DisplayRow {
    pub idx: usize,
    pub label: String,
    pub sub: String,
    pub provider: String,
    pub icon: String,
    pub tags: Vec<String>,
    pub is_favorite: bool,
    pub rating: u8,
    pub is_selected: bool,
}

/// How many tags a row shows.
pub const ROW_TAGS: usize = 3;

/// The letter that stands for an icon.
pub open spec fn icon_letter(icon: Seq<char>) -> Seq<char> {
    if icon.len() > 0 {
        seq![icon[0]]
    } else {
        seq!['#']
    }
}

/// The tags a row shows: the leaves of the first few.
pub open spec fn shown_tags(tags: Seq<String>) -> Seq<Seq<char>> {
    Seq::new(
        smaller(tags.len() as int, ROW_TAGS as int) as nat,
        |i: int| last_segment(tags[i]@),
    )
}

/// Whether a row shows the item at `idx`.
pub open spec fn shows(
    row: DisplayRow,
    item: Item,
    idx: int,
    selected: int,
    is_favorite: bool,
    rating: u8,
) -> bool {
    &&& row.idx == idx
    &&& row.label@ == item.label@
    &&& row.sub@ == item.sub@
    &&& row.provider@ == item.provider@
    &&& row.icon@ == icon_letter(item.icon@)
    &&& crate::text::views(row.tags@) == shown_tags(item.tags@)
    &&& row.is_favorite == is_favorite
    &&& row.rating == rating
    &&& row.is_selected == (idx == selected)
}

/// The row for one result, given what is known of it elsewhere.
pub fn display_row(
    item: &Item,
    idx: usize,
    selected: usize,
    is_favorite: bool,
    rating: u8,
) -> (row: DisplayRow)
    ensures
        shows(row, *item, idx as int, selected as int, is_favorite, rating),
{
    let cs: Vec<char> = chars_of(item.icon.as_str());
    let mut icon: String = String::new();
    if cs.len() > 0 {
        icon.push(cs[0]);
    } else {
        icon.push('#');
    }
    assert(icon@ =~= icon_letter(item.icon@));
    let mut tags: Vec<String> = Vec::new();
    let mut i: usize = 0;
    while i < item.tags.len() && i < ROW_TAGS
        invariant
            i <= item.tags@.len(),
            i <= ROW_TAGS,
            tags@.len() == i,
            forall|j: int| 0 <= j < i ==> (#[trigger] tags@[j])@ == last_segment(item.tags@[j]@),
        decreases ROW_TAGS - i,
    {
        tags.push(leaf(item.tags[i].as_str()));
        i = i + 1;
    }
    assert(crate::text::views(tags@) =~= shown_tags(item.tags@));
    DisplayRow {
        idx,
        label: copy(&item.label),
        sub: copy(&item.sub),
        provider: copy(&item.provider),
        icon,
        tags,
        is_favorite,
        rating,
        is_selected: idx == selected,
    }
}

/// One root tag in the sidebar.
#[derive(Clone, Debug, PartialEq, Eq)]
pub struct SidebarRow {
    pub label: String,
    pub path: String,
    pub is_active: bool,
}

/// The sidebar row for a root tag: active where it is the first tag the filter
/// asks for.
pub fn sidebar_row(label: &str, path: &str, wanted: &Vec<String>) -> (row: SidebarRow)
    ensures
        row.label@ == label@,
        row.path@ == path@,
        row.is_active == (wanted@.len() > 0 && wanted@[0]@ == path@),
{
    SidebarRow {
        label: label.to_owned(),
        path: path.to_owned(),
        is_active: wanted.len() > 0 && same(wanted[0].as_str(), path),
    }
}

/// One tag of the active filter.
#[derive(Clone, Debug, PartialEq, Eq)]
pub struct ChipRow {
    pub label: String,
    pub tag: String,
    pub excluded: bool,
}

/// Whether a chip stands for a tag.
pub open spec fn chip_for(chip: ChipRow, tag: Seq<char>, excluded: bool) -> bool {
    chip.label@ == last_segment(tag) && chip.tag@ == tag && chip.excluded == excluded
}

/// The chips of a filter: the tags it asks for, then those it rules out.
pub fn chip_rows(wanted: &Vec<String>, unwanted: &Vec<String>) -> (res: Vec<ChipRow>)
    ensures
        res@.len() == wanted@.len() + unwanted@.len(),
        forall|i: int|
            0 <= i < res@.len() ==> chip_for(
                #[trigger] res@[i],
                (wanted@ + unwanted@)[i]@,
                i >= wanted@.len(),
            ),
{
    let mut out: Vec<ChipRow> = Vec::new();
    let mut i: usize = 0;
    while i < wanted.len()
        invariant
            i <= wanted@.len(),
            out@.len() == i,
            forall|j: int|
                0 <= j < i ==> chip_for(#[trigger] out@[j], (wanted@ + unwanted@)[j]@, false),
        decreases wanted@.len() - i,
    {
        out.push(
            ChipRow {
                label: leaf(wanted[i].as_str()),
                tag: copy(&wanted[i]),
                excluded: false,
            },
        );
        i = i + 1;
    }
    let mut k: usize = 0;
    while k < unwanted.len()
        invariant
            k <= unwanted@.len(),
            out@.len() == wanted@.len() + k,
            forall|j: int|
                0 <= j < out@.len() ==> chip_for(
                    #[trigger] out@[j],
                    (wanted@ + unwanted@)[j]@,
                    j >= wanted@.len(),
                ),
        decreases unwanted@.len() - k,
    {
        out.push(
            ChipRow {
                label: leaf(unwanted[k].as_str()),
                tag: copy(&unwanted[k]),
                excluded: true,
            },
        );
        k = k + 1;
    }
    out
}

/// What stands in place of the results where there are none.
#[derive(Clone, Copy, Debug, PartialEq, Eq, Structural)]
pub enum EmptyNotice {
    /// There are results.
    Hidden,
    /// Nothing was asked for.
    Idle,
    /// Nothing was found.
    NoResults,
}

pub fn empty_notice(results: usize, query: &str, filter_is_empty: bool) -> (res: EmptyNotice)
    ensures
        res == (if results > 0 {
            EmptyNotice::Hidden
        } else if query@.len() == 0 && filter_is_empty {
            EmptyNotice::Idle
        } else {
            EmptyNotice::NoResults
        }),
{
    if results > 0 {
        EmptyNotice::Hidden
    } else if query.unicode_len() == 0 && filter_is_empty {
        EmptyNotice::Idle
    } else {
        EmptyNotice::NoResults
    }
}

/// The count in the footer: the place of the selection among the results.
pub open spec fn footer_text(selected: int, results: int) -> Seq<char> {
    if results > 0 {
        crate::text::decimal((selected + 1) as nat) + "/"@ + crate::text::decimal(results as nat)
    } else {
        "No results"@
    }
}

pub fn footer(selected: usize, results: usize) -> (res: String)
    requires
        selected < usize::MAX,
    ensures
        res@ == footer_text(selected as int, results as int),
{
    if results > 0 {
        let at: String = decimal_of((selected + 1) as u64);
        crate::text::cat3(at.as_str(), "/", decimal_of(results as u64).as_str())
    } else {
        "No results".to_owned()
    }
}

// ---------------------------------------------------------------------------
// Laws
// ---------------------------------------------------------------------------

/// Whether the selection is on a result, or at the start where there are none.
pub open spec fn on_a_result(s: State, results: int) -> bool {
    0 <= s.selected && (s.selected < results || s.selected == 0)
}

/// No key takes the selection off the results.
pub proof fn law_keys_keep_the_selection_on_a_result(
    s: State,
    results: Seq<Item>,
    filter_is_empty: bool,
    rating: u8,
    key: Key,
    held: ActionModifier,
)
    requires
        on_a_result(s, results.len() as int),
    ensures
        on_a_result(
            pressed(s, results, filter_is_empty, rating, key, held).next,
            results.len() as int,
        ),
{
}

/// Up undoes down and down undoes up, around both ends.
pub proof fn law_up_and_down_undo_each_other(
    s: State,
    results: Seq<Item>,
    filter_is_empty: bool,
    rating: u8,
    held: ActionModifier,
)
    requires
        0 <= s.selected < results.len(),
    ensures
        ({
            let down = pressed(s, results, filter_is_empty, rating, Key::ArrowDown, held).next;
            let up = pressed(s, results, filter_is_empty, rating, Key::ArrowUp, held).next;
            &&& pressed(down, results, filter_is_empty, rating, Key::ArrowUp, held).next.selected
                == s.selected
            &&& pressed(up, results, filter_is_empty, rating, Key::ArrowDown, held).next.selected
                == s.selected
        }),
{
    let len = results.len() as int;
    if s.selected + 1 < len {
        assert((s.selected + 1) % len == s.selected + 1) by (nonlinear_arith)
            requires
                0 <= s.selected,
                s.selected + 1 < len,
        ;
    } else {
        assert(len % len == 0) by (nonlinear_arith)
            requires
                len > 0,
        ;
    }
    assert(s.selected % len == s.selected) by (nonlinear_arith)
        requires
            0 <= s.selected < len,
    ;
    if s.selected == 0 {
        assert((len - 1 + 1) % len == 0) by (nonlinear_arith)
            requires
                len > 0,
        ;
    }
}

/// Pressing Escape twice in a row closes, whatever there was to undo.
pub proof fn law_escape_twice_closes(
    s: State,
    results: Seq<Item>,
    still: Seq<Item>,
    filter_is_empty: bool,
    filter_is_still_empty: bool,
    rating: u8,
    held: ActionModifier,
)
    ensures
        ({
            let once = pressed(s, results, filter_is_empty, rating, Key::Escape, held);
            let twice = pressed(once.next, still, filter_is_still_empty, rating, Key::Escape, held);
            once.ask == Ask::Close || twice.ask == Ask::Close
        }),
{
}

/// Rating a result the way it is rated takes the rating away, and rating it
/// again gives it back.
pub proof fn law_the_same_rating_twice_is_none(
    s: State,
    results: Seq<Item>,
    filter_is_empty: bool,
    d: u8,
    c: Seq<char>,
)
    requires
        0 <= s.selected < results.len(),
        1 <= d <= 5,
        digit_of(c) == Some(d as int),
    ensures
        typed(s, results, filter_is_empty, d, c, true, true).ask == (Ask::SetRating {
            id: results[s.selected].id@,
            rating: 0,
        }),
        typed(s, results, filter_is_empty, 0, c, true, true).ask == (Ask::SetRating {
            id: results[s.selected].id@,
            rating: d,
        }),
{
    reveal_strlit(":");
    reveal_strlit("f");
    reveal_strlit("l");
    reveal_strlit("s");
    assert(c[0] as int == 48 + d);
    assert(":"@[0] == ':' && "f"@[0] == 'f' && "l"@[0] == 'l');
}

/// Whether `step` is what pressing a key leads to.
pub open spec fn leads_to(
    from: Palette,
    around: Surroundings,
    key: Key,
    held: ActionModifier,
    step: Step,
) -> bool {
    step.outcome() == pressed(
        from.state(),
        around.results@,
        around.filter_is_empty,
        around.rating,
        key,
        held,
    )
}

/// Whether action `i` is the first whose modifiers are the ones held.
pub open spec fn first_for(actions: Seq<Action>, held: ActionModifier, i: int) -> bool {
    &&& 0 <= i < actions.len()
    &&& actions[i].modifier.ctrl == held.ctrl
    &&& actions[i].modifier.shift == held.shift
    &&& actions[i].modifier.alt == held.alt
    &&& forall|j: int| 0 <= j < i ==> (#[trigger] actions[j]).modifier != held
}

proof fn lemma_action_for(actions: Seq<Action>, held: ActionModifier, from: int)
    requires
        0 <= from,
    ensures
        match action_for(actions, held, from) {
            Some(a) => exists|i: int|
                from <= i < actions.len() && a == #[trigger] actions[i] && a.modifier == held
                    && forall|j: int| from <= j < i ==> (#[trigger] actions[j]).modifier != held,
            None => forall|j: int|
                from <= j < actions.len() ==> (#[trigger] actions[j]).modifier != held,
        },
    decreases actions.len() - from,
{
    if from < actions.len() && actions[from].modifier != held {
        lemma_action_for(actions, held, from + 1);
        if let Some(a) = action_for(actions, held, from + 1) {
            let i = choose|i: int|
                from + 1 <= i < actions.len() && a == #[trigger] actions[i] && a.modifier == held
                    && forall|j: int| from + 1 <= j < i ==> (#[trigger] actions[j]).modifier != held;
            assert(a == actions[i]);
        }
    }
}

/// Enter on a result runs the first of its actions that has exactly the modifiers
/// held, and the launcher stays open where that action asks for it. Only where none
/// has them it runs the first action of all, or the default one where there is
/// none, and closes. It does so in item search, and in tag search for a result
/// without tags; the state stays but for Escape, which is disarmed.
pub proof fn law_enter_runs_the_action_of_the_held_modifiers(
    from: Palette,
    around: Surroundings,
    held: ActionModifier,
    step: Step,
)
    requires
        from.selected < around.results@.len(),
        from.mode == SearchMode::Items || around.results@[from.selected as int].tags@.len() == 0,
        leads_to(from, around, Key::Enter, held, step),
    ensures
        step.prevent_default,
        step.next.query@ == from.query@,
        step.next.selected == from.selected,
        step.next.mode == from.mode,
        step.next.presets == from.presets,
        !step.next.escape_armed,
        step.request matches Request::Activate { index, action, query, keep_open } && {
            let actions = around.results@[from.selected as int].actions@;
            &&& index == from.selected
            &&& query@ == from.query@
            &&& forall|i: int| #[trigger]
                first_for(actions, held, i) ==> action@ == actions[i].name@ && keep_open
                    == actions[i].keep_open
            &&& (forall|i: int| 0 <= i < actions.len() ==> (#[trigger] actions[i]).modifier != held)
                ==> !keep_open && (if actions.len() > 0 {
                action@ == actions[0].name@
            } else {
                action@ == "activate"@
            })
        },
{
    let actions = around.results@[from.selected as int].actions@;
    lemma_action_for(actions, held, 0);
    assert forall|i: int| #[trigger] first_for(actions, held, i) implies action_for(
        actions,
        held,
        0,
    ) == Some(actions[i]) by {
        assert(actions[i].modifier == held);
        assert(action_for(actions, held, 0) is Some);
        let a = action_for(actions, held, 0)->0;
        let k = choose|k: int|
            0 <= k < actions.len() && a == #[trigger] actions[k] && a.modifier == held
                && forall|j: int| 0 <= j < k ==> (#[trigger] actions[j]).modifier != held;
        assert(actions[k].modifier == held);
        if k < i {
            assert(actions[k].modifier != held);
        }
        if i < k {
            assert(actions[i].modifier != held);
        }
    }
}

/// Enter or a click on a result with tags, in tag search, asks for the first of its
/// tags as a filter and starts the item search over.
pub proof fn law_tag_search_picks_the_first_tag(
    from: Palette,
    around: Surroundings,
    held: ActionModifier,
    entered_step: Step,
    index: usize,
    clicked_step: Step,
)
    requires
        from.mode == SearchMode::Filters,
        from.selected < around.results@.len(),
        around.results@[from.selected as int].tags@.len() > 0,
        leads_to(from, around, Key::Enter, held, entered_step),
        index < around.results@.len(),
        around.results@[index as int].tags@.len() > 0,
        clicked_step.outcome() == clicked(from.state(), around.results@, index as int),
    ensures
        entered_step.request matches Request::ToggleTag(path) && path@
            == around.results@[from.selected as int].tags@[0]@,
        clicked_step.request matches Request::ToggleTag(path) && path@
            == around.results@[index as int].tags@[0]@,
        entered_step.next.query@.len() == 0 && clicked_step.next.query@.len() == 0,
        entered_step.next.selected == 0 && clicked_step.next.selected == 0,
        entered_step.next.mode == SearchMode::Items && clicked_step.next.mode == SearchMode::Items,
        entered_step.next.presets == from.presets && clicked_step.next.presets == from.presets,
        entered_step.prevent_default,
{
}

/// A click on a result runs the first of its actions, whatever is selected, and
/// changes nothing in the state. A click beside the results asks for nothing.
pub proof fn law_a_click_runs_the_first_action(
    from: Palette,
    results: Seq<Item>,
    index: usize,
    step: Step,
)
    requires
        from.mode == SearchMode::Items || index >= results.len() || results[index as int].tags@.len()
            == 0,
        step.outcome() == clicked(from.state(), results, index as int),
    ensures
        step.next.query@ == from.query@,
        step.next.selected == from.selected,
        step.next.mode == from.mode,
        step.next.presets == from.presets,
        step.next.escape_armed == from.escape_armed,
        !step.prevent_default,
        index >= results.len() ==> step.request is Nothing,
        index < results.len() ==> (step.request matches Request::Activate {
            index: at,
            action,
            query,
            keep_open,
        } && at == index && query@ == from.query@ && !keep_open && (if results[index as int].actions@.len()
            > 0 {
            action@ == results[index as int].actions@[0].name@
        } else {
            action@ == "activate"@
        })),
{
}

/// Whether only the selection, and whether Escape is armed, may differ.
pub open spec fn differs_in_the_selection(a: Palette, b: Palette) -> bool {
    a.query@ == b.query@ && a.mode == b.mode && a.presets == b.presets
}

/// Where the keys that move take the selection: one on or back and around the ends,
/// to either end, and ten on or back but never past an end. They ask for nothing.
pub proof fn law_keys_move_the_selection(
    from: Palette,
    around: Surroundings,
    key: Key,
    held: ActionModifier,
    step: Step,
)
    requires
        from.selected < around.results@.len(),
        key is ArrowDown || key is ArrowUp || key is Home || key is End || key is PageDown
            || key is PageUp,
        leads_to(from, around, key, held, step),
    ensures
        differs_in_the_selection(step.next, from),
        !step.next.escape_armed,
        step.request is Nothing,
        step.prevent_default,
        ({
            let last = around.results@.len() - 1;
            let at = from.selected;
            let to = step.next.selected;
            &&& key is ArrowDown ==> (if at == last { to == 0 } else { to == at + 1 })
            &&& key is ArrowUp ==> (if at == 0 { to == last } else { to == at - 1 })
            &&& key is Home ==> to == 0
            &&& key is End ==> to == last
            &&& key is PageDown ==> at <= to <= last && to <= at + 10 && (to == last || to == at
                + 10)
            &&& key is PageUp ==> 0 <= to <= at && at <= to + 10 && (to == 0 || to == at - 10)
        }),
{
    let len = around.results@.len() as int;
    let at = from.selected as int;
    if at + 1 < len {
        assert((at + 1) % len == at + 1) by (nonlinear_arith)
            requires
                0 <= at,
                at + 1 < len,
        ;
    } else {
        assert(len % len == 0) by (nonlinear_arith)
            requires
                len > 0,
        ;
    }
}

/// Tab turns one search into the other and back, and starts at the first result.
pub proof fn law_tab_turns_the_search_over(
    from: Palette,
    around: Surroundings,
    held: ActionModifier,
    once: Step,
    twice: Step,
)
    requires
        leads_to(from, around, Key::Tab, held, once),
        leads_to(once.next, around, Key::Tab, held, twice),
    ensures
        once.next.mode != from.mode,
        twice.next.mode == from.mode,
        once.next.selected == 0,
        once.next.query@ == from.query@,
        once.next.presets == from.presets,
        once.request is Nothing,
        once.prevent_default,
{
}

/// Escape undoes one thing at a time and says so by arming itself: the query where
/// there is one, else tag search, else the filter. It closes where there is nothing
/// to undo, and where it was armed. Nothing else is touched.
pub proof fn law_escape_undoes_one_thing(
    from: Palette,
    around: Surroundings,
    held: ActionModifier,
    step: Step,
)
    requires
        leads_to(from, around, Key::Escape, held, step),
    ensures
        step.prevent_default,
        step.next.presets == from.presets,
        step.request is Close <==> from.escape_armed || (from.query@.len() == 0 && from.mode
            == SearchMode::Items && around.filter_is_empty),
        step.request is ClearFilter <==> !from.escape_armed && from.query@.len() == 0 && from.mode
            == SearchMode::Items && !around.filter_is_empty,
        step.request is Close || step.request is ClearFilter || step.request is Nothing,
        step.request is Close ==> step.next.state() == from.state(),
        step.request !is Close ==> step.next.escape_armed && step.next.query@.len() == 0,
        step.request !is Close && from.query@.len() > 0 ==> step.next.mode == from.mode
            && step.next.selected == 0,
        step.request !is Close && from.query@.len() == 0 ==> step.next.mode == SearchMode::Items,
{
}

/// A key other than Escape disarms it, and editing the query does too: so only two
/// in a row close.
pub proof fn law_any_other_key_disarms_escape(
    from: Palette,
    around: Surroundings,
    key: Key,
    held: ActionModifier,
    step: Step,
)
    requires
        key !is Escape,
        leads_to(from, around, key, held, step),
    ensures
        !step.next.escape_armed,
{
}

/// A colon closes, and so does a space with Ctrl; any other character without Ctrl
/// is left to the query.
pub proof fn law_characters_belong_to_the_query(
    from: Palette,
    around: Surroundings,
    c: String,
    held: ActionModifier,
    step: Step,
)
    requires
        leads_to(from, around, Key::Character(c), held, step),
    ensures
        c@ == seq![':'] || (held.ctrl && c@ == seq![' ']) ==> step.request is Close
            && step.prevent_default,
        !held.ctrl && c@ != seq![':'] ==> step.request is Nothing && !step.prevent_default,
        step.next.query@ == from.query@,
        step.next.mode == from.mode,
{
    reveal_strlit(":");
    reveal_strlit(" ");
    assert(":"@ =~= seq![':']);
    assert(" "@ =~= seq![' ']);
}

/// With Ctrl: `f` marks the selected result, `l` clears the filter and starts at the
/// first result, and `s` without Shift saves a filter that is not empty under the
/// next number.
pub proof fn law_ctrl_letters(
    from: Palette,
    around: Surroundings,
    c: String,
    held: ActionModifier,
    step: Step,
)
    requires
        held.ctrl,
        leads_to(from, around, Key::Character(c), held, step),
    ensures
        c@ == seq!['f'] && from.selected < around.results@.len() ==> (
        step.request matches Request::ToggleFavorite(id) && id@
            == around.results@[from.selected as int].id@),
        c@ == seq!['f'] && from.selected >= around.results@.len() ==> step.request is Nothing,
        c@ == seq!['l'] ==> step.request is ClearFilter && step.next.selected == 0,
        c@ == seq!['s'] && !held.shift && around.filter_is_empty ==> step.request is Nothing
            && step.next.presets == from.presets,
        c@ == seq!['s'] && !held.shift && !around.filter_is_empty ==> step.next.presets
            == from.presets + 1 && (step.request matches Request::SavePreset(name) && name@
            == "Preset "@ + crate::text::decimal(step.next.presets as nat)),
        c@ == seq!['f'] || c@ == seq!['l'] || (c@ == seq!['s'] && !held.shift)
            ==> step.prevent_default,
        c@ != seq!['s'] ==> step.next.presets == from.presets,
        c@ != seq!['l'] ==> step.next.selected == from.selected,
{
    reveal_strlit(":");
    reveal_strlit(" ");
    reveal_strlit("f");
    reveal_strlit("l");
    reveal_strlit("s");
    assert(":"@ =~= seq![':']);
    assert(" "@ =~= seq![' ']);
    assert("f"@ =~= seq!['f']);
    assert("l"@ =~= seq!['l']);
    assert("s"@ =~= seq!['s']);
    assert(seq!['f'][0] == 'f' && seq!['l'][0] == 'l' && seq!['s'][0] == 's');
    assert(seq![':'][0] == ':' && seq![' '][0] == ' ');
}

/// With Ctrl a digit runs the default action of the result of that number, counted
/// from one, where there is one. With Shift too, one of the first five rates the
/// selected result, and takes the rating away where it is the one it has.
pub proof fn law_ctrl_digits(
    from: Palette,
    around: Surroundings,
    c: String,
    d: u8,
    held: ActionModifier,
    step: Step,
)
    requires
        held.ctrl,
        d <= 9,
        c@ == seq![(48 + d) as char],
        leads_to(from, around, Key::Character(c), held, step),
    ensures
        step.next.selected == from.selected,
        step.next.query@ == from.query@,
        step.next.presets == from.presets,
        !held.shift && 1 <= d <= around.results@.len() ==> (step.request matches Request::Activate {
            index,
            action,
            query,
            keep_open,
        } && index == d - 1 && action@ == "activate"@ && query@ == from.query@ && !keep_open),
        !held.shift && (d == 0 || d > around.results@.len()) ==> step.request is Nothing,
        held.shift && 1 <= d <= 5 && from.selected < around.results@.len() ==> (
        step.request matches Request::SetRating { id, rating } && id@
            == around.results@[from.selected as int].id@ && (if around.rating == d {
            rating == 0
        } else {
            rating == d
        })),
        held.shift && !(1 <= d <= 5) ==> step.request is Nothing,
{
    reveal_strlit(":");
    reveal_strlit(" ");
    reveal_strlit("f");
    reveal_strlit("l");
    reveal_strlit("s");
    assert(c@[0] == (48 + d) as char);
    assert(":"@[0] == ':' && " "@[0] == ' ' && "f"@[0] == 'f' && "l"@[0] == 'l' && "s"@[0] == 's');
    assert(digit_of(c@) == Some(d as int));
}

/// A shrinking list keeps the selection on the nearest result, and a selection that
/// is on one stays.
pub proof fn law_the_selection_stays_on_the_nearest_result(s: State, results: int)
    requires
        0 <= s.selected,
        0 <= results,
    ensures
        ({
            let now = held_within(s, results);
            &&& now.query == s.query && now.mode == s.mode && now.presets == s.presets
            &&& now.escape_armed == s.escape_armed
            &&& on_a_result(now, results)
            &&& s.selected < results ==> now.selected == s.selected
            &&& s.selected >= results > 0 ==> now.selected == results - 1
        }),
{
}

/// The last segment of a tag path is what follows its last slash, or the whole path
/// where there is none.
pub proof fn law_a_leaf_follows_the_last_slash(above: Seq<char>, last: Seq<char>)
    requires
        crate::text::free_of(last, '/'),
    ensures
        last_segment(last) == last,
        last_segment(above + seq!['/'] + last) == last,
{
    crate::text::lemma_pieces_of_free(last, '/');
    crate::text::law_parts_add_up(above, last, '/');
}

/// A row shows at most three tags, each by its last segment, in their order, and its
/// icon by one letter.
pub proof fn law_a_row_shows_the_first_tags(
    row: DisplayRow,
    item: Item,
    idx: int,
    selected: int,
    is_favorite: bool,
    rating: u8,
)
    requires
        shows(row, item, idx, selected, is_favorite, rating),
    ensures
        row.tags@.len() <= 3,
        row.tags@.len() == item.tags@.len() || row.tags@.len() == 3 && item.tags@.len() > 3,
        forall|i: int|
            0 <= i < row.tags@.len() ==> crate::text::free_of((#[trigger] row.tags@[i])@, '/')
                && crate::text::ends(item.tags@[i]@, row.tags@[i]@),
        row.icon@.len() == 1,
        item.icon@.len() > 0 ==> row.icon@[0] == item.icon@[0],
        item.icon@.len() == 0 ==> row.icon@[0] == '#',
        row.label@ == item.label@ && row.sub@ == item.sub@ && row.provider@ == item.provider@,
        row.is_selected <==> row.idx == selected,
{
    assert(crate::text::views(row.tags@).len() == shown_tags(item.tags@).len());
    assert(row.tags@.len() == shown_tags(item.tags@).len());
    assert forall|i: int| 0 <= i < row.tags@.len() implies crate::text::free_of(
        (#[trigger] row.tags@[i])@,
        '/',
    ) && crate::text::ends(item.tags@[i]@, row.tags@[i]@) by {
        assert(crate::text::views(row.tags@)[i] == row.tags@[i]@);
        assert(shown_tags(item.tags@)[i] == last_segment(item.tags@[i]@));
        crate::text::law_pieces_hold_no_separator(item.tags@[i]@, '/');
        crate::text::lemma_pieces_nonempty(item.tags@[i]@, '/');
        crate::text::law_a_text_ends_in_its_last_part(item.tags@[i]@, '/');
    }
}

/// The footer counts from one, up to the number of results.
pub proof fn law_the_footer_counts_from_one(selected: int, results: int)
    requires
        0 <= selected,
        0 < results,
        selected < u64::MAX,
        results <= u64::MAX,
    ensures
        crate::text::pieces(footer_text(selected, results), '/').len() == 2,
        crate::text::number(crate::text::pieces(footer_text(selected, results), '/')[0]) == Some(
            (selected + 1) as u64,
        ),
        crate::text::number(crate::text::pieces(footer_text(selected, results), '/')[1]) == Some(
            results as u64,
        ),
        footer_text(selected, 0) == footer_text(0, 0),
{
    let a = crate::text::decimal((selected + 1) as nat);
    let b = crate::text::decimal(results as nat);
    crate::text::lemma_decimal_is_read_back((selected + 1) as nat);
    crate::text::lemma_decimal_is_read_back(results as nat);
    crate::text::law_numbers_are_read_back((selected + 1) as u64);
    crate::text::law_numbers_are_read_back(results as u64);
    reveal_strlit("/");
    assert("/"@ =~= seq!['/']);
    assert(crate::text::free_of(a, '/')) by {
        assert forall|i: int| 0 <= i < a.len() implies a[i] != '/' by {
            assert(crate::text::ascii_digit(a[i]));
        }
    }
    assert(crate::text::free_of(b, '/')) by {
        assert forall|i: int| 0 <= i < b.len() implies b[i] != '/' by {
            assert(crate::text::ascii_digit(b[i]));
        }
    }
    crate::text::lemma_pieces_of_free(a, '/');
    crate::text::lemma_pieces_of_free(b, '/');
    crate::text::law_parts_add_up(a, b, '/');
}

/// A chip is labelled with the last part of its tag, and stands for the whole of it.
pub proof fn law_a_chip_stands_for_its_tag(
    chip: ChipRow,
    above: Seq<char>,
    last: Seq<char>,
    excluded: bool,
)
    requires
        crate::text::free_of(last, '/'),
        chip_for(chip, above + seq!['/'] + last, excluded),
    ensures
        chip.tag@ == above + seq!['/'] + last,
        chip.label@ == last,
        chip.excluded == excluded,
{
    law_a_leaf_follows_the_last_slash(above, last);
}

} // verus!
