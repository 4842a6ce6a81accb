//! What a launcher lists.

use vstd::prelude::*;

verus! {

/// The modifier keys held down with a key.
#[derive(Clone, Copy, Debug, PartialEq, Eq, Structural)]
pub struct ActionModifier {
    pub ctrl: bool,
    pub shift: bool,
    pub alt: bool,
}

/// Something that can be done with an item.
#[derive(Clone, Debug, PartialEq, Eq)]
pub struct Action {
    pub name: String,
    /// The modifiers that ask for it.
    pub modifier: ActionModifier,
    /// Whether the launcher stays open after it.
    pub keep_open: bool,
}

/// One thing that can be found and activated.
#[derive(Clone, Debug, PartialEq, Eq)]
pub struct Item {
    pub id: String,
    pub label: String,
    pub sub: String,
    pub icon: String,
    pub provider: String,
    /// Tag paths, segments separated by `/`.
    pub tags: Vec<String>,
    pub actions: Vec<Action>,
    /// What the query is matched against, the weightiest first.
    pub search_fields: Vec<String>,
    /// The rank a match gave it: larger comes first.
    pub score: u64,
    /// The places in the field that matched.
    pub match_positions: Vec<u32>,
}

/// `now` is `was` with a rank and the places that matched.
pub open spec fn annotated(was: Item, now: Item, score: u64, positions: Seq<u32>) -> bool {
    &&& now.id == was.id
    &&& now.label == was.label
    &&& now.sub == was.sub
    &&& now.icon == was.icon
    &&& now.provider == was.provider
    &&& now.tags == was.tags
    &&& now.actions == was.actions
    &&& now.search_fields == was.search_fields
    &&& now.score == score
    &&& now.match_positions@ == positions
}

} // verus!
