use architect::launcher::item::{Action, ActionModifier, Item};
use architect::launcher::matching::{best_match, score_items, score_items_exact, LONGEST};
use architect::launcher::palette::{
    chip_rows, closes_after, display_row, empty_notice, footer, leaf, sidebar_row, EmptyNotice, Key,
    Palette, Request, SearchMode, Surroundings,
};

fn plain() -> ActionModifier {
    ActionModifier { ctrl: false, shift: false, alt: false }
}

fn item(id: &str, fields: &[&str]) -> Item {
    Item {
        id: id.to_owned(),
        label: id.to_owned(),
        sub: String::new(),
        icon: "music".to_owned(),
        provider: "p".to_owned(),
        tags: Vec::new(),
        actions: vec![Action { name: "Open".to_owned(), modifier: plain(), keep_open: false }],
        search_fields: fields.iter().map(|f| (*f).to_owned()).collect(),
        score: 0,
        match_positions: Vec::new(),
    }
}

fn ids(items: &[Item]) -> Vec<&str> {
    items.iter().map(|i| i.id.as_str()).collect()
}

/// The float ranking: earlier and fuller matches first.
fn weigh(at: usize, query: usize, field: usize) -> u64 {
    let position_score = 100.0 - (at.min(50) as f64);
    let ratio = query as f64 / field as f64;
    ratio.mul_add(50.0, position_score).to_bits()
}

#[test]
fn an_empty_query_leaves_the_items_alone() {
    let items = vec![item("a", &["alpha"]), item("b", &["beta"])];
    assert_eq!(score_items(items.clone(), ""), items);
    assert_eq!(score_items_exact(items.clone(), "", weigh), items);
}

#[test]
fn fuzzy_matches_are_ranked_and_the_rest_left_out() {
    let items = vec![
        item("drums", &["Drum Machine"]),
        item("piano", &["Grand Piano"]),
        item("pad", &["Warm Pad"]),
    ];
    let found = score_items(items, "pia");
    assert_eq!(ids(&found), vec!["piano"]);
    assert!(found[0].score > 0);
    assert_eq!(found[0].match_positions, vec![6, 7, 8]);
    let none = score_items(vec![item("drums", &["Drum Machine"])], "zzz");
    assert!(none.is_empty());
}

#[test]
fn an_earlier_field_weighs_more() {
    let direct = best_match(&vec!["piano".to_owned()], "piano").unwrap();
    let later = best_match(&vec!["x".to_owned(), "piano".to_owned()], "piano").unwrap();
    assert!(direct.0 > later.0);
    assert_eq!(best_match(&vec!["x".to_owned()], "piano"), None);
}

#[test]
fn each_later_field_counts_a_fifth_less() {
    for word in ["p", "piano", "grand piano in the hall", "zz"] {
        let at = |n: usize| {
            let mut fields = vec!["-".to_owned(); n];
            fields.push(word.to_owned());
            best_match(&fields, word).unwrap().0
        };
        let raw = at(0) as f64;
        for n in 0..8usize {
            let penalty = 1.0 - (n as f64 * 0.2).min(0.8);
            assert_eq!(at(n), (raw * penalty) as u64, "{word} {n}");
        }
    }
}

#[test]
fn exact_matches_rank_by_place_and_length() {
    let items = vec![
        item("late", &["the grand piano"]),
        item("whole", &["Piano"]),
        item("start", &["piano roll"]),
        item("none", &["drums"]),
    ];
    let found = score_items_exact(items, "PIANO", weigh);
    assert_eq!(ids(&found), vec!["whole", "start", "late"]);
    assert_eq!(f64::from_bits(found[0].score), 150.0);
}

#[test]
fn equal_matches_keep_their_order() {
    let items = vec![item("one", &["abc"]), item("two", &["abc"]), item("three", &["abc"])];
    assert_eq!(ids(&score_items_exact(items.clone(), "abc", weigh)), vec!["one", "two", "three"]);
    assert_eq!(ids(&score_items(items, "abc")), vec!["one", "two", "three"]);
}

fn results() -> Vec<Item> {
    vec![item("a", &["a"]), item("b", &["b"]), item("c", &["c"])]
}

#[test]
fn arrows_move_and_wrap_around() {
    let list = results();
    let around = Surroundings { results: &list, filter_is_empty: true, rating: 0 };
    let start = Palette::new();
    assert_eq!(start.selected, 0);
    assert_eq!(start.mode, SearchMode::Items);
    let down = start.press(&around, &Key::ArrowDown, plain());
    assert_eq!(down.next.selected, 1);
    assert!(down.prevent_default);
    let back = down.next.press(&around, &Key::ArrowUp, plain());
    assert_eq!(back.next.selected, 0);
    let end = back.next.press(&around, &Key::End, plain());
    assert_eq!(end.next.selected, 2);
    let home = end.next.press(&around, &Key::Home, plain());
    assert_eq!(home.next.selected, 0);
}

#[test]
fn enter_activates_the_selected_result() {
    let list = results();
    let around = Surroundings { results: &list, filter_is_empty: true, rating: 0 };
    let step = Palette::new().press(&around, &Key::Enter, plain());
    assert_eq!(
        step.request,
        Request::Activate {
            index: 0,
            action: "Open".to_owned(),
            query: String::new(),
            keep_open: false,
        }
    );
}

#[test]
fn escape_twice_closes() {
    let list = results();
    let around = Surroundings { results: &list, filter_is_empty: true, rating: 0 };
    let typed = Palette::new().input("pia".to_owned());
    let once = typed.press(&around, &Key::Escape, plain());
    let twice = once.next.press(&around, &Key::Escape, plain());
    assert_eq!(twice.request, Request::Close);
}

#[test]
fn a_shrinking_list_keeps_the_selection_on_a_result() {
    let far = Palette { selected: 7, ..Palette::new() };
    assert_eq!(far.clone().clamped(3).selected, 2);
    assert_eq!(far.clamped(0).selected, 0);
}

#[test]
fn rows_show_what_is_known_of_a_result() {
    let mut shown = item("a", &["a"]);
    shown.tags = vec!["genre/jazz".into(), "mood".into(), "x/y/z".into(), "fourth".into()];
    let row = display_row(&shown, 1, 1, true, 4);
    assert_eq!(row.icon, "m");
    assert_eq!(row.tags, vec!["jazz".to_owned(), "mood".to_owned(), "z".to_owned()]);
    assert!(row.is_selected && row.is_favorite);
    assert_eq!(leaf("a/b"), "b");
    assert_eq!(leaf(""), "");
    shown.icon = String::new();
    assert_eq!(display_row(&shown, 0, 1, false, 0).icon, "#");
    let wanted = vec!["genre".to_owned()];
    assert!(sidebar_row("Genre", "genre", &wanted).is_active);
    assert!(!sidebar_row("Mood", "mood", &wanted).is_active);
    let chips = chip_rows(&wanted, &vec!["mood/sad".to_owned()]);
    assert_eq!(chips.len(), 2);
    assert_eq!(chips[1].label, "sad");
    assert!(chips[1].excluded && !chips[0].excluded);
    assert_eq!(empty_notice(0, "", true), EmptyNotice::Idle);
    assert_eq!(empty_notice(0, "x", true), EmptyNotice::NoResults);
    assert_eq!(empty_notice(1, "", true), EmptyNotice::Hidden);
    assert_eq!(footer(0, 3), "1/3");
    assert_eq!(footer(0, 0), "No results");
    assert!(closes_after(true, false) && !closes_after(true, true) && !closes_after(false, false));
}

#[test]
fn scoring_exactly_again_changes_nothing() {
    let items = vec![
        item("c", &["xx Open"]),
        item("a", &["open file"]),
        item("b", &["nothing"]),
        item("d", &["other", "OPEN"]),
    ];
    let once = score_items_exact(items, "open", weigh);
    let twice = score_items_exact(once.clone(), "open", weigh);
    assert_eq!(once, twice);
    assert_eq!(once.len(), 3);
}

#[test]
fn the_longest_query_is_scored() {
    let long = "a".repeat(LONGEST);
    let found = score_items(vec![item("a", &[long.as_str()])], &long);
    assert_eq!(ids(&found), vec!["a"]);
    assert_eq!(found[0].score, 26 * 2520 + 10);
    // A longer query fits no field that is short.
    let longer = "a".repeat(LONGEST + 1);
    assert!(score_items(vec![item("a", &[long.as_str()])], &longer).is_empty());
}

#[test]
fn case_is_ignored_in_an_exact_match() {
    let found = score_items_exact(vec![item("a", &["ÄRGER Open"])], "ärger o", weigh);
    assert_eq!(ids(&found), vec!["a"]);
}

#[test]
fn moving_the_matching_field_back_never_raises_the_score() {
    let mut last = u64::MAX;
    for place in 0..7 {
        let mut fields = vec!["zzz"; 7];
        fields[place] = "open file";
        let found = score_items(vec![item("a", &fields)], "open");
        assert_eq!(found.len(), 1);
        assert!(found[0].score <= last);
        last = found[0].score;
    }
    assert!(score_items(vec![item("a", &["zzz"; 7])], "open").is_empty());
}
