use architect::auth::expiry::Moment;
use architect::crdt::codec::{
    apply_text_diff, apply_text_ops, diff_ops, loro_err, read_bool, read_dt, read_i32, read_i64,
    read_opt_bool, read_opt_dt, read_opt_i32, read_opt_i64, read_opt_str, read_opt_string_list,
    read_opt_u32, read_opt_uuid, read_str, read_string_list, read_text, read_text_with_migration,
    read_u32, read_uuid, text_child, write_bool, write_dt, write_i32, write_i64, write_opt_bool,
    write_opt_dt, write_opt_i32, write_opt_i64, write_opt_str, write_opt_string_list,
    write_opt_u32, write_opt_uuid, write_str, write_string_list, write_u32, write_uuid, RepoError,
    TextOp,
};
use loro::{ContainerTrait, ExportMode, LoroDoc, LoroError, LoroMap};

fn root(doc: &LoroDoc) -> LoroMap {
    doc.get_map("root")
}

#[test]
fn i32_round_trip() {
    let doc = LoroDoc::new();
    let mut m = root(&doc);
    write_i32(&mut m, "n", -42).unwrap();
    assert_eq!(read_i32(&m, "n").unwrap(), -42);
}

#[test]
fn i32_extremes_round_trip() {
    let doc = LoroDoc::new();
    let mut m = root(&doc);
    write_i32(&mut m, "min", i32::MIN).unwrap();
    write_i32(&mut m, "max", i32::MAX).unwrap();
    assert_eq!(read_i32(&m, "min").unwrap(), i32::MIN);
    assert_eq!(read_i32(&m, "max").unwrap(), i32::MAX);
}

#[test]
fn read_i32_missing_key_errors() {
    let doc = LoroDoc::new();
    let m = root(&doc);
    assert!(read_i32(&m, "absent").is_err());
}

#[test]
fn read_i32_out_of_range_errors() {
    let doc = LoroDoc::new();
    let mut m = root(&doc);
    write_i64(&mut m, "big", i64::from(i32::MAX) + 1).unwrap();
    write_i64(&mut m, "small", i64::from(i32::MIN) - 1).unwrap();
    assert!(matches!(
        read_i32(&m, "big"),
        Err(RepoError::Internal(msg)) if msg.contains("out of range i32")
    ));
    assert!(read_i32(&m, "small").is_err());
}

#[test]
fn opt_i32_some_round_trips() {
    let doc = LoroDoc::new();
    let mut m = root(&doc);
    write_opt_i32(&mut m, "n", Some(7)).unwrap();
    assert_eq!(read_opt_i32(&m, "n").unwrap(), Some(7));
}

#[test]
fn opt_i32_none_omits_the_key() {
    let doc = LoroDoc::new();
    let mut m = root(&doc);
    write_opt_i32(&mut m, "n", None).unwrap();
    assert_eq!(read_opt_i32(&m, "n").unwrap(), None);
    write_opt_i32(&mut m, "n", Some(3)).unwrap();
    write_opt_i32(&mut m, "n", None).unwrap();
    assert_eq!(read_opt_i32(&m, "n").unwrap(), None);
}

#[test]
fn read_opt_i32_out_of_range_errors() {
    let doc = LoroDoc::new();
    let mut m = root(&doc);
    write_i64(&mut m, "big", i64::from(u32::MAX)).unwrap();
    assert!(read_opt_i32(&m, "big").is_err());
}

#[test]
fn text_child_is_idempotent() {
    let doc = LoroDoc::new();
    let mut m = root(&doc);
    let a = text_child(&mut m, "content").unwrap();
    a.insert(0, "abc").unwrap();
    let b = text_child(&mut m, "content").unwrap();
    assert_eq!(b.to_string(), "abc");
    assert_eq!(a.id(), b.id());
}

#[test]
fn read_text_empty_when_missing() {
    let doc = LoroDoc::new();
    let m = root(&doc);
    assert_eq!(read_text(&m, "missing").unwrap(), "");
}

#[test]
fn apply_text_ops_insert_then_delete() {
    let doc = LoroDoc::new();
    let mut m = root(&doc);
    apply_text_ops(
        &mut m,
        "c",
        &vec![
            TextOp::Insert { pos: 0, text: "hello world".into() },
            TextOp::Delete { pos: 5, len: 1 },
            TextOp::Insert { pos: 5, text: "—".into() },
        ],
    )
    .unwrap();
    assert_eq!(read_text(&m, "c").unwrap(), "hello—world");
}

#[test]
fn apply_text_diff_seeds_empty() {
    let doc = LoroDoc::new();
    let mut m = root(&doc);
    apply_text_diff(&mut m, "c", "", "fresh").unwrap();
    assert_eq!(read_text(&m, "c").unwrap(), "fresh");
}

#[test]
fn apply_text_diff_is_minimal_for_suffix_change() {
    let a = LoroDoc::new();
    a.set_peer_id(1).unwrap();
    let b = LoroDoc::new();
    b.set_peer_id(2).unwrap();
    apply_text_diff(&mut root(&a), "c", "", "hello").unwrap();
    a.commit();
    b.import(&a.export(ExportMode::all_updates()).unwrap()).unwrap();

    apply_text_diff(&mut root(&a), "c", "hello", "hello!").unwrap();
    apply_text_diff(&mut root(&b), "c", "hello", ">hello").unwrap();
    a.commit();
    b.commit();

    let a_to_b = a.export(ExportMode::updates(&b.oplog_vv())).unwrap();
    let b_to_a = b.export(ExportMode::updates(&a.oplog_vv())).unwrap();
    b.import(&a_to_b).unwrap();
    a.import(&b_to_a).unwrap();

    let final_a = read_text(&root(&a), "c").unwrap();
    let final_b = read_text(&root(&b), "c").unwrap();
    assert_eq!(final_a, final_b, "peers diverged");
    assert!(final_a.contains('>'), "lost peer B prepend: {final_a}");
    assert!(final_a.contains('!'), "lost peer A append: {final_a}");
    assert!(final_a.contains("hello"));
}

#[test]
fn two_doc_concurrent_insert_at_same_pos() {
    let a = LoroDoc::new();
    a.set_peer_id(1).unwrap();
    let b = LoroDoc::new();
    b.set_peer_id(2).unwrap();
    let _ = text_child(&mut root(&a), "c").unwrap();
    a.commit();
    b.import(&a.export(ExportMode::all_updates()).unwrap()).unwrap();

    apply_text_ops(
        &mut root(&a),
        "c",
        &vec![TextOp::Insert { pos: 0, text: "abc".into() }],
    )
    .unwrap();
    apply_text_ops(
        &mut root(&b),
        "c",
        &vec![TextOp::Insert { pos: 0, text: "xyz".into() }],
    )
    .unwrap();
    a.commit();
    b.commit();

    let a_to_b = a.export(ExportMode::updates(&b.oplog_vv())).unwrap();
    let b_to_a = b.export(ExportMode::updates(&a.oplog_vv())).unwrap();
    b.import(&a_to_b).unwrap();
    a.import(&b_to_a).unwrap();

    let final_a = read_text(&root(&a), "c").unwrap();
    let final_b = read_text(&root(&b), "c").unwrap();
    assert_eq!(final_a, final_b);
    assert_eq!(final_a.len(), 6, "both inserts must survive: {final_a}");
    for ch in "abcxyz".chars() {
        assert!(final_a.contains(ch));
    }
}

#[test]
fn read_text_with_migration_seeds_from_legacy_string() {
    let doc = LoroDoc::new();
    let mut m = root(&doc);
    write_str(&mut m, "c", "legacy body").unwrap();
    let seen = read_text_with_migration(&mut m, "c").unwrap();
    assert_eq!(seen, "legacy body");
    assert_eq!(read_text_with_migration(&mut m, "c").unwrap(), "legacy body");
    apply_text_ops(
        &mut m,
        "c",
        &vec![TextOp::Insert { pos: 11, text: "!".into() }],
    )
    .unwrap();
    assert_eq!(read_text(&m, "c").unwrap(), "legacy body!");
}

#[test]
fn apply_text_diff_noop_when_unchanged() {
    let doc = LoroDoc::new();
    let mut m = root(&doc);
    apply_text_diff(&mut m, "c", "", "same").unwrap();
    apply_text_diff(&mut m, "c", "same", "same").unwrap();
    assert_eq!(read_text(&m, "c").unwrap(), "same");
}

#[test]
fn every_scalar_is_read_back() {
    let doc = LoroDoc::new();
    let mut m = root(&doc);
    let id = 0x0123_4567_89ab_cdef_0011_2233_4455_6677u128;
    let at = Moment { secs: 1_700_000_000, nanos: 123_000_000 };
    write_str(&mut m, "s", "héllo").unwrap();
    write_uuid(&mut m, "u", id).unwrap();
    write_dt(&mut m, "d", at).unwrap();
    write_bool(&mut m, "b", true).unwrap();
    write_i64(&mut m, "i", i64::MIN).unwrap();
    write_u32(&mut m, "n", u32::MAX).unwrap();
    assert_eq!(read_str(&m, "s").unwrap(), "héllo");
    assert_eq!(read_uuid(&m, "u").unwrap(), id);
    assert_eq!(read_str(&m, "u").unwrap(), "01234567-89ab-cdef-0011-223344556677");
    assert_eq!(read_dt(&m, "d").unwrap(), at);
    assert_eq!(read_str(&m, "d").unwrap(), "2023-11-14T22:13:20.123+00:00");
    assert!(read_bool(&m, "b").unwrap());
    assert_eq!(read_i64(&m, "i").unwrap(), i64::MIN);
    assert_eq!(read_u32(&m, "n").unwrap(), u32::MAX);
}

#[test]
fn every_optional_scalar_is_read_back_or_omitted() {
    let doc = LoroDoc::new();
    let mut m = root(&doc);
    let at = Moment { secs: 0, nanos: 0 };
    write_opt_str(&mut m, "s", Some("x")).unwrap();
    write_opt_uuid(&mut m, "u", Some(7)).unwrap();
    write_opt_dt(&mut m, "d", Some(at)).unwrap();
    write_opt_bool(&mut m, "b", Some(false)).unwrap();
    write_opt_i64(&mut m, "i", Some(-1)).unwrap();
    write_opt_u32(&mut m, "n", Some(0)).unwrap();
    assert_eq!(read_opt_str(&m, "s").unwrap().as_deref(), Some("x"));
    assert_eq!(read_opt_uuid(&m, "u").unwrap(), Some(7));
    assert_eq!(read_opt_dt(&m, "d").unwrap(), Some(at));
    assert_eq!(read_opt_bool(&m, "b").unwrap(), Some(false));
    assert_eq!(read_opt_i64(&m, "i").unwrap(), Some(-1));
    assert_eq!(read_opt_u32(&m, "n").unwrap(), Some(0));
    write_opt_str(&mut m, "s", None).unwrap();
    write_opt_uuid(&mut m, "u", None).unwrap();
    write_opt_dt(&mut m, "d", None).unwrap();
    write_opt_bool(&mut m, "b", None).unwrap();
    write_opt_i64(&mut m, "i", None).unwrap();
    write_opt_u32(&mut m, "n", None).unwrap();
    assert_eq!(read_opt_str(&m, "s").unwrap(), None);
    assert_eq!(read_opt_uuid(&m, "u").unwrap(), None);
    assert_eq!(read_opt_dt(&m, "d").unwrap(), None);
    assert_eq!(read_opt_bool(&m, "b").unwrap(), None);
    assert_eq!(read_opt_i64(&m, "i").unwrap(), None);
    assert_eq!(read_opt_u32(&m, "n").unwrap(), None);
}

#[test]
fn a_value_of_another_kind_is_refused() {
    let doc = LoroDoc::new();
    let mut m = root(&doc);
    write_i64(&mut m, "n", 5).unwrap();
    write_str(&mut m, "s", "not an id").unwrap();
    for outcome in [read_str(&m, "n"), read_str(&m, "absent")] {
        assert!(matches!(outcome, Err(RepoError::Internal(_))));
    }
    assert!(read_bool(&m, "n").is_err());
    assert!(read_opt_bool(&m, "s").is_err());
    assert!(read_uuid(&m, "s").is_err());
    assert!(read_opt_uuid(&m, "s").is_err());
    assert!(read_dt(&m, "s").is_err());
    assert!(read_opt_dt(&m, "s").is_err());
    assert!(read_u32(&m, "s").is_err());
    assert!(read_i64(&m, "s").is_err());
    assert!(read_opt_i64(&m, "s").is_err());
    write_i64(&mut m, "neg", -1).unwrap();
    assert!(read_u32(&m, "neg").is_err());
    assert!(read_opt_u32(&m, "neg").is_err());
}

#[test]
fn a_write_stays_where_it_was_put() {
    let doc = LoroDoc::new();
    let mut m = root(&doc);
    write_i32(&mut m, "a", 1).unwrap();
    write_i32(&mut m, "b", 2).unwrap();
    write_i32(&mut m, "a", 3).unwrap();
    assert_eq!(read_i32(&m, "b").unwrap(), 2);
    assert_eq!(read_i32(&m, "a").unwrap(), 3);
}

#[test]
fn lists_are_read_back() {
    let doc = LoroDoc::new();
    let mut m = root(&doc);
    let list = vec!["one".to_owned(), "two words".to_owned(), String::new()];
    write_string_list(&mut m, "l", &list).unwrap();
    assert_eq!(read_string_list(&m, "l").unwrap(), list);
    write_string_list(&mut m, "e", &Vec::new()).unwrap();
    assert_eq!(read_string_list(&m, "e").unwrap(), Vec::<String>::new());
    write_opt_string_list(&mut m, "o", Some(&list)).unwrap();
    assert_eq!(read_opt_string_list(&m, "o").unwrap(), Some(list));
    write_opt_string_list(&mut m, "o", None).unwrap();
    assert_eq!(read_opt_string_list(&m, "o").unwrap(), None);
}

#[test]
fn a_change_is_one_cut_and_one_insert() {
    assert_eq!(
        diff_ops("hello", "hello!").unwrap(),
        vec![TextOp::Insert { pos: 5, text: "!".to_owned() }]
    );
    assert_eq!(
        diff_ops("hello", ">hello").unwrap(),
        vec![TextOp::Insert { pos: 0, text: ">".to_owned() }]
    );
    assert_eq!(
        diff_ops("hello world", "hello").unwrap(),
        vec![TextOp::Delete { pos: 5, len: 6 }]
    );
    assert_eq!(diff_ops("same", "same").unwrap(), Vec::<TextOp>::new());
    assert_eq!(
        diff_ops("añb", "aéb").unwrap(),
        vec![
            TextOp::Delete { pos: 1, len: 1 },
            TextOp::Insert { pos: 1, text: "é".to_owned() },
        ]
    );
}

#[test]
fn a_diff_leads_from_old_to_new() {
    let texts = ["", "a", "ab", "ba", "aab", "ünï", "ab\nab", "aaaa"];
    for old in texts {
        for new in texts {
            let doc = LoroDoc::new();
            let mut m = root(&doc);
            apply_text_diff(&mut m, "c", "", old).unwrap();
            apply_text_diff(&mut m, "c", old, new).unwrap();
            assert_eq!(read_text(&m, "c").unwrap(), new, "{old:?} -> {new:?}");
        }
    }
}

#[test]
fn an_op_outside_the_text_is_refused() {
    let doc = LoroDoc::new();
    let mut m = root(&doc);
    apply_text_diff(&mut m, "c", "", "abc").unwrap();
    assert!(apply_text_ops(&mut m, "c", &vec![TextOp::Delete { pos: 2, len: 5 }]).is_err());
    assert!(apply_text_ops(
        &mut m,
        "c",
        &vec![TextOp::Insert { pos: 9, text: "x".to_owned() }]
    )
    .is_err());
    assert_eq!(read_text(&m, "c").unwrap(), "abc");
}

#[test]
fn an_omission_is_carried_out_wherever_the_map_takes_deletions() {
    // A map that stands alone always does.
    let mut alone = LoroMap::new();
    write_str(&mut alone, "s", "x").unwrap();
    write_opt_str(&mut alone, "s", None).unwrap();
    assert_eq!(read_opt_str(&alone, "s").unwrap(), None);

    // A detached document takes no edit until it is attached again.
    let doc = LoroDoc::new();
    let mut m = root(&doc);
    write_str(&mut m, "s", "x").unwrap();
    doc.detach();
    assert_eq!(write_opt_str(&mut m, "s", None), Ok(()));
    assert_eq!(read_str(&m, "s").unwrap(), "x");
    assert!(write_str(&mut m, "s", "y").is_err());
    doc.attach();
    assert_eq!(write_opt_str(&mut m, "s", None), Ok(()));
    assert_eq!(read_opt_str(&m, "s").unwrap(), None);
}

#[test]
fn text_is_taken_by_a_map_of_an_editable_document() {
    let doc = LoroDoc::new();
    let mut m = root(&doc);
    let hello = vec![TextOp::Insert { pos: 0, text: "hello world".to_owned() }];
    assert_eq!(apply_text_ops(&mut m, "c", &hello), Ok(()));
    // The ops before the one that does not fit stay applied.
    let ops = vec![
        TextOp::Delete { pos: 5, len: 1 },
        TextOp::Insert { pos: 5, text: "—".to_owned() },
        TextOp::Insert { pos: 99, text: "!".to_owned() },
        TextOp::Delete { pos: 0, len: 1 },
    ];
    assert!(apply_text_ops(&mut m, "c", &ops).is_err());
    assert_eq!(read_text(&m, "c").unwrap(), "hello—world");
    // An empty insertion and an empty deletion are taken too.
    let nothing = vec![
        TextOp::Insert { pos: 11, text: String::new() },
        TextOp::Delete { pos: 99, len: 0 },
    ];
    assert_eq!(apply_text_ops(&mut m, "c", &nothing), Ok(()));
    // Other keys are not disturbed, and scalars are still taken.
    write_str(&mut m, "s", "x").unwrap();
    apply_text_diff(&mut m, "d", "", "other").unwrap();
    assert_eq!(read_text(&m, "c").unwrap(), "hello—world");
    assert_eq!(read_str(&m, "s").unwrap(), "x");
}

#[test]
fn a_map_that_takes_no_text_refuses_it() {
    // One that stands alone; the string of a migrating read is lost there.
    let mut alone = LoroMap::new();
    assert!(text_child(&mut alone, "c").is_err());
    assert!(apply_text_diff(&mut alone, "c", "", "x").is_err());
    write_str(&mut alone, "s", "legacy").unwrap();
    assert!(read_text_with_migration(&mut alone, "s").is_err());
    assert_eq!(read_opt_str(&alone, "s").unwrap(), None);

    // One whose document is closed to edits; nothing changes there.
    let doc = LoroDoc::new();
    let mut m = root(&doc);
    write_str(&mut m, "s", "legacy").unwrap();
    apply_text_diff(&mut m, "c", "", "abc").unwrap();
    doc.detach();
    assert!(text_child(&mut m, "other").is_err());
    assert!(apply_text_diff(&mut m, "c", "abc", "abcd").is_err());
    assert!(read_text_with_migration(&mut m, "s").is_err());
    assert_eq!(read_str(&m, "s").unwrap(), "legacy");
    assert_eq!(read_text(&m, "c").unwrap(), "abc");
    doc.attach();
    assert_eq!(read_text_with_migration(&mut m, "s").unwrap(), "legacy");
    assert_eq!(read_text_with_migration(&mut m, "s").unwrap(), "legacy");
    let bang = vec![TextOp::Insert { pos: 6, text: "!".to_owned() }];
    assert_eq!(apply_text_ops(&mut m, "s", &bang), Ok(()));
    assert_eq!(read_text(&m, "s").unwrap(), "legacy!");
}

#[test]
fn a_deleted_map_takes_no_edits() {
    let doc = LoroDoc::new();
    let parent = root(&doc);
    let mut child = parent.insert_container("child", LoroMap::new()).unwrap();
    write_str(&mut child, "s", "x").unwrap();
    apply_text_diff(&mut child, "c", "", "abc").unwrap();
    parent.delete("child").unwrap();
    assert!(write_str(&mut child, "s", "y").is_err());
    assert!(text_child(&mut child, "d").is_err());
    assert!(apply_text_diff(&mut child, "c", "abc", "abcd").is_err());
}

#[test]
fn a_refusal_tells_the_words_of_the_document() {
    let words = "Edit is not allowed when the doc is in the detached mode.";
    assert_eq!(
        loro_err(LoroError::EditWhenDetached),
        RepoError::Internal(format!("loro: {words}"))
    );
    let missing = LoroError::NotFoundError("x".into());
    assert_eq!(loro_err(missing), RepoError::Internal("loro: Cannot find (x)".to_owned()));
}

#[test]
fn each_key_hands_out_its_own_text_child() {
    let doc = LoroDoc::new();
    let mut m = root(&doc);
    let a = text_child(&mut m, "a").unwrap();
    let b = text_child(&mut m, "b").unwrap();
    assert_ne!(a.id(), b.id());
    let ops = vec![
        TextOp::Insert { pos: 0, text: "abc".to_owned() },
        TextOp::Insert { pos: 99, text: "!".to_owned() },
    ];
    assert!(apply_text_ops(&mut m, "a", &ops).is_err());
    write_str(&mut m, "s", "x").unwrap();
    let again = text_child(&mut m, "a").unwrap();
    assert_eq!(again.id(), a.id());
    assert_eq!(again.to_string(), "abc");
}
