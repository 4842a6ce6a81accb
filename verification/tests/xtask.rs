use architect::xtask::fleet::{
    dependency_key, is_owned, repoint, resolve_manifest, run as bump_fleet, Manifest, Place,
};
use architect::xtask::git::{
    ancestor_answer, describe_tag, git_failed, release_names, release_tags, Tag, Version,
};
use architect::xtask::mirror::{accept, conclude, request, Fetched, TOKEN_VAR};
use architect::xtask::scaffold::{feature_new, is_acceptable, to_pascal};
use architect::xtask::tags::{run as guard, suggest_placement, truncate, violations};

#[test]
fn recognises_the_crates_this_repo_publishes() {
    assert!(is_owned("architect"));
    assert!(is_owned("architect-ui"));
    assert!(is_owned("architect-story-parity"));
    assert!(is_owned("auth"));
    assert!(is_owned("auth-proto"));
    assert!(is_owned("crdt-seaorm"));
    assert!(!is_owned("authors"));
    assert!(!is_owned("architecture"));
    assert!(!is_owned("serde"));
}

#[test]
fn rewrites_tag_rev_and_branch_alike() {
    let tagged = r#"architect = { git = "https://x/architect", tag = "v0.7.1" }"#;
    assert_eq!(
        repoint(tagged, "v0.9.0").unwrap(),
        r#"architect = { git = "https://x/architect", tag = "v0.9.0" }"#
    );
    let revved = r#"auth = { git = "https://x/architect", rev = "5e4bb82" }"#;
    assert_eq!(
        repoint(revved, "v0.9.0").unwrap(),
        r#"auth = { git = "https://x/architect", tag = "v0.9.0" }"#
    );
    let featured =
        r#"architect = { git = "https://x/architect", tag = "v0.7.1", features = ["iroh"] }"#;
    assert_eq!(
        repoint(featured, "v0.9.0").unwrap(),
        r#"architect = { git = "https://x/architect", tag = "v0.9.0", features = ["iroh"] }"#
    );
    assert!(repoint(r#"serde = "1.0""#, "v0.9.0").is_none());
}

#[test]
fn reads_keys_but_not_comments_or_headers() {
    assert_eq!(
        dependency_key(r#"architect = { git = "…" }"#).as_deref(),
        Some("architect")
    );
    assert_eq!(dependency_key("  auth-db.workspace = true"), None);
    assert_eq!(dependency_key("# architect = { … }"), None);
    assert_eq!(dependency_key("[workspace.dependencies]"), None);
}

#[test]
fn parses_and_orders_release_tags() {
    assert_eq!(Version::parse("v0.7.1"), Some(Version(0, 7, 1)));
    assert_eq!(Version::parse("v1.10.0"), Some(Version(1, 10, 0)));
    assert!(Version::parse("pre-phon-base").is_none());
    assert!(Version::parse("v0.7").is_none());
    assert!(Version::parse("v0.7.1.2").is_none());
    assert!(Version::parse("v0.10.0").unwrap() > Version::parse("v0.9.0").unwrap());
    assert!(Version::parse("v0.0.2").unwrap() < Version::parse("v0.2.0").unwrap());
}

#[test]
fn the_token_variable_is_the_one_the_help_text_names() {
    assert_eq!(TOKEN_VAR, "AUTH_ADMIN_TOKEN");
}

fn tag(name: &str) -> Tag {
    Tag {
        name: name.to_owned(),
        commit: format!("c-{name}"),
        date: "2024-01-01".to_owned(),
        subject: "s".to_owned(),
    }
}

#[test]
fn a_version_is_parsed_back_from_how_it_is_written() {
    for v in [Version(0, 0, 0), Version(1, 20, 300), Version(u64::MAX, 0, 7)] {
        assert_eq!(Version::parse(&v.display()), Some(v));
    }
    assert_eq!(Version(0, 7, 1).display(), "v0.7.1");
    assert!(Version(0, 9, 0).is_below(&Version(0, 10, 0)));
    assert!(!Version(1, 0, 0).is_below(&Version(1, 0, 0)));
    assert_eq!(Version::parse("v+1.02.3"), Some(Version(1, 2, 3)));
    assert_eq!(Version::parse("v-1.2.3"), None);
    assert_eq!(Version::parse("v18446744073709551616.0.0"), None);
}

#[test]
fn release_tags_ascend_by_version() {
    assert_eq!(
        release_names("v0.9.0\nnightly\n v0.10.0 \n\nv1\n"),
        vec!["v0.9.0".to_owned(), "v0.10.0".to_owned()]
    );
    let sorted = release_tags(vec![tag("v0.10.0"), tag("old"), tag("v0.9.0"), tag("v0.0.2")]);
    let names: Vec<&str> = sorted.iter().map(|t| t.name.as_str()).collect();
    assert_eq!(names, vec!["v0.0.2", "v0.9.0", "v0.10.0"]);
}

#[test]
fn git_answers_become_a_tag() {
    let described = describe_tag("v1.0.0", " abc\n", "2024-05-01\u{1f}Cut it\n");
    assert_eq!(
        described,
        Tag {
            name: "v1.0.0".into(),
            commit: "abc".into(),
            date: "2024-05-01".into(),
            subject: "Cut it".into(),
        }
    );
    assert_eq!(describe_tag("v1.0.0", "a", "just a date").subject, "");
    assert_eq!(ancestor_answer(Some(0), "a", "b", ""), Ok(true));
    assert_eq!(ancestor_answer(Some(1), "a", "b", ""), Ok(false));
    assert_eq!(
        ancestor_answer(Some(128), "a", "b", " bad object\n"),
        Err("git merge-base --is-ancestor a b: bad object".to_owned())
    );
    assert!(ancestor_answer(None, "a", "b", "").is_err());
    assert_eq!(git_failed("log -1", "oops\n"), "`git log -1` failed: oops");
}

#[test]
fn an_excuse_covers_no_other_tag() {
    let tags = vec![tag("v0.0.1"), tag("v0.0.2"), tag("v0.1.0")];
    let table = vec![
        vec![true, true, false],
        vec![false, true, false],
        vec![false, false, true],
    ];
    assert_eq!(violations(&tags, &table), vec![(0, 2)]);
    let told = guard(false, &tags, &table);
    assert!(told.printed.starts_with("grandfathered: v0.0.2 — "), "{}", told.printed);
    let words = told.result.unwrap_err();
    assert!(words.contains("v0.0.1 is numbered below v0.1.0"), "{words}");
    assert!(!words.contains("v0.0.2 is numbered"), "{words}");
    // Only the closest tag is named where several are out of order with one.
    let plain = vec![tag("v1.0.0"), tag("v1.1.0"), tag("v1.2.0")];
    assert_eq!(violations(&plain, &table), vec![(1, 2)]);
}

#[test]
fn tags_in_order_pass_and_tags_out_of_order_do_not() {
    let tags = vec![tag("v0.1.0"), tag("v0.2.0"), tag("v0.3.0")];
    let line = vec![
        vec![true, true, true],
        vec![false, true, true],
        vec![false, false, true],
    ];
    assert!(violations(&tags, &line).is_empty());
    let good = guard(false, &tags, &line);
    assert!(good.result.is_ok());
    assert_eq!(good.printed, "ok: 2 tag transition(s) are monotonic in history\n");
    let astray = vec![
        vec![true, true, true],
        vec![false, true, false],
        vec![false, false, true],
    ];
    let broken = violations(&tags, &astray);
    assert_eq!(broken, vec![(1, 2)]);
    let placed = suggest_placement(&tags, &tags[1], &vec![true, true, false]);
    assert_eq!(placed.as_deref(), Some("v0.1.0"));
    let bad = guard(false, &tags, &astray);
    let words = bad.result.unwrap_err();
    assert!(words.contains("v0.2.0 is numbered below v0.3.0"), "{words}");
    assert!(words.contains("really sits just after `v0.1.0`"), "{words}");
    let none = guard(true, &Vec::new(), &Vec::new());
    assert_eq!(none.printed, "no `vX.Y.Z` release tags found\n");
    let old = vec![tag("v0.0.2"), tag("v0.1.0")];
    let excused = guard(false, &old, &vec![vec![true, false], vec![false, true]]);
    assert!(excused.result.is_ok());
    assert!(excused.printed.starts_with("grandfathered: v0.0.2 — "), "{}", excused.printed);
    assert_eq!(truncate("hello", 10), "hello");
    assert!(truncate("hello world", 5).chars().count() <= 6);
}

const MANIFEST: &str = r#"[dependencies]
architect = { git = "https://github.com/FastTrackStudios/architect", tag = "v0.7.1" }
auth = { git = "https://github.com/FastTrackStudios/architect", rev = "5e4bb82" }
serde = "1"
other = { git = "https://example.com/architect", tag = "v1" }
"#;

#[test]
fn a_manifest_is_repointed_line_by_line() {
    let bump = bump_fleet("Cargo.toml", MANIFEST, "v0.9.0", false).unwrap();
    let text = bump.text.unwrap();
    assert!(text.contains(r#"architect", tag = "v0.9.0" }"#), "{text}");
    assert!(!text.contains("rev ="), "{text}");
    assert!(text.contains("serde = \"1\"\n"), "{text}");
    assert!(text.ends_with('\n'));
    assert!(bump.concluding.starts_with("2 line(s) repointed to v0.9.0."), "{}", bump.concluding);
    let dry = bump_fleet("Cargo.toml", MANIFEST, "v0.9.0", true).unwrap();
    assert!(dry.text.is_none());
    let again = bump_fleet("Cargo.toml", &text, "v0.9.0", false).unwrap();
    assert!(again.text.is_none());
    let stuck = r#"architect = { git = "https://github.com/FastTrackStudios/architect" }"#;
    assert!(bump_fleet("Cargo.toml", stuck, "v0.9.0", false).is_err());
}

#[test]
fn a_manifest_is_found_or_missed() {
    assert_eq!(
        resolve_manifest("d", Place::Directory { holds_manifest: true }),
        Ok(Manifest::InDirectory)
    );
    assert_eq!(
        resolve_manifest("d", Place::Directory { holds_manifest: false }),
        Err("no Cargo.toml in d".to_owned())
    );
    assert_eq!(resolve_manifest("f", Place::File), Ok(Manifest::Given));
    assert_eq!(resolve_manifest("x", Place::Nothing), Err("no such path: x".to_owned()));
}

#[test]
fn only_a_snapshot_is_written() {
    let ask = request("https://auth.example/", Some("tok"), true).unwrap();
    assert_eq!(ask.url, "https://auth.example/admin/snapshot?redact_emails=true");
    assert_eq!(ask.header, "authorization: Bearer tok");
    assert!(request("https://auth.example", None, false)
        .unwrap_err()
        .starts_with("set AUTH_ADMIN_TOKEN to"));
    let fine = Fetched {
        succeeded: true,
        status: "exit status: 0",
        body: r#"{"users":[],"organizations":[]}"#,
        complaints: "",
    };
    assert_eq!(accept("u", &fine), Ok(()));
    let refused = Fetched { body: r#"{"error":"no"}"#, ..fine };
    assert!(accept("u", &refused).unwrap_err().contains("did not answer with a snapshot"));
    let failed = Fetched {
        succeeded: false,
        status: "exit status: 22",
        body: "",
        complaints: " curl: (22)\n",
    };
    assert_eq!(
        accept("u", &failed),
        Err("fetching u: exit status: 22\n  curl: (22)".to_owned())
    );
    assert!(conclude("o.json", 12).starts_with("wrote o.json (12 bytes)"));
}

#[test]
fn a_feature_is_scaffolded_from_its_name() {
    assert_eq!(to_pascal("tour_dates"), "TourDates");
    assert!(is_acceptable("tour-dates"));
    assert!(!is_acceptable("Tour"));
    assert!(!is_acceptable(""));
    let files = feature_new("tour-dates", "features/tour-dates", false).unwrap();
    let paths: Vec<&str> = files.iter().map(|f| f.path.as_str()).collect();
    assert_eq!(
        paths,
        vec![
            "tour-dates-proto/Cargo.toml",
            "tour-dates-proto/src/lib.rs",
            "tour-dates-memory/Cargo.toml",
            "tour-dates-memory/src/lib.rs",
        ]
    );
    assert!(files[0].contents.contains("name = \"tour-dates-proto\""));
    assert!(files[1].contents.contains("TourDatesError"));
    assert!(files.iter().all(|f| !f.contents.contains("$pascal$") && !f.contents.contains("$name$")));
    assert_eq!(
        feature_new("tour-dates", "features/tour-dates", true),
        Err("features/tour-dates already exists".to_owned())
    );
    assert_eq!(
        feature_new("Bad \"name\"", "x", false),
        Err("feature names are lowercase kebab-case crate names (`inventory`, `tour-dates`), got \"Bad \\\"name\\\"\"".to_owned())
    );
}

#[test]
fn the_last_tag_wins() {
    let line = r#"  architect = { git = "https://github.com/FastTrackStudios/architect", rev = "abc" }"#;
    let first = repoint(line, "v0.8.0").unwrap();
    assert_eq!(repoint(&first, "v0.9.0"), repoint(line, "v0.9.0"));
    assert_ne!(first, repoint(line, "v0.9.0").unwrap());
}

#[test]
fn a_bump_touches_our_lines_alone() {
    let ours = r#"architect = { git = "https://github.com/FastTrackStudios/architect", tag = "v0.1.0" }"#;
    let manifest = format!("[dependencies]\r\nserde = \"1\"  \n  {ours}  \n\nlast = 1");
    let text = bump_fleet("Cargo.toml", &manifest, "v0.9.0", false).unwrap().text.unwrap();
    let bumped = ours.replace("v0.1.0", "v0.9.0");
    assert_eq!(text, format!("[dependencies]\nserde = \"1\"  \n  {bumped}\n\nlast = 1"));
    let again = bump_fleet("Cargo.toml", &text, "v0.9.0", false).unwrap();
    assert_eq!(again.text, None);
    assert!(again.printed.contains("already on v0.9.0"), "{}", again.printed);
}
