use architect::auth::expiry::Moment;
use architect::auth_ui::cookies::cookie;
use architect::auth_ui::engine::{AuthUser, CookiePolicy};
use architect::auth_ui::last_login::{describe, recall, remember as remember_method, HintCookie};
use architect::auth_ui::multi_session::{
    clear, forget, is_token_shaped, remember, roster, roster_cookie_name, MAX_ACCOUNTS,
};

fn user(metadata: &str) -> AuthUser {
    AuthUser {
        id: 1,
        email: Some("ada@example.com".into()),
        name: None,
        email_verified: true,
        image: None,
        username: None,
        two_factor_enabled: false,
        role: None,
        banned: false,
        ban_reason: None,
        metadata_json: metadata.to_owned(),
        created_at: Moment { secs: 0, nanos: 0 },
    }
}

fn hint() -> HintCookie {
    HintCookie {
        name: "better-auth.last_used_login_method".into(),
        max_age_seconds: 2_592_000,
    }
}

#[test]
fn a_recorded_method_becomes_a_cookie() {
    let cookie =
        remember_method(&user(r#"{"last_login_method":"github"}"#), &hint()).expect("a cookie");
    assert!(cookie.contains("=github;"), "{cookie}");
    assert!(cookie.contains("Path=/"), "{cookie}");
    assert!(cookie.contains("SameSite=Lax"), "{cookie}");
}

#[test]
fn the_hint_is_written_out_whole() {
    assert_eq!(
        remember_method(&user(r#"{"last_login_method":"magic-link"}"#), &hint()).as_deref(),
        Some(
            "better-auth.last_used_login_method=magic-link; Path=/; Max-Age=2592000; SameSite=Lax"
        )
    );
}

#[test]
fn nothing_recorded_means_no_cookie() {
    assert!(remember_method(&user("{}"), &hint()).is_none());
    assert!(remember_method(&user("not json"), &hint()).is_none());
}

#[test]
fn a_method_that_is_no_text_is_none() {
    assert!(remember_method(&user(r#"{"last_login_method":7}"#), &hint()).is_none());
    assert!(remember_method(&user(r#"["last_login_method"]"#), &hint()).is_none());
}

#[test]
fn a_hostile_provider_name_cannot_add_cookie_attributes() {
    let cookie = remember_method(
        &user(r#"{"last_login_method":"evil; Domain=attacker.example"}"#),
        &hint(),
    )
    .expect("a cookie");
    assert!(!cookie.contains("attacker.example"), "{cookie}");
    assert!(cookie.contains("=evilDomainattackerexample;"), "{cookie}");
}

#[test]
fn the_cookie_reads_back_out_of_a_header() {
    let headers =
        vec!["other=1; better-auth.last_used_login_method=passkey; x=2".to_owned()];
    assert_eq!(recall(&headers, &hint()).as_deref(), Some("passkey"));
}

#[test]
fn no_cookie_is_no_hint() {
    assert_eq!(recall(&Vec::new(), &hint()), None);
    let headers = vec!["unrelated=1".to_owned()];
    assert_eq!(recall(&headers, &hint()), None);
}

#[test]
fn an_empty_hint_is_none() {
    let headers = vec!["better-auth.last_used_login_method=".to_owned()];
    assert_eq!(recall(&headers, &hint()), None);
}

#[test]
fn the_first_cookie_of_a_name_is_the_one_that_counts() {
    let headers = vec!["a=1; b=2".to_owned(), "b=3; c = 4 ".to_owned()];
    assert_eq!(cookie(&headers, "b").as_deref(), Some("2"));
    assert_eq!(cookie(&headers, "c ").as_deref(), Some(" 4"));
    assert_eq!(cookie(&headers, "c"), None);
    assert_eq!(cookie(&vec!["x=a=b".to_owned()], "x").as_deref(), Some("a=b"));
}

#[test]
fn every_method_the_engine_records_has_words_for_it() {
    for method in [
        "email",
        "username",
        "passkey",
        "magic-link",
        "email-otp",
        "phone-number",
        "siwe",
        "anonymous",
        "github",
        "google",
        "tone3000",
    ] {
        assert_ne!(
            describe(method),
            format!("with {method}"),
            "{method} has no wording of its own"
        );
    }
    assert_eq!(describe("okta"), "with okta");
}

fn config() -> CookiePolicy {
    CookiePolicy {
        name: "sess".into(),
        path: "/".into(),
        secure: true,
        max_age_seconds: None,
    }
}

fn with_roster(value: &str) -> Vec<String> {
    vec![format!("sess=current; sess.accounts={value}")]
}

#[test]
fn a_new_token_goes_to_the_front_and_is_not_duplicated() {
    let set = remember(&config(), &with_roster("bbb,aaa"), "aaa");
    assert!(set.starts_with("sess.accounts=aaa,bbb;"), "{set}");
}

#[test]
fn the_roster_is_bounded() {
    let existing = (0..MAX_ACCOUNTS)
        .map(|i| format!("token{i}"))
        .collect::<Vec<_>>()
        .join(",");
    let cookie = remember(&config(), &with_roster(&existing), "newest");
    let value = cookie
        .split_once('=')
        .and_then(|(_, rest)| rest.split(';').next())
        .unwrap_or_default();
    assert_eq!(value.split(',').count(), MAX_ACCOUNTS, "{cookie}");
    assert!(value.starts_with("newest,"), "{cookie}");
    assert!(!value.contains(&format!("token{}", MAX_ACCOUNTS - 1)), "{cookie}");
}

#[test]
fn signing_out_removes_only_that_one() {
    let set = forget(&config(), &with_roster("aaa,bbb,ccc"), "bbb");
    assert!(set.starts_with("sess.accounts=aaa,ccc;"), "{set}");
}

#[test]
fn an_emptied_roster_is_asked_to_go_away() {
    let set = forget(&config(), &with_roster("aaa"), "aaa");
    assert!(set.contains("Max-Age=0"), "{set}");
}

#[test]
fn a_value_that_is_not_token_shaped_is_dropped_on_the_way_in() {
    let tokens = roster(&with_roster("good,bad value,also\"bad,fine"), "sess");
    assert_eq!(tokens, vec!["good".to_owned(), "fine".to_owned()]);
    let tokens = roster(&with_roster("good,worse; Domain=evil.example"), "sess");
    assert_eq!(tokens, vec!["good".to_owned(), "worse".to_owned()]);
}

#[test]
fn no_cookie_is_an_empty_roster() {
    assert!(roster(&Vec::new(), "sess").is_empty());
}

#[test]
fn the_roster_cookie_is_written_out_whole() {
    assert_eq!(roster_cookie_name("sess"), "sess.accounts");
    assert_eq!(
        remember(&config(), &Vec::new(), "aaa"),
        "sess.accounts=aaa; Path=/; Max-Age=2592000; SameSite=Lax; HttpOnly; Secure"
    );
    let plain = CookiePolicy { secure: false, max_age_seconds: Some(60), ..config() };
    assert_eq!(
        remember(&plain, &Vec::new(), "aaa"),
        "sess.accounts=aaa; Path=/; Max-Age=60; SameSite=Lax; HttpOnly"
    );
    assert_eq!(
        clear(&plain),
        "sess.accounts=; Path=/; Max-Age=0; SameSite=Lax; HttpOnly"
    );
}

#[test]
fn a_written_roster_is_read_back() {
    let mut headers: Vec<String> = Vec::new();
    for token in ["one", "two", "three_3", "fo-ur"] {
        let set = remember(&config(), &headers, token);
        headers = vec![set.split(';').next().unwrap().to_owned()];
    }
    assert_eq!(
        roster(&headers, "sess"),
        vec!["fo-ur".to_owned(), "three_3".to_owned(), "two".to_owned(), "one".to_owned()]
    );
}

#[test]
fn a_token_is_base64url_and_nothing_else() {
    assert!(is_token_shaped("aZ09-_"));
    assert!(!is_token_shaped(""));
    assert!(!is_token_shaped("a b"));
    assert!(!is_token_shaped("é"));
}
