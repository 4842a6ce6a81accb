use architect::auth_ui::assets::{fingerprint, serve, sheet, stylesheet_path, Asset};
use architect::auth_ui::chrome::apps;
use architect::auth_ui::consent::{
    decide, decided, describe_scope, page as consent_page, refusal_uri, ConsentForm, ConsentParams,
    Decided,
};
use architect::auth_ui::device::{
    approve, approved, deny, look_up, normalize, page as device_page, page_checked, page_verified,
    return_here, Checked, DevicePage, DeviceQuery, DeviceVerification,
};
use architect::auth_ui::page::{flash_to, safe_path, settle, sign_in_first, Begin, Flash};
use architect::auth_ui::qr::{svg, QrError};
use architect::auth_ui::sessions::describe_agent;
use architect::auth_ui::slug::slugify;

#[test]
fn the_sheet_carries_the_tokens_the_utilities_and_our_own_rules() {
    let css = sheet();
    assert!(css.contains("--background"), "design tokens");
    assert!(css.contains("@layer utilities"), "compiled utilities");
    assert!(css.contains(".panel"), "this crate's own sheet");
}

#[test]
fn our_own_rules_come_last_so_they_win() {
    let css = sheet();
    let tokens = css.find("--background").expect("tokens");
    let ours = css.find(".panel").expect("ours");
    assert!(tokens < ours, "the design system must not override us");
}

#[test]
fn the_path_names_the_content() {
    let path = stylesheet_path();
    assert!(path.starts_with("/auth/assets/ui-"), "{path}");
    assert!(path.strip_suffix(".css").is_some(), "{path}");
    assert_eq!(path, stylesheet_path());
}

#[test]
fn different_content_is_a_different_url() {
    assert_ne!(fingerprint("a{}"), fingerprint("b{}"));
    assert_ne!(fingerprint(""), fingerprint(" "));
}

#[test]
fn the_fingerprint_is_the_published_hash() {
    assert_eq!(fingerprint(""), 0xcbf2_9ce4_8422_2325);
    assert_eq!(fingerprint("a"), 0xaf63_dc4c_8601_ec8c);
    assert_eq!(fingerprint("foobar"), 0x8594_4171_f739_67e8);
    let path = stylesheet_path();
    assert_eq!(path, format!("/auth/assets/ui-{:016x}.css", fingerprint(&sheet())));
}

#[test]
fn a_linked_sheet_is_served_and_nothing_else_is() {
    let path = stylesheet_path();
    let file = path.strip_prefix("/auth/assets/").unwrap();
    match serve(file) {
        Asset::Sheet { content_type, cache_control, css } => {
            assert_eq!(content_type, "text/css; charset=utf-8");
            assert_eq!(cache_control, "public, max-age=31536000, immutable");
            assert!(css.contains("--background"), "design tokens");
            assert!(css.contains("bg-primary"), "the class the button asks for");
        }
        Asset::NotFound => panic!("the linked sheet is missing"),
    }
    for file in ["ui.css", "../secrets", "ui-.js"] {
        assert_eq!(serve(file), Asset::NotFound, "{file}");
    }
    assert_ne!(serve("ui-0.css"), Asset::NotFound);
}

#[test]
fn the_brand_panel_names_five_apps() {
    let list = apps();
    assert_eq!(list.len(), 5);
    assert_eq!(list[0].name, "Task");
    assert_eq!(list[4].color, "#ff8a2b");
}

fn params(redirect_uri: &str, state: Option<&str>) -> ConsentParams {
    ConsentParams {
        client_id: "task".into(),
        redirect_uri: redirect_uri.into(),
        state: state.map(str::to_owned),
        ..ConsentParams::default()
    }
}

#[test]
fn refusing_goes_back_to_the_client_with_its_state() {
    assert_eq!(
        refusal_uri(&params("https://task.example/cb", Some("xyz"))),
        "https://task.example/cb?error=access_denied&state=xyz"
    );
}

#[test]
fn a_redirect_uri_that_already_has_a_query_keeps_it() {
    assert_eq!(
        refusal_uri(&params("https://task.example/cb?a=1", None)),
        "https://task.example/cb?a=1&error=access_denied"
    );
}

#[test]
fn a_state_that_carries_separators_cannot_break_the_url() {
    let uri = refusal_uri(&params("https://task.example/cb", Some("a&b=c")));
    assert!(uri.ends_with("state=a%26b%3Dc"), "{uri}");
}

#[test]
fn scopes_are_named_and_unknown_ones_are_not_hidden() {
    assert_eq!(describe_scope("email"), "Your email address");
    assert_eq!(describe_scope("forge:github"), "forge:github");
}

#[test]
fn consent_asks_for_the_same_request_again() {
    let form = ConsentForm {
        decision: Some("allow".into()),
        params: ConsentParams {
            nonce: Some("n".into()),
            code_challenge: Some("c".into()),
            scope: Some("openid email".into()),
            ..params("https://task.example/cb", Some("s"))
        },
    };
    match decide(Some("tok".into()), &form) {
        Begin::Ask(request) => {
            assert_eq!(request.session_token, "tok");
            assert_eq!(request.response_type, "code");
            assert_eq!(request.nonce.as_deref(), Some("n"));
            assert_eq!(request.code_challenge.as_deref(), Some("c"));
            assert_eq!(request.scope.as_deref(), Some("openid email"));
            assert_eq!(request.prompt, None);
        }
        Begin::Go(to) => panic!("{to}"),
    }
    assert_eq!(
        decide(None, &form),
        Begin::Go("/login?return_to=%2Faccount%2Fprofile".into())
    );
    let refused = ConsentForm { decision: Some("deny".into()), ..form.clone() };
    assert_eq!(
        decide(Some("tok".into()), &refused),
        Begin::Go("https://task.example/cb?error=access_denied&state=s".into())
    );
    assert_eq!(decided(Ok("there".into())), Decided::Redirect("there".into()));
    assert_eq!(decided(Err("no".into())), Decided::Refused("no".into()));
}

#[test]
fn a_consent_screen_names_the_access_and_carries_the_request() {
    let shown = consent_page(&ConsentParams {
        scope: Some(" openid  forge:github ".into()),
        ..params("https://task.example/cb", Some("s"))
    });
    assert_eq!(shown.heading, "Allow task?");
    assert_eq!(shown.access, vec!["Confirm who you are".to_owned(), "forge:github".to_owned()]);
    assert_eq!(
        shown.fields,
        vec![
            ("client_id", "task".to_owned()),
            ("redirect_uri", "https://task.example/cb".to_owned()),
            ("scope", " openid  forge:github ".to_owned()),
            ("state", "s".to_owned()),
        ]
    );
    assert!(consent_page(&params("https://x/", None)).access.is_empty());
}

#[test]
fn a_code_read_off_a_screen_survives_being_typed() {
    for typed in [
        "WDJB-MJHT",
        "wdjb-mjht",
        "WDJB MJHT",
        " wdjbmjht ",
        "WDJB–MJHT",
    ] {
        assert_eq!(normalize(typed), "WDJBMJHT", "{typed:?}");
    }
}

#[test]
fn nothing_typed_is_nothing() {
    assert_eq!(normalize("   "), "");
    assert_eq!(normalize("---"), "");
}

#[test]
fn a_device_is_confirmed_before_it_is_connected() {
    let q = DeviceQuery { user_code: Some(" ab-12 ".into()), error: None };
    assert_eq!(device_page(Some("t".into()), &q), Begin::Ask("t".into()));
    let back = "/login?return_to=%2Fauth%2Fdevice%3Fuser_code%3D%2520ab-12%2520";
    assert_eq!(device_page(None, &q), Begin::Go(back.into()));
    assert_eq!(page_checked(false, &q), Checked::SignIn(back.into()));
    assert_eq!(page_checked(true, &q), Checked::Verify("AB12".into()));
    let blank = DeviceQuery { user_code: Some("  ".into()), error: Some("e".into()) };
    assert_eq!(
        page_checked(true, &blank),
        Checked::Show(DevicePage::Ask { error: Some("e".into()) })
    );
    assert_eq!(
        page_verified(Ok(DeviceVerification {
            user_code: "AB12".into(),
            client_id: "tv".into(),
            scope: Some("openid  email".into()),
        })),
        DevicePage::Confirm {
            user_code: "AB12".into(),
            client_id: "tv".into(),
            access: Some(vec!["openid".into(), "email".into()]),
        }
    );
    assert_eq!(
        page_verified(Err("gone".into())),
        DevicePage::Ask { error: Some("gone".into()) }
    );
    assert_eq!(look_up(true, "ab-12"), "/auth/device?user_code=AB12");
    assert_eq!(
        look_up(false, "ab-12"),
        "/login?return_to=%2Fauth%2Fdevice%3Fuser_code%3DAB12"
    );
    match approve(Some("t".into()), "ab 12") {
        Begin::Ask(request) => assert_eq!(request.user_code, "AB12"),
        Begin::Go(to) => panic!("{to}"),
    }
    assert_eq!(approved(Ok(())), DevicePage::Connected);
    assert_eq!(deny("ab-12"), "AB12");
    assert_eq!(return_here(&None), "/auth/device");
}

#[test]
fn only_a_same_origin_path_survives() {
    assert_eq!(safe_path(Some("/orgs")), "/orgs");
    assert_eq!(safe_path(Some("/a?b=c&d=e")), "/a?b=c&d=e");
}

#[test]
fn an_open_redirect_is_refused() {
    for hostile in [
        "//evil.example",
        "https://evil.example",
        "javascript:alert(1)",
        "/\\evil.example",
        "/ok\r\nSet-Cookie: a=b",
        "",
        "   ",
    ] {
        assert_eq!(safe_path(Some(hostile)), "/", "{hostile:?} must not survive");
    }
    assert_eq!(safe_path(None), "/");
}

#[test]
fn an_error_wins_over_an_ok() {
    assert_eq!(
        Flash::from_query(Some("saved"), Some("nope")),
        Some(Flash::Error("nope".into()))
    );
}

#[test]
fn an_empty_parameter_is_not_a_message() {
    assert_eq!(Flash::from_query(Some(""), Some("")), None);
    assert_eq!(Flash::from_query(None, None), None);
}

#[test]
fn a_flash_rides_on_the_query() {
    assert_eq!(Flash::from_query(Some("ok"), Some("")), Some(Flash::Success("ok".into())));
    assert_eq!(flash_to("/orgs", &Flash::Success("All done.".into())), "/orgs?ok=All%20done.");
    assert_eq!(flash_to("/orgs?token=x", &Flash::Error("a&b".into())), "/orgs?token=x&error=a%26b");
    assert_eq!(sign_in_first("/orgs?a=b"), "/login?return_to=%2Forgs%3Fa%3Db");
    let fine: Result<(), String> = Ok(());
    assert_eq!(settle("/p", "Saved.", &fine), "/p?ok=Saved.");
    let wrong: Result<(), String> = Err("No.".into());
    assert_eq!(settle("/p", "Saved.", &wrong), "/p?error=No.");
}

#[test]
fn a_kept_path_is_kept_again() {
    for raw in ["/orgs", "//x", " /a b ", "x"] {
        let once = safe_path(Some(raw));
        assert_eq!(safe_path(Some(&once)), once);
    }
}

#[test]
fn an_otpauth_url_encodes_and_carries_its_own_white_ground() {
    let url = "otpauth://totp/FastTrackStudio:ada@example.com\
               ?secret=JBSWY3DPEHPK3PXP&issuer=FastTrackStudio";
    let rendered = svg(url, "Scan this").expect("encode");
    assert!(rendered.starts_with("<svg"));
    assert!(rendered.ends_with("</svg>"));
    assert!(rendered.contains("fill=\"#fff\""));
    assert!(rendered.contains("fill=\"#000\""));
    assert!(rendered.contains("aria-label=\"Scan this\""));
}

#[test]
fn something_far_too_long_is_an_error_not_a_panic() {
    let huge = "a".repeat(10_000);
    assert!(svg(&huge, "x").is_err());
}

#[test]
fn a_code_is_drawn_module_by_module() {
    let code = qrcodegen::QrCode::encode_text("hello", qrcodegen::QrCodeEcc::Medium).unwrap();
    let rendered = svg("hello", "x").unwrap();
    let size = code.size();
    assert!(rendered.contains(&format!("viewBox=\"0 0 {0} {0}\"", size + 8)));
    let mut path = String::new();
    for y in 0..size {
        for x in 0..size {
            if code.get_module(x, y) {
                path.push_str(&format!("M{} {}h1v1h-1z", x + 4, y + 4));
            }
        }
    }
    assert!(rendered.contains(&format!("<path d=\"{path}\" fill=\"#000\"/>")));
    assert_ne!(svg("hello", "x"), svg("world", "x"));
}

#[test]
fn the_longest_texts_are_told_apart_by_the_encoder() {
    assert!(svg(&"7".repeat(5596), "x").is_ok());
    assert_eq!(svg(&"7".repeat(5597), "x"), Err(QrError::TooLong));
    assert!(svg(&"a".repeat(2331), "x").is_ok());
    assert_eq!(svg(&"a".repeat(2332), "x"), Err(QrError::TooLong));
    assert_eq!(
        QrError::TooLong.to_string(),
        "the value is too long to encode as a QR code"
    );
}

#[test]
fn a_browser_is_named_with_its_platform() {
    let chrome_on_mac = "Mozilla/5.0 (Macintosh; Intel Mac OS X 10_15_7) AppleWebKit/537.36 \
                         (KHTML, like Gecko) Chrome/126.0.0.0 Safari/537.36";
    assert_eq!(describe_agent(Some(chrome_on_mac)), "Chrome on macOS");
}

#[test]
fn the_more_specific_browser_wins() {
    let edge = "Mozilla/5.0 (Windows NT 10.0; Win64; x64) AppleWebKit/537.36 (KHTML, like \
                Gecko) Chrome/126.0.0.0 Safari/537.36 Edg/126.0.0.0";
    assert_eq!(describe_agent(Some(edge)), "Edge on Windows");
}

#[test]
fn something_that_is_not_a_browser_shows_what_it_said() {
    assert_eq!(describe_agent(Some("task-cli/0.4.1")), "task-cli/0.4.1");
}

#[test]
fn a_missing_agent_does_not_render_an_empty_cell() {
    assert_eq!(describe_agent(None), "Unknown device");
    assert_eq!(describe_agent(Some("   ")), "Unknown device");
}

#[test]
fn a_long_agent_is_cut_and_half_a_name_is_still_one() {
    let long = "x".repeat(50);
    assert_eq!(describe_agent(Some(&long)), "x".repeat(40));
    assert_eq!(describe_agent(Some("Firefox/1")), "Firefox");
    assert_eq!(describe_agent(Some("some Linux thing")), "Linux");
}

#[test]
fn a_name_becomes_a_slug_without_doubled_dashes() {
    assert_eq!(slugify("Acme Records, Inc."), "acme-records-inc");
    assert_eq!(slugify("  FastTrack  Studio  "), "fasttrack-studio");
}

#[test]
fn a_slug_never_starts_or_ends_with_a_dash() {
    assert_eq!(slugify("…Ada!"), "ada");
    assert_eq!(slugify("---"), "");
}

#[test]
fn non_ascii_does_not_survive_into_a_url() {
    assert_eq!(slugify("Café Ædifice"), "caf-difice");
}

#[test]
fn the_slug_of_a_slug_is_the_slug() {
    for name in ["Acme Records, Inc.", "…Ada!", "a--B", ""] {
        let once = slugify(name);
        assert_eq!(slugify(&once), once);
    }
}

#[test]
fn the_stylesheet_is_served_as_css_that_can_be_cached_forever() {
    let path = stylesheet_path();
    match serve(path.strip_prefix("/auth/assets/").unwrap()) {
        Asset::Sheet { content_type, cache_control, css } => {
            assert_eq!(content_type, "text/css; charset=utf-8");
            assert_eq!(cache_control, "public, max-age=31536000, immutable");
            assert!(css.contains("--background"), "design tokens");
            assert!(css.contains("bg-primary"), "the class a button asks for");
        }
        Asset::NotFound => panic!("{path}"),
    }
}

#[test]
fn anything_but_the_stylesheet_is_a_404() {
    for file in ["ui.css", "../secrets", "secrets", "ui-.js"] {
        assert_eq!(serve(file), Asset::NotFound, "{file}");
    }
}
