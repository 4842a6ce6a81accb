use architect::auth::expiry::Moment;
use architect::auth_ui::accounts::{
    leave, leave_all, left_all, left_one, page as accounts_page, page_listed as accounts_listed,
    switch, switched, DeviceSession,
};
use architect::auth_ui::admin::{
    admin_cookie_name, ban, impersonated, impersonation_notice, parked_token, set_role, stopped,
    users_authorized, users_page, AdminCommand, ListedUsers, UserForm, UsersQuery, UsersView,
};
use architect::auth_ui::api_keys::{
    create as create_key, created, lay_out, page_listed as keys_listed, revoked, rows, ApiKey,
    CreateForm, KeyCommand,
};
use architect::auth_ui::dates::{count, expires_after};
use architect::auth_ui::engine::{AuthUser, CookiePolicy, SessionBundle, SessionInfo};
use architect::auth_ui::guest::{is_guest, session_is_guest, started, upgrade, upgraded, UpgradeForm};
use architect::auth_ui::last_login::HintCookie;
use architect::auth_ui::login::{
    client_ip, code_page, code_sent, code_verified, link_sent, magic_callback, magic_verified,
    send_code, send_link, verify_code, CodeForm, Landed, LoginQuery, MagicQuery, NotSent, SendForm,
    VerifiedOtp,
};
use architect::auth_ui::mailer::{log_only, LoginMailer, Message};
use architect::auth_ui::page::{Begin, Flash, Reply};
use architect::auth_ui::passkeys::{
    begin_registration, begin_sign_in, page_listed as passkeys_listed, sign_in_completed,
    FinishSignIn, Passkey, PasskeyCommand, PasskeyReply,
};
use architect::auth_ui::phone::{
    claimed, code_sent as phone_sent, page_shown as phone_page, verified as phone_verified, verify,
    Number, PhoneCommand, PhoneQuery,
};
use architect::auth_ui::profile::{
    change_password, page_shown as profile_page, save, saved, PasswordForm, ProfileCommand,
    ProfileForm,
};
use architect::auth_ui::sessions::{page_listed as sessions_listed, revoke_others, SessionCommand};
use architect::auth_ui::settings::Nav;
use architect::auth_ui::state::UiState;
use architect::auth_ui::two_factor::{
    challenge, confirm, enroll, enrolled, page_shown as factor_page, verified, Enrollment,
    FactorCommand,
};
use architect::auth_ui::views::{Organization, OrgBundle};
use architect::auth_ui::wallet::{begin as wallet_begin, completed, compose, WalletReply};

const DAY: i64 = 86_400;

fn at(days: i64) -> Moment {
    Moment { secs: days * DAY + 3_661, nanos: 0 }
}

fn user(id: u128, name: Option<&str>) -> AuthUser {
    AuthUser {
        id,
        email: Some(format!("u{id}@example.com")),
        name: name.map(str::to_owned),
        email_verified: true,
        image: None,
        username: Some(format!("user{id}")),
        two_factor_enabled: false,
        role: None,
        banned: false,
        ban_reason: None,
        metadata_json: r#"{"last_login_method":"email-otp"}"#.to_owned(),
        created_at: at(0),
    }
}

fn session(id: u128, active: bool) -> SessionInfo {
    SessionInfo {
        id,
        active,
        impersonated_by: None,
        ip_address: None,
        user_agent: Some("task-cli/1".into()),
        created_at: at(1),
        expires_at: at(2),
    }
}

fn bundle(active: bool) -> SessionBundle {
    SessionBundle { user: user(1, Some("Ada")), session: session(9, active), token: "tok".into() }
}

fn policy() -> CookiePolicy {
    CookiePolicy { name: "sess".into(), path: "/".into(), secure: false, max_age_seconds: None }
}

fn hint() -> HintCookie {
    HintCookie { name: "hint".into(), max_age_seconds: 60 }
}

fn headers(roster: &str) -> Vec<String> {
    vec![format!("sess=cur; sess.accounts={roster}")]
}

fn remembered() -> Vec<String> {
    vec![
        "hint=email-otp; Path=/; Max-Age=60; SameSite=Lax".to_owned(),
        "sess.accounts=tok; Path=/; Max-Age=2592000; SameSite=Lax; HttpOnly".to_owned(),
    ]
}

// ── Accounts ─────────────────────────────────────────────────────────

#[test]
fn the_current_account_is_on_its_own_page() {
    assert_eq!(
        accounts_page(Some("cur".into()), &policy(), &headers("aaa,bbb")),
        Begin::Ask(vec!["cur".to_owned(), "aaa".to_owned(), "bbb".to_owned()])
    );
    assert_eq!(
        accounts_page(Some("bbb".into()), &policy(), &headers("aaa,bbb")),
        Begin::Ask(vec!["aaa".to_owned(), "bbb".to_owned()])
    );
    assert_eq!(
        accounts_page(None, &policy(), &headers("")),
        Begin::Go("/login?return_to=%2Faccount%2Fswitch".into())
    );
    let view = accounts_listed(
        "a",
        Ok(vec![
            DeviceSession { token: "a".into(), user: user(1, Some(" ")) },
            DeviceSession { token: "b".into(), user: AuthUser { username: None, ..user(2, None) } },
        ]),
        &None,
        &None,
    )
    .unwrap();
    assert_eq!(view.rows[0].name, "user1");
    assert!(view.rows[0].current && !view.rows[1].current);
    assert_eq!(view.rows[1].name, "Unnamed");
}

#[test]
fn only_a_held_token_can_be_switched_to() {
    assert_eq!(
        switch(true, "bbb".into(), &policy(), &headers("aaa,bbb")),
        Begin::Ask("bbb".into())
    );
    assert_eq!(
        switch(true, "zzz".into(), &policy(), &headers("aaa,bbb")),
        Begin::Go("/account/switch?error=That%20account%20is%20not%20signed%20in%20here.".into())
    );
    let there = switched(true, "bbb".into(), &policy(), &headers("aaa,bbb"));
    assert_eq!(there.session.as_deref(), Some("bbb"));
    assert!(there.cookies[0].starts_with("sess.accounts=bbb,aaa;"), "{:?}", there.cookies);
    let gone = switched(false, "bbb".into(), &policy(), &headers("aaa,bbb"));
    assert_eq!(gone.session, None);
    assert!(gone.cookies[0].starts_with("sess.accounts=aaa;"), "{:?}", gone.cookies);
}

#[test]
fn leaving_one_promotes_what_is_left() {
    assert_eq!(leave("aaa".into(), &policy(), &headers("aaa,bbb")), Begin::Ask("aaa".into()));
    let on = left_one("aaa", &policy(), &headers("aaa,bbb"));
    assert_eq!(on.session.as_deref(), Some("bbb"));
    assert_eq!(on.location, "/account/switch");
    let out = left_one("aaa", &policy(), &headers("aaa"));
    assert_eq!(out.session.as_deref(), Some(""));
    assert_eq!(out.location, "/login");
    assert_eq!(
        leave_all(Some("cur".into()), &policy(), &headers("aaa,bbb")),
        vec!["aaa".to_owned(), "bbb".to_owned(), "cur".to_owned()]
    );
    assert!(left_all(&policy()).cookies[0].contains("Max-Age=0"));
}

// ── The operator's screen ────────────────────────────────────────────

fn listed(offset: usize, total: usize, shown: usize) -> UsersView {
    let users = (0..shown as u128).map(|i| user(i, Some("N"))).collect();
    users_page(
        0,
        Ok(ListedUsers { users, total }),
        &Ok(SessionInfo { impersonated_by: Some(4), ..session(1, true) }),
        &UsersQuery { offset: Some(offset), ok: None, error: None },
    )
    .unwrap()
}

#[test]
fn the_list_pages_forward_and_back() {
    let first = listed(0, 60, 25).lay_out();
    assert_eq!(first.sub, "60 account(s).");
    assert_eq!(first.previous, None);
    assert_eq!(first.next.as_deref(), Some("/admin/users?offset=25"));
    assert!(first.impersonating);
    let second = listed(25, 60, 25).lay_out();
    assert_eq!(second.previous.as_deref(), Some("/admin/users?offset=0"));
    assert_eq!(second.next.as_deref(), Some("/admin/users?offset=50"));
    let last = listed(50, 60, 10).lay_out();
    assert_eq!(last.next, None);
    assert_eq!(listed(7, 60, 25).lay_out().previous.as_deref(), Some("/admin/users?offset=0"));
}

#[test]
fn nobody_is_offered_to_act_on_themselves() {
    let page = listed(0, 2, 2).lay_out();
    assert!(page.lines[0].row.is_you);
    assert!(!page.lines[0].bannable && !page.lines[0].deletable && !page.lines[0].impersonable);
    assert!(page.lines[1].bannable && page.lines[1].deletable && page.lines[1].impersonable);
    assert_eq!(page.lines[0].row.created, "1970-01-01");
    assert_eq!(page.lines[1].row.role, "user");
}

#[test]
fn a_page_is_forbidden_to_anybody_else() {
    let q = UsersQuery::default();
    assert_eq!(users_authorized("t".into(), &Err("no".into()), &q), None);
    assert_eq!(
        users_authorized("t".into(), &Ok(user(0, None)), &q),
        Some(AdminCommand::ListUsers { session_token: "t".into(), offset: 0, limit: 25 })
    );
    assert_eq!(users_page(0, Err("no".into()), &Err("no".into()), &q), None);
}

#[test]
fn an_ordinary_role_is_no_role() {
    let form = |role: Option<&str>| UserForm {
        user_id: 3,
        role: role.map(str::to_owned),
        reason: Some("  ".into()),
    };
    let role_of = |role: Option<&str>| match set_role(Some("t".into()), &form(role)) {
        Begin::Ask(AdminCommand::SetUserRole { role, .. }) => role,
        other => panic!("{other:?}"),
    };
    assert_eq!(role_of(None), None);
    assert_eq!(role_of(Some(" user ")), None);
    assert_eq!(role_of(Some("admin")).as_deref(), Some("admin"));
    match ban(Some("t".into()), &form(None)) {
        Begin::Ask(AdminCommand::BanUser { reason, expires_at, .. }) => {
            assert_eq!(reason, None);
            assert_eq!(expires_at, None);
        }
        other => panic!("{other:?}"),
    }
}

#[test]
fn impersonation_parks_the_operator_and_gives_them_back() {
    let reply = impersonated("mine".into(), &policy(), Ok("theirs".into()));
    assert_eq!(reply.session.as_deref(), Some("theirs"));
    assert_eq!(reply.parked, Some(("sess.operator".to_owned(), "mine".to_owned())));
    assert_eq!(admin_cookie_name("sess"), "sess.operator");
    let holding = vec!["sess=theirs; sess.operator=mine".to_owned()];
    assert_eq!(parked_token(&holding, "sess").as_deref(), Some("mine"));
    let back = stopped(&holding, &policy(), Ok(()));
    assert_eq!(back.session.as_deref(), Some("mine"));
    assert_eq!(back.location, "/admin/users");
    assert_eq!(back.cookies, vec!["sess.operator=; Path=/; Max-Age=0; HttpOnly".to_owned()]);
    let lost = stopped(&Vec::new(), &policy(), Ok(()));
    assert_eq!(lost.session, None);
    assert_eq!(lost.location, "/login?ok=Impersonation%20ended.");
    assert_eq!(impersonation_notice(), "You are signed in as someone else.");
}

// ── Keys ─────────────────────────────────────────────────────────────

fn key(id: u128, day: i64) -> ApiKey {
    ApiKey {
        id,
        name: Some(format!("k{id}")),
        prefix: Some("abc".into()),
        enabled: id % 2 == 0,
        expires_at: None,
        created_at: at(day),
    }
}

#[test]
fn keys_are_listed_newest_first_and_in_order_within_a_day() {
    let keys = vec![key(1, 5), key(2, 20_000), key(3, 5), key(4, 19_000), key(5, 5)];
    let ids: Vec<u128> = rows(&keys).iter().map(|r| r.id).collect();
    assert_eq!(ids, vec![2, 4, 1, 3, 5]);
    let listed = rows(&vec![ApiKey { name: Some(" ".into()), ..key(1, 0) }]);
    assert_eq!(listed[0].name, "Unnamed key");
    assert_eq!(listed[0].expires, "never");
    assert_eq!(listed[0].created, "1970-01-01");
    let lines = lay_out(rows(&vec![key(1, 0), key(2, 0)]));
    assert_eq!(lines[0].shown, "abc…");
    assert!(lines[0].revoked && !lines[0].revocable && lines[1].revocable);
}

#[test]
fn a_key_is_shown_once() {
    let made = created(Ok("secret".into()), Ok(vec![key(1, 0)])).unwrap();
    assert_eq!(made.minted.as_deref(), Some("secret"));
    assert_eq!(made.flash, Some(Flash::Success("Key created.".into())));
    assert_eq!(keys_listed(&Ok(vec![key(1, 0)]), &None, &None).unwrap().minted, None);
    assert_eq!(
        created(Err("no".into()), Ok(Vec::new())),
        Err("/account/api-keys?error=no".to_owned())
    );
    match create_key(
        Some("t".into()),
        &CreateForm { name: " CI ".into(), expires_days: " 30 ".into() },
    ) {
        Begin::Ask(KeyCommand::Create { name, expires_at, .. }) => {
            assert_eq!(name.as_deref(), Some("CI"));
            assert!(expires_at.unwrap().secs > 30 * DAY);
        }
        other => panic!("{other:?}"),
    }
    assert!(revoked(&Ok(())).contains("It%20will%20no%20longer"));
}

#[test]
fn a_typed_number_counts_or_is_no_limit() {
    assert_eq!(count(" 5 "), Some(5));
    assert_eq!(count("0"), None);
    assert_eq!(count("-3"), None);
    assert_eq!(count(""), None);
    assert_eq!(count("2147483647"), Some(i32::MAX));
    assert_eq!(count("2147483648"), None);
    assert_eq!(expires_after("soon"), None);
    assert_eq!(expires_after("0"), None);
    assert!(expires_after("9223372036854775807").is_some());
    assert_eq!(expires_after("9223372036854775808"), None);
}

// ── Signing in ───────────────────────────────────────────────────────

fn send_form() -> SendForm {
    SendForm { email: " a@b.c ".into(), return_to: Some("/orgs".into()) }
}

#[test]
fn sending_reads_the_same_whatever_came_of_it() {
    let sent = code_sent(&send_form(), Ok("ABC123".into()));
    assert_eq!(sent.mail, Some(("a@b.c".to_owned(), "ABC123".to_owned())));
    assert_eq!(sent.location, "/login/code?sent=1&email=a%40b.c&return_to=%2Forgs");
    let not = code_sent(&send_form(), Err(NotSent::Otherwise));
    assert_eq!(not.location, sent.location);
    assert_eq!(not.mail, None);
    let soon = code_sent(&send_form(), Err(NotSent::TooSoon));
    assert!(soon.location.contains("&error=A%20code%20was%20sent%20recently."));
    assert_eq!(send_code(&send_form()), "a@b.c");
}

#[test]
fn a_link_carries_where_to_return_to() {
    let ask = send_link(&send_form(), "https://auth.example//");
    assert_eq!(ask.callback_url, "https://auth.example/login/magic");
    let sent = link_sent(&send_form(), Ok("https://auth.example/login/magic?token=x".into()));
    assert_eq!(
        sent.mail.unwrap().1,
        "https://auth.example/login/magic?token=x&return_to=%2Forgs"
    );
    assert_eq!(link_sent(&send_form(), Err(NotSent::Otherwise)).location, sent.location);
}

#[test]
fn a_typed_code_is_raised_before_it_is_checked() {
    let form = CodeForm { email: "a@b.c".into(), code: " ab-1ß ".into(), return_to: None };
    let ask = verify_code(&form, Some(" 1.2.3.4 , 5.6.7.8"), Some("ua".into()));
    assert_eq!(ask.otp, "AB-1SS");
    assert!(ask.create_session);
    assert_eq!(ask.ip_address.as_deref(), Some("1.2.3.4"));
    assert_eq!(client_ip(Some("  ")), None);
    assert_eq!(client_ip(None), None);
}

#[test]
fn a_right_code_signs_in_and_is_remembered() {
    let form = CodeForm { email: "a@b.c".into(), code: "X".into(), return_to: Some("/orgs".into()) };
    let right = bundle(true);
    let reply = code_verified(
        &form,
        Ok(VerifiedOtp {
            user: right.user.clone(),
            session: Some(right.session.clone()),
            token: Some("tok".into()),
        }),
        &policy(),
        &hint(),
        &Vec::new(),
    );
    assert_eq!(
        reply,
        Reply {
            location: "/orgs".into(),
            session: Some("tok".into()),
            parked: None,
            cookies: remembered(),
        }
    );
    let unfinished = code_verified(
        &form,
        Ok(VerifiedOtp { user: right.user.clone(), session: None, token: None }),
        &policy(),
        &hint(),
        &Vec::new(),
    );
    assert!(unfinished.location.ends_with("error=That%20code%20could%20not%20sign%20you%20in."));
    let wrong = code_verified(&form, Err("x".into()), &policy(), &hint(), &Vec::new());
    assert_eq!(wrong.session, None);
    assert!(wrong.location.contains("That%20code%20is%20wrong%20or%20has%20expired."));
}

#[test]
fn a_second_factor_comes_first_where_it_is_owed() {
    let q = MagicQuery {
        email: Some("a@b.c".into()),
        token: Some("x".into()),
        return_to: Some("//evil".into()),
    };
    assert!(magic_callback(&q, None, None).is_some());
    assert!(magic_callback(&MagicQuery { token: None, ..q.clone() }, None, None).is_none());
    match magic_verified(&q, Ok(bundle(false)), &policy(), &hint(), &Vec::new()) {
        Landed::SignedIn(reply) => {
            assert_eq!(reply.location, "/login/two-factor?return_to=%2F");
        }
        Landed::Expired(to) => panic!("{to}"),
    }
    assert_eq!(
        magic_verified(&q, Err("used".into()), &policy(), &hint(), &Vec::new()),
        Landed::Expired("/".into())
    );
}

#[test]
fn a_page_that_asks_says_what_was_sent() {
    let asked = code_page(LoginQuery::default());
    assert_eq!(asked.sub, "We will email you a short code to type back in.");
    let sent = code_page(LoginQuery {
        email: Some("a@b.c".into()),
        sent: Some("1".into()),
        ..LoginQuery::default()
    });
    assert_eq!(sent.sub, "If a@b.c has an account, a code is on its way.");
    assert_eq!(sent.return_to, "/");
}

#[test]
fn a_guest_is_an_account_that_can_be_kept() {
    let guest = AuthUser { role: Some("anonymous".into()), ..user(1, None) };
    assert!(is_guest(&guest));
    assert!(!is_guest(&user(1, None)));
    assert!(session_is_guest(&Ok(guest)));
    assert!(!session_is_guest(&Err("none".into())));
    let begun = started(Ok(bundle(true)), Some("/orgs"), &policy(), &hint(), &Vec::new());
    assert_eq!(begun.location, "/orgs");
    assert_eq!(begun.cookies, remembered());
    match upgrade(
        Some("t".into()),
        UpgradeForm { email: " a@b.c".into(), password: " p ".into(), name: " ".into() },
    ) {
        Begin::Ask(ask) => {
            assert_eq!(ask.email, "a@b.c");
            assert_eq!(ask.password, " p ");
            assert_eq!(ask.name, None);
        }
        Begin::Go(to) => panic!("{to}"),
    }
    let kept = upgraded(Ok(bundle(true)), &policy(), &hint(), &Vec::new());
    assert_eq!(kept.location, "/account/profile?ok=Your%20account%20is%20saved.");
    let not = upgraded(Err("taken".into()), &policy(), &hint(), &Vec::new());
    assert_eq!(not.location, "/account/profile?error=taken");
}

#[test]
fn a_wallet_signs_a_message_of_this_domain() {
    assert_eq!(
        compose("auth.example", "https://auth.example", "n0"),
        "auth.example\nSign in to auth.example\n\nURI: https://auth.example\nVersion: 1\nChain ID: 1\nNonce: n0"
    );
    assert_eq!(
        wallet_begin("d", "b", Err("no".into())),
        WalletReply::Refused { status: 400, error: "no".into() }
    );
    let body = architect::auth_ui::wallet::FinishSignIn {
        message: "m".into(),
        signature: "s".into(),
        return_to: None,
    };
    match completed(&body, Ok(bundle(false)), &policy(), &hint(), &Vec::new()) {
        WalletReply::SignedIn(reply) => {
            assert_eq!(reply.location, "/login/two-factor?return_to=%2F");
            assert_eq!(reply.cookies, remembered());
        }
        other => panic!("{other:?}"),
    }
    assert_eq!(
        completed(&body, Err("no".into()), &policy(), &hint(), &Vec::new()),
        WalletReply::Refused { status: 401, error: "no".into() }
    );
}

#[test]
fn a_passkey_needs_no_second_factor() {
    assert_eq!(
        begin_registration(None),
        Err(PasskeyReply::Refused { status: 401, error: "Sign in first.".into() })
    );
    assert_eq!(
        begin_sign_in(Some("  ".into())),
        PasskeyCommand::BeginAuthentication { email: None }
    );
    let body = FinishSignIn { handle: "h".into(), credential_json: "{}".into(), return_to: None };
    match sign_in_completed(&body, Ok(bundle(false)), &policy(), &hint(), &Vec::new()) {
        PasskeyReply::SignedIn(reply) => assert_eq!(reply.location, "/"),
        other => panic!("{other:?}"),
    }
    let view = passkeys_listed(
        Ok(vec![Passkey {
            credential_id: "c".into(),
            name: "phone".into(),
            created_at: at(1),
            backed_up: true,
        }]),
        &Some("done".into()),
        &None,
    )
    .unwrap();
    assert_eq!(view.rows[0].added, "1970-01-02");
    assert_eq!(view.flash, Some(Flash::Success("done".into())));
}

// ── The person ───────────────────────────────────────────────────────

#[test]
fn a_profile_is_saved_in_two_steps() {
    let form = ProfileForm { name: " Ada ".into(), username: " ada ".into(), image: "".into() };
    assert_eq!(
        save(Some("t".into()), &form),
        Begin::Ask(ProfileCommand::UpdateProfile {
            session_token: "t".into(),
            name: "Ada".into(),
            image: "".into(),
        })
    );
    assert_eq!(
        saved("t".into(), &form, &Ok(())),
        Begin::Ask(ProfileCommand::UpdateUsername {
            session_token: "t".into(),
            username: "ada".into(),
            display_username: "ada".into(),
        })
    );
    let unnamed = ProfileForm { username: " ".into(), ..form.clone() };
    assert_eq!(
        saved("t".into(), &unnamed, &Ok(())),
        Begin::Go("/account/profile?ok=Profile%20saved.".into())
    );
    assert_eq!(
        saved("t".into(), &form, &Err("no".into())),
        Begin::Go("/account/profile?error=no".into())
    );
    let view = profile_page(&Ok(user(1, Some("Ada"))), &None, &None).unwrap();
    assert_eq!(view.email_line, "u1@example.com — verified.");
}

#[test]
fn a_mistyped_confirmation_never_reaches_the_engine() {
    let form = PasswordForm {
        current_password: "old".into(),
        new_password: "new".into(),
        confirm_password: "nwe".into(),
    };
    assert_eq!(
        change_password(Some("t".into()), form.clone()),
        Begin::Go("/account/profile?error=The%20new%20passwords%20do%20not%20match.".into())
    );
    let right = PasswordForm { confirm_password: "new".into(), ..form };
    assert!(matches!(
        change_password(Some("t".into()), right),
        Begin::Ask(ProfileCommand::ChangePassword { .. })
    ));
}

#[test]
fn two_factor_is_shown_confirmed_and_asked_for() {
    let view = factor_page(&Ok(user(1, None)), &None, &None).unwrap();
    assert!(!view.enabled);
    assert_eq!(view.sub, "Off. Anyone with your password can sign in as you.");
    match enroll("t".into(), &Ok(AuthUser { email: None, ..user(1, None) }), "Studio") {
        Begin::Ask(FactorCommand::Enroll { account_label, issuer, .. }) => {
            assert_eq!(account_label, "00000000-0000-0000-0000-000000000001");
            assert_eq!(issuer, "Studio");
        }
        other => panic!("{other:?}"),
    }
    let made = enrolled(Ok(Enrollment {
        secret: "S".into(),
        otpauth_url: "otpauth://x".into(),
        backup_codes: vec!["1".into()],
    }))
    .unwrap();
    assert!(made.qr.contains("aria-label=\"Scan with your authenticator app\""));
    let long = enrolled(Ok(Enrollment {
        secret: "S".into(),
        otpauth_url: "u".repeat(9_000),
        backup_codes: Vec::new(),
    }))
    .unwrap();
    assert_eq!(long.qr, "");
    assert_eq!(
        confirm(Some("t".into()), " 123 "),
        Begin::Ask(FactorCommand::Confirm { session_token: "t".into(), code: "123".into() })
    );
    assert_eq!(challenge(false, None, None), Err("/login".to_owned()));
    assert_eq!(challenge(true, None, None).unwrap().return_to, "/");
    assert_eq!(verified(&Some("/orgs".into()), &Ok(())), "/orgs");
    assert_eq!(
        verified(&Some("/orgs".into()), &Err("no".into())),
        "/login/two-factor?return_to=%2Forgs&error=no"
    );
}

#[test]
fn a_number_is_claimed_before_it_is_confirmed() {
    assert_eq!(
        claimed(" +44 1 ", &Ok(())),
        Begin::Ask(PhoneCommand::SendOtp { phone_number: "+44 1".into() })
    );
    let sent = phone_sent(" +44 1 ", Ok("CODE".into()));
    assert_eq!(sent.text, Some(("+44 1".to_owned(), "CODE".to_owned())));
    assert_eq!(sent.location, "/account/phone?sent=1&phone_number=%2B44%201");
    assert_eq!(
        verify(true, "+44", " abc "),
        Begin::Ask(PhoneCommand::VerifyOtp {
            phone_number: "+44".into(),
            otp: "ABC".into(),
            create_session: false,
        })
    );
    assert!(phone_verified(&Err("x".into())).contains("That%20code%20is%20wrong"));
    let shown = |current: Option<&str>, verified: bool| {
        phone_page(
            &Ok(Number { current: current.map(str::to_owned), verified }),
            &PhoneQuery::default(),
        )
        .unwrap()
        .sub
    };
    assert_eq!(shown(None, true), "No phone number on this account.");
    assert_eq!(shown(Some("+44"), true), "Currently +44, confirmed.");
    assert_eq!(shown(Some("+44"), false), "Currently +44 — not confirmed yet.");
}

#[test]
fn a_session_is_marked_and_the_others_can_be_ended() {
    let view = sessions_listed(
        &Ok(session(1, true)),
        Ok(vec![session(1, true), session(2, true), session(3, true)]),
        &None,
        &None,
    )
    .unwrap();
    assert!(view.rows[0].current && !view.rows[1].current);
    assert_eq!(view.rows[0].where_from, "unknown");
    assert_eq!(view.rows[0].started, "1970-01-02 01:01 UTC");
    assert_eq!(view.sign_out_others.as_deref(), Some("Sign out 2 other session(s)"));
    let alone =
        sessions_listed(&Ok(session(1, true)), Ok(vec![session(1, true)]), &None, &None).unwrap();
    assert_eq!(alone.sign_out_others, None);
    assert_eq!(
        revoke_others(Some("t".into())),
        Begin::Ask(SessionCommand::RevokeOthers { session_token: "t".into() })
    );
}

#[test]
fn the_rail_shows_standing() {
    let org = OrgBundle {
        organization: Organization { id: 5, name: "Acme".into(), slug: "acme".into(), logo: None },
        role: "owner".into(),
    };
    let nav = Nav::build(
        Ok(AuthUser { role: Some("admin".into()), ..user(1, Some("Ada")) }),
        Ok(vec![org]),
        "/account",
    )
    .unwrap();
    let rail = nav.rail();
    assert_eq!(rail.name, "Ada");
    assert_eq!(rail.standing.as_deref(), Some("u1@example.com"));
    assert_eq!(rail.account.iter().filter(|l| l.active).count(), 1);
    assert!(rail.account[1].active);
    assert_eq!(rail.orgs[0].href, "/orgs/00000000-0000-0000-0000-000000000005");
    assert_eq!(rail.all_orgs.label, "All organizations");
    assert!(rail.server.is_some());
    let guest = Nav::build(
        Ok(AuthUser {
            role: Some("anonymous".into()),
            username: None,
            email: None,
            ..user(1, None)
        }),
        Err("down".into()),
        "/orgs",
    )
    .unwrap()
    .rail();
    assert_eq!(guest.name, "Guest");
    assert_eq!(guest.standing.as_deref(), Some("Not saved yet"));
    assert_eq!(guest.all_orgs.label, "Make one");
    assert!(guest.all_orgs.active);
    assert!(guest.server.is_none());
    assert!(Nav::build(Err("none".into()), Ok(Vec::new()), "/").is_none());
}

#[test]
fn without_a_mailer_the_message_is_logged_in_full() {
    let notice = log_only().send_magic_link("a@b.c", "https://x").unwrap();
    assert_eq!(notice.message, Message::MagicLink);
    assert_eq!(notice.carried, "https://x");
    let code = log_only().send_login_code("a@b.c", "ABC").unwrap();
    assert_eq!(
        code.warning,
        "no mailer is configured — the sign-in code is only in this log"
    );
}

#[test]
fn settings_hold_until_others_are_given() {
    let state = UiState::new(policy());
    assert_eq!(state.home, "/");
    assert_eq!(state.issuer, "architect-auth");
    assert_eq!(state.base_url, "http://localhost:8080");
    let other = state.clone().issuer("Studio".into()).home("/app".into()).base_url("https://x".into());
    assert_eq!(other.issuer, "Studio");
    assert_eq!(other.cookie, state.cookie);
}
