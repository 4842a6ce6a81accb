use architect::auth::expiry::{
    after, ago, before, expires_in, in_days, seconds_in, Moment, FIRST_SECOND, LAST_SECOND,
};
use architect::auth::percent::{decode, encode_component, encode_query_value};
use chrono::{DateTime, Utc};

fn moment(at: DateTime<Utc>) -> Moment {
    Moment { secs: at.timestamp(), nanos: at.timestamp_subsec_nanos() }
}

#[test]
fn unreserved_characters_pass_through() {
    assert_eq!(encode_component("aZ09-_.~"), "aZ09-_.~");
}

#[test]
fn a_nested_query_cannot_leak_its_separators() {
    let nested = "/oauth2/authorize?client_id=forum&redirect_uri=https://x/cb";
    let encoded = encode_component(nested);
    assert!(!encoded.contains('&'));
    assert!(!encoded.contains('?'));
    assert_eq!(decode(&encoded), nested);
}

#[test]
fn a_path_keeps_its_slashes_but_loses_its_separators() {
    let encoded = encode_query_value("/a/b?x=1&y=2");
    assert_eq!(encoded, "/a/b%3Fx%3D1%26y%3D2");
    assert_eq!(decode(&encoded), "/a/b?x=1&y=2");
}

#[test]
fn a_truncated_escape_does_not_panic() {
    assert_eq!(decode("abc%"), "abc%");
    assert_eq!(decode("abc%4"), "abc%4");
    assert_eq!(decode("%E2%9C"), "\u{fffd}");
}

#[test]
fn a_round_trip_survives_non_ascii() {
    for raw in ["héllo wörld", "日本語", "a b&c=d?e#f"] {
        assert_eq!(decode(&encode_component(raw)), raw);
    }
}

#[test]
fn only_plain_characters_are_written() {
    let all: String = (0u8..128).map(char::from).collect();
    let encoded = encode_component(&all);
    assert!(encoded.chars().all(|c| c.is_ascii_alphanumeric() || "-_.~%".contains(c)));
    assert_eq!(encode_component(" "), "%20");
    assert_eq!(encode_component("é"), "%C3%A9");
    assert_eq!(encode_component("/"), "%2F");
    assert_eq!(encode_query_value("/"), "/");
    assert_eq!(encode_component(""), "");
    assert_eq!(decode(""), "");
    assert_eq!(decode("%zz%41"), "%zzA");
    assert_eq!(decode("a+b"), "a+b");
}

#[test]
fn ordinary_ttl_is_exact() {
    let base = DateTime::from_timestamp(1_000_000, 0).unwrap();
    assert_eq!(after(moment(base), 60).secs, 1_000_060);
    assert_eq!(before(moment(base), 60).secs, 999_940);
}

#[test]
fn absurd_ttl_saturates_instead_of_panicking() {
    assert_eq!(expires_in(i64::MAX), moment(DateTime::<Utc>::MAX_UTC));
    assert_eq!(
        after(moment(DateTime::<Utc>::MAX_UTC), 1),
        moment(DateTime::<Utc>::MAX_UTC)
    );
    assert_eq!(
        before(moment(DateTime::<Utc>::MIN_UTC), 1),
        moment(DateTime::<Utc>::MIN_UTC)
    );
}

#[test]
fn the_first_and_last_seconds_are_those_of_the_calendar() {
    assert_eq!(DateTime::<Utc>::MAX_UTC.timestamp(), LAST_SECOND);
    assert_eq!(DateTime::<Utc>::MIN_UTC.timestamp(), FIRST_SECOND);
    assert_eq!(DateTime::<Utc>::MAX_UTC.timestamp_subsec_nanos(), 999_999_999);
    assert_eq!(DateTime::<Utc>::MIN_UTC.timestamp_subsec_nanos(), 0);
    assert!(DateTime::<Utc>::from_timestamp(LAST_SECOND + 1, 0).is_none());
    assert!(DateTime::<Utc>::from_timestamp(FIRST_SECOND - 1, 0).is_none());
}

#[test]
fn shifting_agrees_with_the_calendar() {
    let bases = [
        (0, 0),
        (1_000_000, 5),
        (59, 999_999_999),
        (59, 1_500_000_000),
        (-1, 1_000_000_000),
        (-61, 1_999_999_999),
    ];
    for (secs, nanos) in bases {
        let base = DateTime::<Utc>::from_timestamp(secs, nanos).unwrap();
        for by in [-86_400i64, -61, -60, -2, -1, 0, 1, 2, 59, 60, 86_400] {
            let span = chrono::Duration::try_seconds(by).unwrap();
            assert_eq!(
                after(Moment { secs, nanos }, by),
                moment(base.checked_add_signed(span).unwrap()),
                "{secs} {nanos} {by}"
            );
            assert_eq!(
                before(Moment { secs, nanos }, by),
                moment(base.checked_sub_signed(span).unwrap()),
                "{secs} {nanos} {by}"
            );
        }
    }
}

#[test]
fn a_cutoff_lies_behind_and_a_deadline_ahead() {
    let now = moment(Utc::now());
    assert!(expires_in(3600).secs > now.secs);
    assert!(ago(3600).secs < now.secs);
    assert!(in_days(1).secs >= now.secs + 86_400);
    assert_eq!(seconds_in(3), 259_200);
    assert_eq!(seconds_in(i64::MAX), i64::MAX);
    assert_eq!(seconds_in(i64::MIN), i64::MIN);
    assert_eq!(in_days(i64::MAX), moment(DateTime::<Utc>::MAX_UTC));
    assert_eq!(ago(i64::MAX), moment(DateTime::<Utc>::MIN_UTC));
}

#[test]
fn going_back_undoes_going_on() {
    let base = Moment { secs: 1_234_567, nanos: 89 };
    assert_eq!(before(after(base, 4_321), 4_321), base);
}
