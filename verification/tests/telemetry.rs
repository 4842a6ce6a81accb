use architect::telemetry::otel::{enabled, endpoint_setting, exports, headers_setting};
use architect::telemetry::wide::{set_display, Value};
use architect::telemetry::{init, init_tracing};

#[test]
fn reporting_is_off_until_it_is_configured() {
    assert_eq!(init("svc", None, None), None);
    assert_eq!(init("svc", None, Some("  ")), None);
    assert_eq!(init("svc", Some(" "), Some("https://d")), None);
    let on = init("svc", None, Some("https://d")).unwrap();
    assert_eq!((on.dsn.as_str(), on.service.as_str()), ("https://d", "svc"));
    assert_eq!(init("svc", Some("baked"), Some("process")).unwrap().dsn, "baked");
}

#[test]
fn the_filter_of_the_environment_wins() {
    let tracing = init_tracing("svc", "info", Some("debug"), None, None);
    assert_eq!(tracing.filter, "debug");
    assert_eq!(tracing.reporting, None);
    assert_eq!(init_tracing("svc", "info", None, None, None).filter, "info");
}

#[test]
fn export_is_off_until_an_endpoint_is_set() {
    assert!(!enabled(None));
    assert!(!enabled(Some("  ")));
    assert!(enabled(Some("http://collector")));
    let endpoint = endpoint_setting(Some(" http://c \n"), false).unwrap();
    assert_eq!(endpoint.name, "OTEL_EXPORTER_OTLP_ENDPOINT");
    assert_eq!(endpoint.value, "http://c");
    assert_eq!(endpoint_setting(Some("http://c"), true), None);
    assert_eq!(endpoint_setting(None, false), None);
    let headers = headers_setting(Some("tok"), false).unwrap();
    assert_eq!(headers.name, "OTEL_EXPORTER_OTLP_HEADERS");
    assert_eq!(headers.value, "Authorization=Bearer tok");
    assert_eq!(headers_setting(Some(""), false), None);
    assert!(!exports("opentelemetry_sdk::trace"));
    assert!(exports("my_app"));
}

#[test]
fn a_field_outside_any_span_goes_nowhere() {
    architect::telemetry::wide::set("user.id", Value::Text("7".into()));
    architect::telemetry::wide::set("user.age", Value::I64(7));
    architect::telemetry::wide::set("user.known", Value::Bool(true));
    architect::telemetry::wide::set("user.roles", Value::Texts(vec!["admin".into()]));
    architect::telemetry::wide::set("user.scores", Value::I64s(vec![1, 2]));
    architect::telemetry::wide::set("user.answers", Value::Bools(vec![true, false]));
    set_display("user.kind", "guest");
}
