//! OTLP export: whether it is on, and what shipped clients configure.

use crate::text::{cat, starts_with, trim};
use vstd::prelude::*;

verus! {

/// The variable that names the collector.
pub const ENDPOINT_VAR: &'static str = "OTEL_EXPORTER_OTLP_ENDPOINT";

/// The variable that holds the headers to send it.
pub const HEADERS_VAR: &'static str = "OTEL_EXPORTER_OTLP_HEADERS";

/// Whether export is configured: the endpoint is set and says something.
pub fn enabled(endpoint: Option<&str>) -> (res: bool)
    ensures
        res == (endpoint matches Some(e) && crate::telemetry::says_something(e@)),
{
    match endpoint {
        Some(e) => trim(e).as_str().unicode_len() > 0,
        None => false,
    }
}

/// A variable to be set, and what to.
#[derive(Clone, Debug, PartialEq, Eq)]
pub struct Setting {
    pub name: String,
    pub value: String,
}

/// What is baked in, less the white space around it; nothing where that is
/// blank or the variable is already set.
pub open spec fn to_set(baked: Option<Seq<char>>, already_set: bool) -> Option<Seq<char>> {
    match baked {
        Some(b) => if !already_set && crate::telemetry::says_something(b) {
            Some(crate::text::trimmed(b))
        } else {
            None
        },
        None => None,
    }
}

fn baked_value(baked: Option<&str>, already_set: bool) -> (res: Option<String>)
    ensures
        crate::text::opt_view(res) == to_set(crate::telemetry::str_view(baked), already_set),
{
    match baked {
        Some(b) => {
            let value: String = trim(b);
            if !already_set && value.as_str().unicode_len() > 0 {
                Some(value)
            } else {
                None
            }
        },
        None => None,
    }
}

/// The endpoint a shipped client sets for itself. Nothing that is already set is
/// touched, so a developer pointing a local build at a local collector wins.
pub fn endpoint_setting(baked: Option<&str>, already_set: bool) -> (res: Option<Setting>)
    ensures
        match to_set(crate::telemetry::str_view(baked), already_set) {
            Some(v) => res matches Some(s) && s.name@ == "OTEL_EXPORTER_OTLP_ENDPOINT"@ && s.value@
                == v,
            None => res is None,
        },
{
    match baked_value(baked, already_set) {
        Some(value) => Some(Setting { name: ENDPOINT_VAR.to_owned(), value }),
        None => None,
    }
}

/// The header a shipped client authenticates with.
pub fn headers_setting(baked_token: Option<&str>, already_set: bool) -> (res: Option<Setting>)
    ensures
        match to_set(crate::telemetry::str_view(baked_token), already_set) {
            Some(v) => res matches Some(s) && s.name@ == "OTEL_EXPORTER_OTLP_HEADERS"@ && s.value@
                == "Authorization=Bearer "@ + v,
            None => res is None,
        },
{
    match baked_value(baked_token, already_set) {
        Some(value) => Some(
            Setting {
                name: HEADERS_VAR.to_owned(),
                value: cat("Authorization=Bearer ", value.as_str()),
            },
        ),
        None => None,
    }
}

/// Whether an event may be exported as a log record. The exporter reports its
/// own troubles as events, and exporting those would make more of them without
/// end.
pub fn exports(target: &str) -> (res: bool)
    ensures
        res == !crate::text::begins(target@, "opentelemetry"@),
{
    !starts_with(target, "opentelemetry")
}

/// A process that is given nothing exports nothing, and what is already set
/// stays as it is.
pub proof fn law_export_is_opt_in(baked: Option<Seq<char>>)
    ensures
        to_set(None, false) is None,
        to_set(baked, true) is None,
        to_set(baked, false) matches Some(v) ==> v.len() > 0,
{
}

/// What was built in is set without the white space around it, where it shows anything and
/// nothing was set before.
pub proof fn law_what_was_built_in_is_set_once(
    a: Seq<char>,
    value: Seq<char>,
    b: Seq<char>,
    already_set: bool,
)
    requires
        crate::text::blank(a),
        crate::text::blank(b),
        crate::text::trim_free(value),
    ensures
        !already_set && value.len() > 0 ==> to_set(Some(a + value + b), already_set) == Some(value),
        already_set || value.len() == 0 ==> to_set(Some(a + value + b), already_set) is None,
{
    crate::text::law_trimming_takes_the_white_space_around(a, value, b);
}

} // verus!
