//! What telemetry a process sends, decided from its configuration.
//!
//! Both kinds are off unless they are configured: error reports need a DSN, and
//! OTLP export an endpoint. A value baked in at build time stands for an app
//! that nobody sets the environment of.

pub mod otel;
pub mod wide;

use crate::text::trim;
use vstd::prelude::*;

verus! {

/// Whether a text says anything.
pub open spec fn says_something(s: Seq<char>) -> bool {
    crate::text::trimmed(s).len() > 0
}

/// How to report errors: where to, and the tag that tells the apps apart.
#[derive(Clone, Debug, PartialEq, Eq)]
pub struct Reporting {
    pub dsn: String,
    pub service: String,
}

/// The DSN to report to: the one baked in, or else the one of the process, and
/// none where that is blank.
pub open spec fn dsn(baked: Option<Seq<char>>, process: Option<Seq<char>>) -> Option<Seq<char>> {
    let chosen = match baked {
        Some(b) => Some(b),
        None => process,
    };
    match chosen {
        Some(d) => if says_something(d) {
            Some(d)
        } else {
            None
        },
        None => None,
    }
}

pub open spec fn str_view(o: Option<&str>) -> Option<Seq<char>> {
    match o {
        Some(s) => Some(s@),
        None => None,
    }
}

fn is_blank(s: &str) -> (res: bool)
    ensures
        res == !says_something(s@),
{
    trim(s).as_str().unicode_len() == 0
}

/// Where to report errors of `service` to, or nowhere: without a DSN the apps
/// run without telemetry.
pub fn init(service: &str, baked: Option<&str>, process: Option<&str>) -> (res: Option<Reporting>)
    ensures
        match dsn(str_view(baked), str_view(process)) {
            Some(d) => res matches Some(r) && r.dsn@ == d && r.service@ == service@,
            None => res is None,
        },
{
    let chosen: Option<&str> = match baked {
        Some(b) => Some(b),
        None => process,
    };
    match chosen {
        Some(d) => if is_blank(d) {
            None
        } else {
            Some(Reporting { dsn: d.to_owned(), service: service.to_owned() })
        },
        None => None,
    }
}

/// A subscriber to install: with what filter, and whether with reporting.
#[derive(Clone, Debug, PartialEq, Eq)]
pub struct Tracing {
    pub reporting: Option<Reporting>,
    pub filter: String,
}

/// What to install for `service`: the filter of the environment where it holds
/// one that is understood, or else the default.
pub fn init_tracing(
    service: &str,
    env_filter_default: &str,
    env_filter: Option<&str>,
    baked: Option<&str>,
    process: Option<&str>,
) -> (res: Tracing)
    ensures
        res.filter@ == (match env_filter {
            Some(f) => f@,
            None => env_filter_default@,
        }),
        match dsn(str_view(baked), str_view(process)) {
            Some(d) => res.reporting matches Some(r) && r.dsn@ == d && r.service@ == service@,
            None => res.reporting is None,
        },
{
    let filter: &str = match env_filter {
        Some(f) => f,
        None => env_filter_default,
    };
    Tracing { reporting: init(service, baked, process), filter: filter.to_owned() }
}

/// Nothing is reported unless somebody asked for it, and what was baked in is
/// never overruled by the process.
pub proof fn law_reporting_is_opt_in(baked: Option<Seq<char>>, process: Option<Seq<char>>)
    ensures
        dsn(None, None) is None,
        dsn(baked, process) matches Some(d) ==> says_something(d),
        baked matches Some(b) ==> dsn(baked, process) == dsn(baked, None),
{
}

/// What was built in is where reports go, and else what the process was given; what shows
/// nothing sends nowhere, even where the process was given something.
pub proof fn law_what_was_built_in_decides(baked: Option<Seq<char>>, process: Option<Seq<char>>)
    ensures
        baked is Some && !crate::text::blank(baked->0) ==> dsn(baked, process) == baked,
        baked is Some && crate::text::blank(baked->0) ==> dsn(baked, process) is None,
        baked is None && process is Some && !crate::text::blank(process->0) ==> dsn(baked, process)
            == process,
        baked is None && process is Some && crate::text::blank(process->0) ==> dsn(baked, process) is None,
{
    if let Some(b) = baked {
        crate::text::law_white_space_alone_is_trimmed_to_nothing(b);
    }
    if let Some(p) = process {
        crate::text::law_white_space_alone_is_trimmed_to_nothing(p);
    }
}

} // verus!
