//! Wide events: one context-rich event for each unit of work.
//!
//! The span is the event. A macro that opens a span takes a fixed list of
//! fields; these go around that, and add a field to the span that is open.
//!
//! Keys are dotted and namespaced (`auth.*`, `perm.*`, `org.*`, `rpc.*`), with
//! one name for each concept, and never hold a secret: they are exported.

use opentelemetry::StringValue;
use tracing_opentelemetry::OpenTelemetrySpanExt;
use vstd::prelude::*;

verus! {

/// What a field can hold.
#[derive(Clone, Debug, PartialEq, Eq)]
pub enum Value {
    Bool(bool),
    I64(i64),
    Text(String),
    Bools(Vec<bool>),
    I64s(Vec<i64>),
    Texts(Vec<String>),
}

/// Attach a field to the current unit of work.
///
/// `tracing_opentelemetry::OpenTelemetrySpanExt::set_attribute` on
/// `tracing::Span::current`. It does nothing where nothing is listening; what it
/// does where something is shows outside the program, and nothing is said of it.
#[verifier::external_body]
pub fn set(key: &'static str, value: Value) {
    let value = match value {
        Value::Bool(b) => b.into(),
        Value::I64(n) => n.into(),
        Value::Text(s) => s.into(),
        Value::Bools(v) => opentelemetry::Value::Array(v.into()),
        Value::I64s(v) => opentelemetry::Value::Array(v.into()),
        Value::Texts(v) => {
            let texts: Vec<StringValue> = v.into_iter().map(StringValue::from).collect();
            opentelemetry::Value::Array(texts.into())
        },
    };
    tracing::Span::current().set_attribute(key, value);
}

/// Attach a field that is shown as a text.
pub fn set_display(key: &'static str, shown: &str) {
    set(key, Value::Text(shown.to_owned()))
}

} // verus!
