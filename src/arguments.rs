use vstd::prelude::*;

verus! {

/// One top-level value of a tool call's argument object.
#[derive(Debug, Clone)]
pub enum ArgumentValue {
    /// A JSON string, held verbatim.
    Text(String),
    /// Any other JSON value, held as its compact JSON text.
    Json(String),
}

/// One property of a tool call's argument object.
#[derive(Debug, Clone)]
pub struct ArgumentEntry {
    pub key: String,
    pub value: ArgumentValue,
}

/// The arguments of a tool call, as far as dispatching needs to read them.
#[derive(Debug, Clone)]
pub enum Arguments {
    /// A JSON object, one entry per property, in the parser's order.
    Object(Vec<ArgumentEntry>),
    /// A JSON value that is not an object, held as its compact JSON text.
    Other(String),
    /// Text that did not parse as JSON, held as it arrived.
    Invalid(String),
}

pub ghost enum ValueView {
    Text(Seq<char>),
    Json(Seq<char>),
}

pub ghost enum ArgumentsView {
    Object(Seq<(Seq<char>, ValueView)>),
    Other(Seq<char>),
    Invalid(Seq<char>),
}

impl View for ArgumentValue {
    type V = ValueView;

    open spec fn view(&self) -> ValueView {
        match self {
            ArgumentValue::Text(s) => ValueView::Text(s@),
            ArgumentValue::Json(s) => ValueView::Json(s@),
        }
    }
}

impl View for ArgumentEntry {
    type V = (Seq<char>, ValueView);

    open spec fn view(&self) -> (Seq<char>, ValueView) {
        (self.key@, self.value@)
    }
}

pub open spec fn entries_view(entries: Seq<ArgumentEntry>) -> Seq<(Seq<char>, ValueView)> {
    entries.map_values(|e: ArgumentEntry| e@)
}

impl View for Arguments {
    type V = ArgumentsView;

    open spec fn view(&self) -> ArgumentsView {
        match self {
            Arguments::Object(entries) => ArgumentsView::Object(entries_view(entries@)),
            Arguments::Other(s) => ArgumentsView::Other(s@),
            Arguments::Invalid(s) => ArgumentsView::Invalid(s@),
        }
    }
}

/// No two entries of an object share a key.
pub open spec fn keys_distinct(entries: Seq<(Seq<char>, ValueView)>) -> bool {
    forall|i: int, j: int| 0 <= i < j < entries.len() ==> (#[trigger] entries[i]).0 != (#[trigger] entries[j]).0
}

/// The arguments form an object whose keys are distinct, or are no object.
pub open spec fn object_keys_distinct(a: ArgumentsView) -> bool {
    match a {
        ArgumentsView::Object(entries) => keys_distinct(entries),
        _ => true,
    }
}

/// What serde_json makes of a text: `None` where it is not JSON, else the
/// value, read down to the top-level properties of an object.
pub uninterp spec fn json_arguments(text: Seq<char>) -> Option<ArgumentsView>;

/// Relies on `serde_json::from_str` to parse the text as a JSON value, and on
/// serde_json's `Display` for the compact text of values that are not strings.
/// An object comes out of serde_json's `Map`, which holds each key once.
#[verifier::external_body]
fn parse_json(text: &str) -> (r: Option<Arguments>)
    ensures
        match r {
            Some(a) => json_arguments(text@) == Some(a@),
            None => json_arguments(text@) is None,
        },
        r matches Some(a) ==> object_keys_distinct(a@),
{
    match serde_json::from_str::<serde_json::Value>(text) {
        Ok(serde_json::Value::Object(map)) => Some(Arguments::Object(map.into_iter().map(
            |(key, v)| match v {
                serde_json::Value::String(s) => ArgumentEntry { key, value: ArgumentValue::Text(s) },
                other => ArgumentEntry { key, value: ArgumentValue::Json(other.to_string()) },
            },
        ).collect())),
        Ok(other) => Some(Arguments::Other(other.to_string())),
        Err(_) => None,
    }
}

/// The arguments that a complete argument text stands for: what the JSON
/// parser reads from it, or the text itself marked invalid.
pub open spec fn arguments_of(text: Seq<char>) -> ArgumentsView {
    match json_arguments(text) {
        Some(a) => a,
        None => ArgumentsView::Invalid(text),
    }
}

/// Parses a tool call's complete argument text.
pub fn parse_arguments(text: &str) -> (r: Arguments)
    ensures
        r@ == arguments_of(text@),
        object_keys_distinct(r@),
{
    match parse_json(text) {
        Some(a) => a,
        None => Arguments::Invalid(text.to_string()),
    }
}

} // verus!
