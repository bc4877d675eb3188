use vstd::prelude::*;
use crate::arguments::{Arguments, ArgumentsView};
use crate::config::{opt_view, JsonSchema, Property, Tool};

verus! {

/// One message of the conversation history, tagged by role.
#[derive(Debug, Clone)]
#[allow(inconsistent_fields)]
pub enum Message {
    User { content: String },
    Assistant { content: Option<String>, tool_calls: Option<Vec<ToolCall>> },
    Tool { tool_call_id: String, content: String },
}

/// A complete tool call requested by the model.
#[derive(Debug, Clone)]
pub struct ToolCall {
    pub id: String,
    pub tool_type: String,
    pub function: ToolCallFunction,
}

/// The function half of a tool call: which tool, with what arguments.
#[derive(Debug, Clone)]
pub struct ToolCallFunction {
    pub name: String,
    pub arguments: Arguments,
}

/// The output of one tool call, addressed to the call that asked for it.
#[derive(Debug, Clone)]
pub struct ToolResult {
    pub tool_call_id: String,
    pub content: String,
}

/// A complete, non-streamed answer of the service.
#[derive(Debug, Clone)]
pub enum LlmResponse {
    Text { content: String },
    ToolCall { tool_calls: Vec<ToolCall> },
}

/// A request to the completion service.
#[derive(Debug)]
pub struct LlmRequest {
    pub messages: Vec<Message>,
    pub tools: Vec<ToolDefinition>,
    pub model: String,
    pub stream: bool,
}

/// A tool as the completion service is told of it.
#[derive(Debug)]
pub struct ToolDefinition {
    pub function: FunctionDefinition,
    pub tool_type: String,
}

/// Name, description and parameter schema of a tool, for the service.
#[derive(Debug)]
pub struct FunctionDefinition {
    pub name: String,
    pub description: String,
    pub parameters: JsonValue,
}

/// A JSON document built by the library.
#[derive(Debug)]
pub enum JsonValue {
    Null,
    Bool(bool),
    Str(String),
    Array(Vec<JsonValue>),
    Object(Vec<(String, JsonValue)>),
}

/// One event of the completion stream.
#[derive(Debug, Clone)]
pub enum StreamEvent {
    Chunk(StreamChunk),
    Done,
}

/// One data frame of the completion stream.
#[derive(Debug, Clone)]
pub struct StreamChunk {
    pub choices: Vec<StreamChoice>,
}

#[derive(Debug, Clone)]
pub struct StreamChoice {
    pub delta: Option<Delta>,
}

/// The increment that one frame carries: text, tool-call fragments, or both.
#[derive(Debug, Clone)]
pub struct Delta {
    pub content: Option<String>,
    pub tool_calls: Option<Vec<ToolCallChunk>>,
}

/// A fragment of a tool call. The first fragment of a slot carries the
/// call's identifier; the ones after it carry argument text only.
#[derive(Debug, Clone)]
pub struct ToolCallChunk {
    pub index: usize,
    pub id: Option<String>,
    pub function: ToolCallFunctionChunk,
}

#[derive(Debug, Clone)]
pub struct ToolCallFunctionChunk {
    pub name: Option<String>,
    pub arguments: String,
}

pub open spec fn function_name() -> Seq<char> {
    seq!['f', 'u', 'n', 'c', 't', 'i', 'o', 'n']
}

/// The type tag of every tool call and tool definition.
pub fn generate_function() -> (r: String)
    ensures
        r@ == function_name(),
{
    let s = String::from_str("function");
    proof {
        reveal_strlit("function");
        assert(s@ =~= function_name());
    }
    s
}

/// The name of a call whose first fragment named no function.
pub fn default_call_name() -> (r: String)
    ensures
        r@ == Seq::<char>::empty(),
{
    String::new()
}

/// A tool call in terms of views.
pub ghost struct CallView {
    pub id: Seq<char>,
    pub tool_type: Seq<char>,
    pub name: Seq<char>,
    pub arguments: ArgumentsView,
}

impl View for ToolCall {
    type V = CallView;

    open spec fn view(&self) -> CallView {
        CallView {
            id: self.id@,
            tool_type: self.tool_type@,
            name: self.function.name@,
            arguments: self.function.arguments@,
        }
    }
}

pub open spec fn calls_view(calls: Seq<ToolCall>) -> Seq<CallView> {
    calls.map_values(|c: ToolCall| c@)
}

/// A message in terms of views.
pub ghost enum MessageView {
    User(Seq<char>),
    Assistant(Option<Seq<char>>, Option<Seq<CallView>>),
    Tool(Seq<char>, Seq<char>),
}

impl View for Message {
    type V = MessageView;

    open spec fn view(&self) -> MessageView {
        match self {
            Message::User { content } => MessageView::User(content@),
            Message::Assistant { content, tool_calls } => MessageView::Assistant(
                opt_view(*content),
                match tool_calls {
                    Some(v) => Some(calls_view(v@)),
                    None => None,
                },
            ),
            Message::Tool { tool_call_id, content } => MessageView::Tool(tool_call_id@, content@),
        }
    }
}

pub open spec fn is_str(v: JsonValue, s: Seq<char>) -> bool {
    v matches JsonValue::Str(t) && t@ == s
}

/// `v` describes a property: its type, its description and, where it has
/// one, its pattern.
pub open spec fn property_document(v: JsonValue, p: Property) -> bool {
    match v {
        JsonValue::Object(fields) => {
            &&& fields@.len() == if p.pattern is Some {
                3int
            } else {
                2int
            }
            &&& fields@[0].0@ == "type"@ && is_str(fields@[0].1, p.prop_type@)
            &&& fields@[1].0@ == "description"@ && is_str(fields@[1].1, p.description@)
            &&& p.pattern matches Some(pat) ==> fields@[2].0@ == "pattern"@ && is_str(
                fields@[2].1,
                pat@,
            )
        },
        _ => false,
    }
}

/// The entry `e` of a schema document describes the property `p`.
pub open spec fn property_entry(e: (String, JsonValue), p: (String, Property)) -> bool {
    e.0@ == p.0@ && property_document(e.1, p.1)
}

/// `v` is the JSON schema of an object with the schema's properties, in
/// order, and its required names.
pub open spec fn schema_document(v: JsonValue, s: JsonSchema) -> bool {
    match s {
        JsonSchema::Object { properties, required } => match v {
            JsonValue::Object(fields) => {
                &&& fields@.len() == 3
                &&& fields@[0].0@ == "type"@ && is_str(fields@[0].1, "object"@)
                &&& fields@[1].0@ == "properties"@
                &&& fields@[1].1 matches JsonValue::Object(ps) && ps@.len() == properties@.len()
                    && forall|i: int|
                    0 <= i < ps@.len() ==> #[trigger] property_entry(ps@[i], properties@[i])
                &&& fields@[2].0@ == "required"@
                &&& fields@[2].1 matches JsonValue::Array(rs) && rs@.len() == required@.len()
                    && forall|i: int| 0 <= i < rs@.len() ==> is_str(#[trigger] rs@[i], required@[i]@)
            },
            _ => false,
        },
    }
}

fn text_value(s: &String) -> (r: JsonValue)
    ensures
        is_str(r, s@),
{
    JsonValue::Str(s.clone())
}

fn property_json(p: &Property) -> (r: JsonValue)
    ensures
        property_document(r, *p),
{
    let mut fields: Vec<(String, JsonValue)> = Vec::new();
    fields.push((String::from_str("type"), text_value(&p.prop_type)));
    fields.push((String::from_str("description"), text_value(&p.description)));
    match &p.pattern {
        Some(pat) => fields.push((String::from_str("pattern"), text_value(pat))),
        None => {},
    }
    JsonValue::Object(fields)
}

fn schema_json(s: &JsonSchema) -> (r: JsonValue)
    ensures
        schema_document(r, *s),
{
    match s {
        JsonSchema::Object { properties, required } => {
            let mut ps: Vec<(String, JsonValue)> = Vec::new();
            let mut i: usize = 0;
            while i < properties.len()
                invariant
                    i <= properties.len(),
                    ps@.len() == i,
                    forall|k: int| 0 <= k < i ==> #[trigger] property_entry(ps@[k], properties@[k]),
                decreases properties.len() - i,
            {
                let ghost before = ps@;
                let name = properties[i].0.clone();
                let doc = property_json(&properties[i].1);
                assert(property_document(doc, properties@[i as int].1));
                ps.push((name, doc));
                assert(ps@[i as int].1 == doc);
                assert(ps@[i as int].0@ == properties@[i as int].0@);
                assert forall|k: int| 0 <= k < i + 1 implies #[trigger] property_entry(
                    ps@[k],
                    properties@[k],
                ) by {
                    if k < i {
                        assert(ps@[k] == before[k]);
                        assert(property_entry(before[k], properties@[k]));
                    }
                }
                i = i + 1;
            }
            let mut rs: Vec<JsonValue> = Vec::new();
            let mut j: usize = 0;
            while j < required.len()
                invariant
                    j <= required.len(),
                    rs@.len() == j,
                    forall|k: int| 0 <= k < j ==> is_str(#[trigger] rs@[k], required@[k]@),
                decreases required.len() - j,
            {
                rs.push(text_value(&required[j]));
                j = j + 1;
            }
            let mut fields: Vec<(String, JsonValue)> = Vec::new();
            fields.push((String::from_str("type"), JsonValue::Str(String::from_str("object"))));
            fields.push((String::from_str("properties"), JsonValue::Object(ps)));
            fields.push((String::from_str("required"), JsonValue::Array(rs)));
            JsonValue::Object(fields)
        },
    }
}

impl Tool {
    /// The tool as the completion service is told of it: name, description,
    /// and the JSON schema of its last parameter schema (an empty object
    /// where it has none).
    pub fn to_llm_definition(&self) -> (r: ToolDefinition)
        ensures
            r.function.name@ == self.name@,
            r.function.description@ == self.description@,
            r.tool_type@ == function_name(),
            self.input_schema@.len() == 0 ==> (r.function.parameters matches JsonValue::Object(f)
                && f@.len() == 0),
            self.input_schema@.len() > 0 ==> schema_document(
                r.function.parameters,
                self.input_schema@.last(),
            ),
    {
        let mut parameters = JsonValue::Object(Vec::new());
        let mut i: usize = 0;
        while i < self.input_schema.len()
            invariant
                i <= self.input_schema.len(),
                i == 0 ==> (parameters matches JsonValue::Object(f) && f@.len() == 0),
                i > 0 ==> schema_document(parameters, self.input_schema@[i - 1]),
            decreases self.input_schema.len() - i,
        {
            parameters = schema_json(&self.input_schema[i]);
            i = i + 1;
        }
        ToolDefinition {
            function: FunctionDefinition {
                name: self.name.clone(),
                description: self.description.clone(),
                parameters,
            },
            tool_type: generate_function(),
        }
    }
}

/// The field at `i` is the first with this key.
pub open spec fn first_with_key(fields: Seq<(String, JsonValue)>, key: Seq<char>, i: int) -> bool {
    &&& 0 <= i < fields.len()
    &&& fields[i].0@ == key
    &&& forall|j: int| 0 <= j < i ==> (#[trigger] fields[j]).0@ != key
}

fn find_field(f: &Vec<(String, JsonValue)>, key: &str) -> (r: Option<usize>)
    ensures
        match r {
            Some(i) => first_with_key(f@, key@, i as int),
            None => forall|j: int| 0 <= j < f@.len() ==> (#[trigger] f@[j]).0@ != key@,
        },
{
    let k = String::from_str(key);
    let mut i: usize = 0;
    while i < f.len()
        invariant
            i <= f.len(),
            k@ == key@,
            forall|j: int| 0 <= j < i ==> (#[trigger] f@[j]).0@ != key@,
        decreases f.len() - i,
    {
        if f[i].0 == k {
            return Some(i);
        }
        i = i + 1;
    }
    None
}

impl JsonValue {
    /// The fields, where this is an object.
    pub fn as_object(&self) -> (r: Option<&Vec<(String, JsonValue)>>)
        ensures
            match self {
                JsonValue::Object(f) => r == Some(f),
                _ => r is None,
            },
    {
        match self {
            JsonValue::Object(f) => Some(f),
            _ => None,
        }
    }

    /// The text, where this is a string.
    pub fn as_str(&self) -> (r: Option<&str>)
        ensures
            match self {
                JsonValue::Str(s) => r matches Some(t) && t@ == s@,
                _ => r is None,
            },
    {
        match self {
            JsonValue::Str(s) => Some(s.as_str()),
            _ => None,
        }
    }

    /// The value of the first field with this key, where this is an object.
    pub fn get(&self, key: &str) -> (r: Option<&JsonValue>)
        ensures
            match self {
                JsonValue::Object(f) => match r {
                    Some(v) => exists|i: int| #[trigger] first_with_key(f@, key@, i) && f@[i].1 == *v,
                    None => forall|j: int| 0 <= j < f@.len() ==> (#[trigger] f@[j]).0@ != key@,
                },
                _ => r is None,
            },
    {
        match self {
            JsonValue::Object(f) => match find_field(f, key) {
                Some(i) => Some(&f[i].1),
                None => None,
            },
            _ => None,
        }
    }
}

} // verus!
