use vstd::prelude::*;
use crate::arguments::{object_keys_distinct, entries_view, ArgumentEntry, ArgumentValue, Arguments, ArgumentsView, ValueView};

verus! {

/// The tool registry: the default shell and the tools that the model may call.
#[derive(Debug, Clone)]
pub struct Config {
    pub shell: String,
    pub tools: Vec<Tool>,
}

/// A locally defined, shell-backed tool.
#[derive(Debug, Clone)]
pub struct Tool {
    pub name: String,
    pub description: String,
    pub input_schema: Vec<JsonSchema>,
    pub command: String,
    pub shell: Option<String>,
}

/// A parameter schema; properties are kept in declaration order.
#[derive(Debug, Clone)]
pub enum JsonSchema {
    Object { properties: Vec<(String, Property)>, required: Vec<String> },
}

/// One declared parameter of a tool.
#[derive(Debug, Clone)]
pub struct Property {
    pub prop_type: String,
    pub description: String,
    pub pattern: Option<String>,
}

/// What validation reads of a schema: each property's name and pattern, and
/// the required names.
pub ghost struct SchemaView {
    pub properties: Seq<(Seq<char>, Option<Seq<char>>)>,
    pub required: Seq<Seq<char>>,
}

pub open spec fn opt_view(s: Option<String>) -> Option<Seq<char>> {
    match s {
        Some(t) => Some(t@),
        None => None,
    }
}

pub open spec fn property_view(p: (String, Property)) -> (Seq<char>, Option<Seq<char>>) {
    (p.0@, opt_view(p.1.pattern))
}

impl View for JsonSchema {
    type V = SchemaView;

    open spec fn view(&self) -> SchemaView {
        match self {
            JsonSchema::Object { properties, required } => SchemaView {
                properties: properties@.map_values(|p: (String, Property)| property_view(p)),
                required: required@.map_values(|r: String| r@),
            },
        }
    }
}

pub open spec fn schemas_view(s: Seq<JsonSchema>) -> Seq<SchemaView> {
    s.map_values(|j: JsonSchema| j@)
}

/// Why a tool's arguments were refused, in terms of views.
pub ghost enum ArgumentFault {
    NotAnObject,
    MissingField(Seq<char>),
    NotAString(Seq<char>),
    PatternMismatch(Seq<char>, Seq<char>),
    InvalidPattern(Seq<char>),
}

/// Why a tool's arguments were refused.
#[derive(Debug, Clone)]
pub enum ArgumentError {
    NotAnObject,
    MissingField(String),
    NotAString(String),
    PatternMismatch { field: String, pattern: String },
    InvalidPattern(String),
}

impl View for ArgumentError {
    type V = ArgumentFault;

    open spec fn view(&self) -> ArgumentFault {
        match self {
            ArgumentError::NotAnObject => ArgumentFault::NotAnObject,
            ArgumentError::MissingField(f) => ArgumentFault::MissingField(f@),
            ArgumentError::NotAString(f) => ArgumentFault::NotAString(f@),
            ArgumentError::PatternMismatch { field, pattern } => ArgumentFault::PatternMismatch(
                field@,
                pattern@,
            ),
            ArgumentError::InvalidPattern(p) => ArgumentFault::InvalidPattern(p@),
        }
    }
}

/// Whether the regex crate compiles a pattern.
pub uninterp spec fn regex_compiles(pattern: Seq<char>) -> bool;

/// Whether a compiled pattern finds a match anywhere in a text.
pub uninterp spec fn regex_finds(pattern: Seq<char>, text: Seq<char>) -> bool;

/// Relies on `regex::Regex::new`, which fails exactly on patterns it cannot
/// compile.
#[verifier::external_body]
fn pattern_compiles(pattern: &str) -> (r: bool)
    ensures
        r == regex_compiles(pattern@),
{
    regex::Regex::new(pattern).is_ok()
}

/// Relies on `regex::Regex::new` and `regex::Regex::is_match`: `None` where
/// the pattern does not compile, else whether it matches anywhere in the text.
#[verifier::external_body]
fn pattern_search(pattern: &str, text: &str) -> (r: Option<bool>)
    ensures
        r is Some <==> regex_compiles(pattern@),
        r matches Some(b) ==> b == regex_finds(pattern@, text@),
{
    regex::Regex::new(pattern).ok().map(|re| re.is_match(text))
}

pub open spec fn has_key(entries: Seq<(Seq<char>, ValueView)>, key: Seq<char>) -> bool {
    exists|i: int| 0 <= i < entries.len() && #[trigger] entries[i].0 == key
}

/// The first required name that the arguments lack.
pub open spec fn first_missing(
    required: Seq<Seq<char>>,
    entries: Seq<(Seq<char>, ValueView)>,
) -> Option<Seq<char>>
    decreases required.len(),
{
    if required.len() == 0 {
        None
    } else if !has_key(entries, required[0]) {
        Some(required[0])
    } else {
        first_missing(required.drop_first(), entries)
    }
}

/// The pattern of the first declared property with this name, if it has one.
pub open spec fn pattern_of(props: Seq<(Seq<char>, Option<Seq<char>>)>, key: Seq<char>) -> Option<
    Seq<char>,
>
    decreases props.len(),
{
    if props.len() == 0 {
        None
    } else if props[0].0 == key {
        props[0].1
    } else {
        pattern_of(props.drop_first(), key)
    }
}

/// What is wrong with one argument property, if anything.
pub open spec fn entry_fault(
    props: Seq<(Seq<char>, Option<Seq<char>>)>,
    entry: (Seq<char>, ValueView),
) -> Option<ArgumentFault> {
    match pattern_of(props, entry.0) {
        None => None,
        Some(p) => match entry.1 {
            ValueView::Json(_) => Some(ArgumentFault::NotAString(entry.0)),
            ValueView::Text(t) => if !regex_compiles(p) {
                Some(ArgumentFault::InvalidPattern(p))
            } else if regex_finds(p, t) {
                None
            } else {
                Some(ArgumentFault::PatternMismatch(entry.0, p))
            },
        },
    }
}

/// The fault of the first argument property that has one.
pub open spec fn first_entry_fault(
    props: Seq<(Seq<char>, Option<Seq<char>>)>,
    entries: Seq<(Seq<char>, ValueView)>,
) -> Option<ArgumentFault>
    decreases entries.len(),
{
    if entries.len() == 0 {
        None
    } else {
        match entry_fault(props, entries[0]) {
            Some(f) => Some(f),
            None => first_entry_fault(props, entries.drop_first()),
        }
    }
}

/// The first fault of the arguments against one schema: they must form an
/// object, hold every required name, and each property with a pattern must
/// be a string in which the pattern finds a match.
pub open spec fn schema_fault(schema: SchemaView, args: ArgumentsView) -> Option<ArgumentFault> {
    match args {
        ArgumentsView::Object(entries) => match first_missing(schema.required, entries) {
            Some(k) => Some(ArgumentFault::MissingField(k)),
            None => first_entry_fault(schema.properties, entries),
        },
        _ => Some(ArgumentFault::NotAnObject),
    }
}

/// The first fault of the arguments against a list of schemas.
pub open spec fn input_fault(schemas: Seq<SchemaView>, args: ArgumentsView) -> Option<
    ArgumentFault,
>
    decreases schemas.len(),
{
    if schemas.len() == 0 {
        None
    } else {
        match schema_fault(schemas[0], args) {
            Some(f) => Some(f),
            None => input_fault(schemas.drop_first(), args),
        }
    }
}

pub open spec fn bash_name() -> Seq<char> {
    seq!['b', 'a', 's', 'h']
}

/// The shell used where neither the configuration nor a tool names one.
pub fn default_shell() -> (r: String)
    ensures
        r@ == bash_name(),
{
    let s = String::from_str("bash");
    proof {
        reveal_strlit("bash");
        assert(s@ =~= bash_name());
    }
    s
}

pub open spec fn param_prefix() -> Seq<char> {
    seq!['p', 'a', 'r', 'a', 'm', '_']
}

/// The environment value of an argument: a string verbatim, any other value
/// as its JSON text.
pub open spec fn value_text(v: ValueView) -> Seq<char> {
    match v {
        ValueView::Text(s) => s,
        ValueView::Json(s) => s,
    }
}

pub open spec fn env_binding(e: (Seq<char>, ValueView)) -> (Seq<char>, Seq<char>) {
    (param_prefix() + e.0, value_text(e.1))
}

/// The environment bindings for a tool's arguments: one per property of an
/// object, none for anything else.
pub open spec fn env_bindings(args: ArgumentsView) -> Seq<(Seq<char>, Seq<char>)> {
    match args {
        ArgumentsView::Object(entries) => entries.map_values(
            |e: (Seq<char>, ValueView)| env_binding(e),
        ),
        _ => Seq::empty(),
    }
}

proof fn lemma_prefix_injective(a: Seq<char>, b: Seq<char>)
    requires
        param_prefix() + a == param_prefix() + b,
    ensures
        a == b,
{
    let n = param_prefix().len() as int;
    assert((param_prefix() + a).subrange(n, n + a.len()) =~= a);
    assert((param_prefix() + b).subrange(n, n + b.len()) =~= b);
}

pub open spec fn pairs_view(v: Seq<(String, String)>) -> Seq<(Seq<char>, Seq<char>)> {
    v.map_values(|p: (String, String)| (p.0@, p.1@))
}

impl Tool {
    /// The shell that runs this tool: its own, else the default given.
    pub fn get_shell(&self, default: &str) -> (r: String)
        ensures
            r@ == match self.shell {
                Some(s) => s@,
                None => default@,
            },
    {
        match &self.shell {
            Some(s) => s.clone(),
            None => default.to_string(),
        }
    }

    /// Checks the arguments against every schema of the tool, in order, and
    /// reports the first fault found.
    pub fn validate_input(&self, input: &Arguments) -> (r: Result<(), ArgumentError>)
        ensures
            match r {
                Ok(()) => input_fault(schemas_view(self.input_schema@), input@) is None,
                Err(e) => input_fault(schemas_view(self.input_schema@), input@) == Some(e@),
            },
    {
        let ghost all = schemas_view(self.input_schema@);
        let mut i: usize = 0;
        assert(all.subrange(0, all.len() as int) =~= all);
        while i < self.input_schema.len()
            invariant
                i <= self.input_schema.len(),
                all == schemas_view(self.input_schema@),
                input_fault(all, input@) == input_fault(all.subrange(i as int, all.len() as int), input@),
            decreases self.input_schema.len() - i,
        {
            let ghost rest = all.subrange(i as int, all.len() as int);
            assert(rest.drop_first() =~= all.subrange(i + 1, all.len() as int));
            match check_schema(&self.input_schema[i], input) {
                Err(e) => return Err(e),
                Ok(()) => {},
            }
            i = i + 1;
        }
        assert(all.subrange(i as int, all.len() as int) =~= Seq::<SchemaView>::empty());
        Ok(())
    }

    /// The command to run for these arguments: the tool's template, once the
    /// arguments pass validation.
    pub fn build_command(&self, input: &Arguments) -> (r: Result<String, ArgumentError>)
        ensures
            match r {
                Ok(c) => input_fault(schemas_view(self.input_schema@), input@) is None && c@
                    == self.command@,
                Err(e) => input_fault(schemas_view(self.input_schema@), input@) == Some(e@),
            },
    {
        match self.validate_input(input) {
            Ok(()) => Ok(self.command.clone()),
            Err(e) => Err(e),
        }
    }

    /// One `param_<key>` binding per property of the arguments, in order;
    /// distinct keys give distinct variable names.
    pub fn build_env_vars(&self, input: &Arguments) -> (r: Vec<(String, String)>)
        ensures
            pairs_view(r@) == env_bindings(input@),
            object_keys_distinct(input@) ==> forall|i: int, j: int|
                0 <= i < j < r@.len() ==> (#[trigger] r@[i]).0@ != (#[trigger] r@[j]).0@,
    {
        let mut out: Vec<(String, String)> = Vec::new();
        match input {
            Arguments::Object(entries) => {
                let ghost want = env_bindings(input@);
                let mut i: usize = 0;
                while i < entries.len()
                    invariant
                        i <= entries.len(),
                        want == entries@.map_values(|e: ArgumentEntry| env_binding(e@)),
                        pairs_view(out@) =~= want.subrange(0, i as int),
                    decreases entries.len() - i,
                {
                    let entry = &entries[i];
                    let mut name = String::from_str("param_");
                    proof {
                        reveal_strlit("param_");
                        assert(name@ =~= param_prefix());
                    }
                    name.append(entry.key.as_str());
                    let value = match &entry.value {
                        ArgumentValue::Text(s) => s.clone(),
                        ArgumentValue::Json(s) => s.clone(),
                    };
                    let ghost before = out@;
                    out.push((name, value));
                    proof {
                        assert(want[i as int] == env_binding(entry@));
                        assert(pairs_view(out@) =~= pairs_view(before).push(env_binding(entry@)));
                        assert(want.subrange(0, i + 1) =~= want.subrange(0, i as int).push(want[i as int]));
                    }
                    i = i + 1;
                }
                assert(want.subrange(0, entries.len() as int) =~= want);
                proof {
                    let ev = entries_view(entries@);
                    if object_keys_distinct(input@) {
                        assert forall|i: int, j: int| 0 <= i < j < out@.len() implies (
                        #[trigger] out@[i]).0@ != (#[trigger] out@[j]).0@ by {
                            assert(pairs_view(out@)[i].0 == out@[i].0@);
                            assert(pairs_view(out@)[j].0 == out@[j].0@);
                            assert(ev[i].0 != ev[j].0);
                            if out@[i].0@ == out@[j].0@ {
                                lemma_prefix_injective(ev[i].0, ev[j].0);
                            }
                        }
                    }
                }
            },
            _ => {},
        }
        out
    }
}

/// Checks the arguments against one schema.
fn check_schema(schema: &JsonSchema, input: &Arguments) -> (r: Result<(), ArgumentError>)
    ensures
        match r {
            Ok(()) => schema_fault(schema@, input@) is None,
            Err(e) => schema_fault(schema@, input@) == Some(e@),
        },
{
    match schema {
        JsonSchema::Object { properties, required } => {
            let entries = match input {
                Arguments::Object(entries) => entries,
                _ => return Err(ArgumentError::NotAnObject),
            };
            match find_missing(required, entries) {
                Some(k) => return Err(ArgumentError::MissingField(k)),
                None => {},
            }
            check_entries(properties, entries)
        },
    }
}

fn contains_key(entries: &Vec<ArgumentEntry>, key: &String) -> (r: bool)
    ensures
        r == has_key(entries_view(entries@), key@),
{
    let ghost ev = entries_view(entries@);
    let mut i: usize = 0;
    while i < entries.len()
        invariant
            i <= entries.len(),
            ev == entries_view(entries@),
            forall|j: int| 0 <= j < i ==> ev[j].0 != key@,
        decreases entries.len() - i,
    {
        if entries[i].key == *key {
            assert(ev[i as int].0 == key@);
            return true;
        }
        i = i + 1;
    }
    false
}

fn find_missing(required: &Vec<String>, entries: &Vec<ArgumentEntry>) -> (r: Option<String>)
    ensures
        opt_view(r) == first_missing(
            required@.map_values(|s: String| s@),
            entries_view(entries@),
        ),
{
    let ghost req = required@.map_values(|s: String| s@);
    let ghost ev = entries_view(entries@);
    let mut i: usize = 0;
    assert(req.subrange(0, req.len() as int) =~= req);
    while i < required.len()
        invariant
            i <= required.len(),
            req == required@.map_values(|s: String| s@),
            ev == entries_view(entries@),
            first_missing(req, ev) == first_missing(req.subrange(i as int, req.len() as int), ev),
        decreases required.len() - i,
    {
        let ghost rest = req.subrange(i as int, req.len() as int);
        assert(rest.drop_first() =~= req.subrange(i + 1, req.len() as int));
        if !contains_key(entries, &required[i]) {
            return Some(required[i].clone());
        }
        i = i + 1;
    }
    assert(req.subrange(i as int, req.len() as int) =~= Seq::<Seq<char>>::empty());
    None
}

fn find_pattern(properties: &Vec<(String, Property)>, key: &String) -> (r: Option<String>)
    ensures
        opt_view(r) == pattern_of(
            properties@.map_values(|p: (String, Property)| property_view(p)),
            key@,
        ),
{
    let ghost ps = properties@.map_values(|p: (String, Property)| property_view(p));
    let mut i: usize = 0;
    assert(ps.subrange(0, ps.len() as int) =~= ps);
    while i < properties.len()
        invariant
            i <= properties.len(),
            ps == properties@.map_values(|p: (String, Property)| property_view(p)),
            pattern_of(ps, key@) == pattern_of(ps.subrange(i as int, ps.len() as int), key@),
        decreases properties.len() - i,
    {
        let ghost rest = ps.subrange(i as int, ps.len() as int);
        assert(rest.drop_first() =~= ps.subrange(i + 1, ps.len() as int));
        if properties[i].0 == *key {
            return properties[i].1.pattern.clone();
        }
        i = i + 1;
    }
    assert(ps.subrange(i as int, ps.len() as int) =~= Seq::<(Seq<char>, Option<Seq<char>>)>::empty());
    None
}

fn check_entries(properties: &Vec<(String, Property)>, entries: &Vec<ArgumentEntry>) -> (r: Result<
    (),
    ArgumentError,
>)
    ensures
        match r {
            Ok(()) => first_entry_fault(
                properties@.map_values(|p: (String, Property)| property_view(p)),
                entries_view(entries@),
            ) is None,
            Err(e) => first_entry_fault(
                properties@.map_values(|p: (String, Property)| property_view(p)),
                entries_view(entries@),
            ) == Some(e@),
        },
{
    let ghost ps = properties@.map_values(|p: (String, Property)| property_view(p));
    let ghost ev = entries_view(entries@);
    let mut i: usize = 0;
    assert(ev.subrange(0, ev.len() as int) =~= ev);
    while i < entries.len()
        invariant
            i <= entries.len(),
            ps == properties@.map_values(|p: (String, Property)| property_view(p)),
            ev == entries_view(entries@),
            first_entry_fault(ps, ev) == first_entry_fault(ps, ev.subrange(i as int, ev.len() as int)),
        decreases entries.len() - i,
    {
        let ghost rest = ev.subrange(i as int, ev.len() as int);
        assert(rest.drop_first() =~= ev.subrange(i + 1, ev.len() as int));
        let entry = &entries[i];
        assert(rest[0] == entry@);
        match find_pattern(properties, &entry.key) {
            None => {},
            Some(p) => match &entry.value {
                ArgumentValue::Json(_) => return Err(ArgumentError::NotAString(entry.key.clone())),
                ArgumentValue::Text(t) => match pattern_search(p.as_str(), t.as_str()) {
                    None => return Err(ArgumentError::InvalidPattern(p)),
                    Some(true) => {},
                    Some(false) => return Err(
                        ArgumentError::PatternMismatch { field: entry.key.clone(), pattern: p },
                    ),
                },
            },
        }
        i = i + 1;
    }
    assert(ev.subrange(i as int, ev.len() as int) =~= Seq::<(Seq<char>, ValueView)>::empty());
    Ok(())
}

/// The human-readable reason for a refusal.
pub open spec fn fault_message(f: ArgumentFault) -> Seq<char> {
    match f {
        ArgumentFault::NotAnObject => "Input must be an object"@,
        ArgumentFault::MissingField(k) => "Missing required field: "@ + k,
        ArgumentFault::NotAString(k) => "Property "@ + k + " must be a string"@,
        ArgumentFault::PatternMismatch(k, p) => "Property "@ + k + " doesn't match pattern "@ + p,
        ArgumentFault::InvalidPattern(p) => "Invalid pattern: "@ + p,
    }
}

impl ArgumentError {
    /// The human-readable reason, naming the field or pattern concerned.
    pub fn message(&self) -> (r: String)
        ensures
            r@ == fault_message(self@),
    {
        match self {
            ArgumentError::NotAnObject => String::from_str("Input must be an object"),
            ArgumentError::MissingField(k) => String::from_str("Missing required field: ").concat(
                k.as_str(),
            ),
            ArgumentError::NotAString(k) => String::from_str("Property ").concat(k.as_str()).concat(
                " must be a string",
            ),
            ArgumentError::PatternMismatch { field, pattern } => String::from_str(
                "Property ",
            ).concat(field.as_str()).concat(" doesn't match pattern ").concat(pattern.as_str()),
            ArgumentError::InvalidPattern(p) => String::from_str("Invalid pattern: ").concat(
                p.as_str(),
            ),
        }
    }
}

/// Every pattern that the schema declares compiles.
pub open spec fn schema_patterns_compile(s: SchemaView) -> bool {
    forall|i: int|
        0 <= i < s.properties.len() ==> match #[trigger] s.properties[i].1 {
            Some(p) => regex_compiles(p),
            None => true,
        }
}

/// Every pattern that the tool declares compiles.
pub open spec fn tool_patterns_compile(t: Tool) -> bool {
    forall|k: int|
        0 <= k < t.input_schema@.len() ==> schema_patterns_compile(
            #[trigger] t.input_schema@[k]@,
        )
}

/// Every pattern in the registry compiles.
pub open spec fn config_patterns_compile(c: Config) -> bool {
    forall|i: int| 0 <= i < c.tools@.len() ==> tool_patterns_compile(#[trigger] c.tools@[i])
}

/// The schema declares this pattern for one of its properties.
pub open spec fn schema_declares(s: SchemaView, p: Seq<char>) -> bool {
    exists|j: int| 0 <= j < s.properties.len() && #[trigger] s.properties[j].1 == Some(p)
}

/// One of the tool's schemas declares this pattern.
pub open spec fn tool_declares(t: Tool, p: Seq<char>) -> bool {
    exists|k: int| 0 <= k < t.input_schema@.len() && schema_declares(#[trigger] t.input_schema@[k]@, p)
}

/// One of the registry's tools declares this pattern.
pub open spec fn config_declares(c: Config, p: Seq<char>) -> bool {
    exists|i: int| 0 <= i < c.tools@.len() && tool_declares(#[trigger] c.tools@[i], p)
}

/// No two properties of the schema share a name.
pub open spec fn properties_unique(s: SchemaView) -> bool {
    forall|i: int, j: int|
        0 <= i < j < s.properties.len() ==> (#[trigger] s.properties[i]).0 != (
        #[trigger] s.properties[j]).0
}

/// No schema of the registry declares two properties of one name.
pub open spec fn config_names_unique(c: Config) -> bool {
    forall|i: int, k: int|
        0 <= i < c.tools@.len() && 0 <= k < c.tools@[i].input_schema@.len() ==> properties_unique(
            #[trigger] c.tools@[i].input_schema@[k]@,
        )
}

/// Where property names are unique, the pattern that validation applies to
/// an argument is the one declared by the property of that name.
pub proof fn lemma_pattern_of_unique(props: Seq<(Seq<char>, Option<Seq<char>>)>, i: int)
    requires
        0 <= i < props.len(),
        forall|a: int, b: int| 0 <= a < b < props.len() ==> (#[trigger] props[a]).0 != (
        #[trigger] props[b]).0,
    ensures
        pattern_of(props, props[i].0) == props[i].1,
    decreases props.len(),
{
    if i > 0 {
        let rest = props.drop_first();
        assert(props[0].0 != props[i].0);
        assert(rest[i - 1] == props[i]);
        assert forall|a: int, b: int| 0 <= a < b < rest.len() implies (#[trigger] rest[a]).0 != (
        #[trigger] rest[b]).0 by {
            assert(rest[a] == props[a + 1] && rest[b] == props[b + 1]);
        }
        lemma_pattern_of_unique(rest, i - 1);
    }
}

/// A configuration that cannot be used.
#[derive(Debug, Clone)]
pub enum ConfigError {
    /// A declared pattern does not compile.
    InvalidPattern(String),
    /// A schema declares two properties of this name.
    DuplicateProperty(String),
}

fn check_schema_patterns(s: &JsonSchema) -> (r: Result<(), ConfigError>)
    ensures
        r is Ok <==> schema_patterns_compile(s@),
        match r {
            Ok(()) => true,
            Err(ConfigError::InvalidPattern(p)) => !regex_compiles(p@) && schema_declares(s@, p@),
            Err(_) => false,
        },
{
    match s {
        JsonSchema::Object { properties, .. } => {
            let ghost ps = s@.properties;
            let mut i: usize = 0;
            while i < properties.len()
                invariant
                    i <= properties.len(),
                    ps == properties@.map_values(|p: (String, Property)| property_view(p)),
                    ps == s@.properties,
                    forall|j: int|
                        0 <= j < i ==> match #[trigger] ps[j].1 {
                            Some(p) => regex_compiles(p),
                            None => true,
                        },
                decreases properties.len() - i,
            {
                match &properties[i].1.pattern {
                    Some(p) => {
                        if !pattern_compiles(p.as_str()) {
                            assert(ps[i as int].1 == Some(p@));
                            return Err(ConfigError::InvalidPattern(p.clone()));
                        }
                    },
                    None => {},
                }
                i = i + 1;
            }
            Ok(())
        },
    }
}

fn check_schema_names(s: &JsonSchema) -> (r: Result<(), ConfigError>)
    ensures
        r is Ok <==> properties_unique(s@),
        match r {
            Ok(()) => true,
            Err(ConfigError::DuplicateProperty(n)) => exists|a: int, b: int|
                0 <= a < b < s@.properties.len() && (#[trigger] s@.properties[a]).0 == n@ && (
                #[trigger] s@.properties[b]).0 == n@,
            Err(_) => false,
        },
{
    match s {
        JsonSchema::Object { properties, .. } => {
            let ghost ps = s@.properties;
            let mut i: usize = 0;
            while i < properties.len()
                invariant
                    i <= properties.len(),
                    ps == properties@.map_values(|p: (String, Property)| property_view(p)),
                    ps == s@.properties,
                    forall|a: int, b: int|
                        0 <= a < i && a < b < ps.len() ==> (#[trigger] ps[a]).0 != (
                        #[trigger] ps[b]).0,
                decreases properties.len() - i,
            {
                let mut j: usize = i + 1;
                while j < properties.len()
                    invariant
                        i < properties.len(),
                        i < j <= properties.len(),
                        ps == properties@.map_values(|p: (String, Property)| property_view(p)),
                        ps == s@.properties,
                        forall|a: int, b: int|
                            0 <= a < i && a < b < ps.len() ==> (#[trigger] ps[a]).0 != (
                            #[trigger] ps[b]).0,
                        forall|b: int| i < b < j ==> ps[i as int].0 != (#[trigger] ps[b]).0,
                    decreases properties.len() - j,
                {
                    if properties[i].0 == properties[j].0 {
                        assert(ps[i as int].0 == properties[i as int].0@);
                        assert(ps[j as int].0 == properties[j as int].0@);
                        return Err(ConfigError::DuplicateProperty(properties[i].0.clone()));
                    }
                    j = j + 1;
                }
                i = i + 1;
            }
            Ok(())
        },
    }
}

impl Config {
    /// Checks that every declared pattern compiles, so that dispatching
    /// never meets one that does not; reports one that does not.
    pub fn check_patterns(&self) -> (r: Result<(), ConfigError>)
        ensures
            r is Ok <==> config_patterns_compile(*self),
            match r {
                Ok(()) => true,
                Err(ConfigError::InvalidPattern(p)) => !regex_compiles(p@) && config_declares(
                    *self,
                    p@,
                ),
                Err(_) => false,
            },
    {
        let mut i: usize = 0;
        while i < self.tools.len()
            invariant
                i <= self.tools.len(),
                forall|j: int| 0 <= j < i ==> tool_patterns_compile(#[trigger] self.tools@[j]),
            decreases self.tools.len() - i,
        {
            let tool = &self.tools[i];
            let mut k: usize = 0;
            while k < tool.input_schema.len()
                invariant
                    k <= tool.input_schema.len(),
                    *tool == self.tools@[i as int],
                    i < self.tools.len(),
                    forall|j: int|
                        0 <= j < k ==> schema_patterns_compile(#[trigger] tool.input_schema@[j]@),
                decreases tool.input_schema.len() - k,
            {
                match check_schema_patterns(&tool.input_schema[k]) {
                    Ok(()) => {},
                    Err(e) => {
                        proof {
                            let sv = tool.input_schema@[k as int]@;
                            if let ConfigError::InvalidPattern(q) = &e {
                                assert(schema_declares(sv, q@));
                                assert(tool_declares(*tool, q@));
                                assert(config_declares(*self, q@));
                                let jj = choose|jj: int|
                                    0 <= jj < sv.properties.len() && #[trigger] sv.properties[jj].1
                                        == Some(q@);
                                assert(!schema_patterns_compile(sv));
                                assert(!tool_patterns_compile(*tool));
                            }
                        }
                        return Err(e);
                    },
                }
                k = k + 1;
            }
            i = i + 1;
        }
        Ok(())
    }

    /// Checks that no schema declares two properties of one name; reports a
    /// name declared twice.
    pub fn check_property_names(&self) -> (r: Result<(), ConfigError>)
        ensures
            r is Ok <==> config_names_unique(*self),
            match r {
                Ok(()) => true,
                Err(ConfigError::DuplicateProperty(n)) => exists|i: int, k: int|
                    0 <= i < self.tools@.len() && 0 <= k < self.tools@[i].input_schema@.len()
                        && !properties_unique(#[trigger] self.tools@[i].input_schema@[k]@),
                Err(_) => false,
            },
    {
        let mut i: usize = 0;
        while i < self.tools.len()
            invariant
                i <= self.tools.len(),
                forall|a: int, k: int|
                    0 <= a < i && 0 <= k < self.tools@[a].input_schema@.len() ==> properties_unique(
                        #[trigger] self.tools@[a].input_schema@[k]@,
                    ),
            decreases self.tools.len() - i,
        {
            let tool = &self.tools[i];
            let mut k: usize = 0;
            while k < tool.input_schema.len()
                invariant
                    k <= tool.input_schema.len(),
                    *tool == self.tools@[i as int],
                    i < self.tools.len(),
                    forall|a: int, b: int|
                        0 <= a < i && 0 <= b < self.tools@[a].input_schema@.len()
                            ==> properties_unique(#[trigger] self.tools@[a].input_schema@[b]@),
                    forall|j: int|
                        0 <= j < k ==> properties_unique(#[trigger] tool.input_schema@[j]@),
                decreases tool.input_schema.len() - k,
            {
                match check_schema_names(&tool.input_schema[k]) {
                    Ok(()) => {},
                    Err(e) => {
                        assert(!properties_unique(self.tools@[i as int].input_schema@[k as int]@));
                        return Err(e);
                    },
                }
                k = k + 1;
            }
            i = i + 1;
        }
        Ok(())
    }
}

} // verus!
