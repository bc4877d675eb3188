use llm_cli::arguments::{parse_arguments, ArgumentValue, Arguments};
use llm_cli::config::{default_shell, ArgumentError, Config, ConfigError, JsonSchema, Property, Tool};

fn url_tool() -> Tool {
    Tool {
        name: "test".to_string(),
        description: "Test tool".to_string(),
        input_schema: vec![JsonSchema::Object {
            properties: vec![(
                "url".to_string(),
                Property {
                    prop_type: "string".to_string(),
                    description: "URL".to_string(),
                    pattern: Some(r"^https?://.*".to_string()),
                },
            )]
            .into_iter()
            .collect(),
            required: vec!["url".to_string()],
        }],
        command: "test".to_string(),
        shell: None,
    }
}

#[test]
fn test_validate_input() {
    let tool = url_tool();

    let valid_input = parse_arguments(r#"{"url": "https://example.com"}"#);
    assert!(tool.validate_input(&valid_input).is_ok());

    let invalid_input = parse_arguments(r#"{"url": "not-a-url"}"#);
    assert!(tool.validate_input(&invalid_input).is_err());
}

#[test]
fn validate_reports_missing_field_by_name() {
    let tool = url_tool();
    let empty = parse_arguments("{}");
    match tool.validate_input(&empty) {
        Err(ArgumentError::MissingField(f)) => assert_eq!(f, "url"),
        other => panic!("unexpected: {:?}", other),
    }
    let e = tool.validate_input(&empty).unwrap_err();
    assert_eq!(e.message(), "Missing required field: url");
}

#[test]
fn validate_reports_pattern_mismatch() {
    let tool = url_tool();
    let input = parse_arguments(r#"{"url": "not-a-url"}"#);
    match tool.validate_input(&input) {
        Err(ArgumentError::PatternMismatch { field, pattern }) => {
            assert_eq!(field, "url");
            assert_eq!(pattern, "^https?://.*");
        }
        other => panic!("unexpected: {:?}", other),
    }
    assert_eq!(
        tool.validate_input(&input).unwrap_err().message(),
        "Property url doesn't match pattern ^https?://.*"
    );
}

#[test]
fn validate_refuses_non_string_for_pattern() {
    let tool = url_tool();
    let input = parse_arguments(r#"{"url": 42}"#);
    match tool.validate_input(&input) {
        Err(ArgumentError::NotAString(f)) => assert_eq!(f, "url"),
        other => panic!("unexpected: {:?}", other),
    }
}

#[test]
fn validate_refuses_non_object() {
    let tool = url_tool();
    let input = parse_arguments("[1, 2]");
    assert!(matches!(tool.validate_input(&input), Err(ArgumentError::NotAnObject)));
    assert_eq!(ArgumentError::NotAnObject.message(), "Input must be an object");
}

#[test]
fn build_command_returns_template_after_validation() {
    let tool = url_tool();
    let ok = parse_arguments(r#"{"url": "http://a"}"#);
    assert_eq!(tool.build_command(&ok).unwrap(), "test");
    let bad = parse_arguments(r#"{"url": "ftp://a"}"#);
    assert!(tool.build_command(&bad).is_err());
}

#[test]
fn env_vars_bind_each_property() {
    let tool = url_tool();
    let input = parse_arguments(r#"{"n": 5, "s": "x y", "o": {"k": true}}"#);
    let mut env = tool.build_env_vars(&input);
    env.sort();
    assert_eq!(
        env,
        vec![
            ("param_n".to_string(), "5".to_string()),
            ("param_o".to_string(), r#"{"k":true}"#.to_string()),
            ("param_s".to_string(), "x y".to_string()),
        ]
    );
    let not_object = parse_arguments("\"text\"");
    assert!(tool.build_env_vars(&not_object).is_empty());
}

#[test]
fn shell_resolution() {
    let mut tool = url_tool();
    assert_eq!(tool.get_shell("zsh"), "zsh");
    tool.shell = Some("sh".to_string());
    assert_eq!(tool.get_shell("zsh"), "sh");
    assert_eq!(default_shell(), "bash");
}

#[test]
fn parse_arguments_reads_objects_and_marks_bad_text() {
    match parse_arguments(r#"{"message":"hi"}"#) {
        Arguments::Object(entries) => {
            assert_eq!(entries.len(), 1);
            assert_eq!(entries[0].key, "message");
            assert!(matches!(&entries[0].value, ArgumentValue::Text(s) if s == "hi"));
        }
        other => panic!("unexpected: {:?}", other),
    }
    assert!(matches!(parse_arguments("3"), Arguments::Other(s) if s == "3"));
    assert!(matches!(parse_arguments("{\"a\":"), Arguments::Invalid(s) if s == "{\"a\":"));
}

#[test]
fn check_patterns_finds_bad_pattern() {
    let mut config = Config { shell: default_shell(), tools: vec![url_tool()] };
    assert!(config.check_patterns().is_ok());
    let mut bad = url_tool();
    bad.name = "bad".to_string();
    bad.input_schema = vec![JsonSchema::Object {
        properties: vec![(
            "x".to_string(),
            Property {
                prop_type: "string".to_string(),
                description: "X".to_string(),
                pattern: Some("(unclosed".to_string()),
            },
        )],
        required: vec![],
    }];
    config.tools.push(bad);
    match config.check_patterns() {
        Err(ConfigError::InvalidPattern(p)) => assert_eq!(p, "(unclosed"),
        other => panic!("unexpected: {:?}", other),
    }
}

#[test]
fn check_property_names_finds_duplicate() {
    let mut config = Config { shell: default_shell(), tools: vec![url_tool()] };
    assert!(config.check_property_names().is_ok());
    let prop = || Property {
        prop_type: "string".to_string(),
        description: "X".to_string(),
        pattern: None,
    };
    let mut twice = url_tool();
    twice.name = "twice".to_string();
    twice.input_schema = vec![JsonSchema::Object {
        properties: vec![("x".to_string(), prop()), ("y".to_string(), prop()), ("x".to_string(), prop())],
        required: vec![],
    }];
    config.tools.push(twice);
    match config.check_property_names() {
        Err(ConfigError::DuplicateProperty(n)) => assert_eq!(n, "x"),
        other => panic!("unexpected: {:?}", other),
    }
    assert!(config.check_patterns().is_ok());
}

#[test]
fn env_var_names_are_distinct() {
    let tool = url_tool();
    let input = parse_arguments(r#"{"a": "1", "b": "2", "a": "3"}"#);
    let env = tool.build_env_vars(&input);
    let mut names: Vec<&str> = env.iter().map(|(n, _)| n.as_str()).collect();
    names.sort();
    names.dedup();
    assert_eq!(names.len(), env.len());
}
