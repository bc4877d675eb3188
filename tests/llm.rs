use llm_cli::config::{JsonSchema, Property, Tool};
use llm_cli::llm::{default_call_name, generate_function, JsonValue};

#[test]
fn test_tool_to_llm_definition() {
    let tool = Tool {
        name: "test".to_string(),
        description: "Test tool".to_string(),
        input_schema: vec![JsonSchema::Object {
            properties: vec![(
                "message".to_string(),
                Property {
                    prop_type: "string".to_string(),
                    description: "Test message".to_string(),
                    pattern: None,
                },
            )]
            .into_iter()
            .collect(),
            required: vec!["message".to_string()],
        }],
        command: "echo $param_message".to_string(),
        shell: None,
    };

    let def = tool.to_llm_definition();
    assert_eq!(def.function.name, "test");
    assert_eq!(def.function.description, "Test tool");
    let params = &def.function.parameters;
    assert!(params.as_object().is_some());
    assert_eq!(params.get("type").unwrap().as_str(), Some("object"));
    assert!(params.get("properties").is_some());
    assert!(params.get("required").is_some());
}

#[test]
fn definition_lists_properties_and_patterns() {
    let tool = Tool {
        name: "fetch".to_string(),
        description: "Fetch".to_string(),
        input_schema: vec![JsonSchema::Object {
            properties: vec![(
                "url".to_string(),
                Property {
                    prop_type: "string".to_string(),
                    description: "URL".to_string(),
                    pattern: Some("^https://".to_string()),
                },
            )],
            required: vec!["url".to_string()],
        }],
        command: "curl \"$param_url\"".to_string(),
        shell: None,
    };
    let def = tool.to_llm_definition();
    assert_eq!(def.tool_type, "function");
    let props = def.function.parameters.get("properties").unwrap();
    let url = props.get("url").unwrap();
    assert_eq!(url.get("type").unwrap().as_str(), Some("string"));
    assert_eq!(url.get("description").unwrap().as_str(), Some("URL"));
    assert_eq!(url.get("pattern").unwrap().as_str(), Some("^https://"));
    match def.function.parameters.get("required").unwrap() {
        JsonValue::Array(items) => {
            assert_eq!(items.len(), 1);
            assert_eq!(items[0].as_str(), Some("url"));
        }
        other => panic!("unexpected: {:?}", other),
    }
}

#[test]
fn definition_without_schema_is_empty_object() {
    let tool = Tool {
        name: "now".to_string(),
        description: "Time".to_string(),
        input_schema: vec![],
        command: "date".to_string(),
        shell: None,
    };
    let def = tool.to_llm_definition();
    assert_eq!(def.function.parameters.as_object().map(|f| f.len()), Some(0));
    assert!(def.function.parameters.get("type").is_none());
}

#[test]
fn default_names() {
    assert_eq!(generate_function(), "function");
    assert_eq!(default_call_name(), "");
}
