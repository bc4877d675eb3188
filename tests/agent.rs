use llm_cli::accumulator::{StreamAccumulator, StreamError};
use llm_cli::arguments::{ArgumentValue, Arguments};
use llm_cli::config::{ArgumentError, Config, JsonSchema, Property, Tool};
use llm_cli::conversation::{Conversation, LogEvent, Phase};
use llm_cli::executor::{command_result, tool_message_content, CommandOutcome, DispatchError, Executor};
use llm_cli::llm::{Delta, Message, StreamChoice, StreamChunk, ToolCallChunk, ToolCallFunctionChunk};

fn text_chunk(s: &str) -> StreamChunk {
    StreamChunk {
        choices: vec![StreamChoice {
            delta: Some(Delta { content: Some(s.to_string()), tool_calls: None }),
        }],
    }
}

fn call_chunk(index: usize, id: Option<&str>, name: Option<&str>, args: &str) -> StreamChunk {
    StreamChunk {
        choices: vec![StreamChoice {
            delta: Some(Delta {
                content: None,
                tool_calls: Some(vec![ToolCallChunk {
                    index,
                    id: id.map(|s| s.to_string()),
                    function: ToolCallFunctionChunk {
                        name: name.map(|s| s.to_string()),
                        arguments: args.to_string(),
                    },
                }]),
            }),
        }],
    }
}

fn echo_tool() -> Tool {
    Tool {
        name: "echo".to_string(),
        description: "Echo a message".to_string(),
        input_schema: vec![JsonSchema::Object {
            properties: vec![(
                "message".to_string(),
                Property {
                    prop_type: "string".to_string(),
                    description: "Message to echo".to_string(),
                    pattern: None,
                },
            )],
            required: vec!["message".to_string()],
        }],
        command: "echo \"$param_message\"".to_string(),
        shell: None,
    }
}

fn url_tool() -> Tool {
    Tool {
        name: "fetch".to_string(),
        description: "Fetch a URL".to_string(),
        input_schema: vec![JsonSchema::Object {
            properties: vec![(
                "url".to_string(),
                Property {
                    prop_type: "string".to_string(),
                    description: "URL".to_string(),
                    pattern: Some(r"^https?://.*".to_string()),
                },
            )],
            required: vec!["url".to_string()],
        }],
        command: "curl -s \"$param_url\"".to_string(),
        shell: None,
    }
}

fn registry() -> Config {
    Config { shell: "bash".to_string(), tools: vec![echo_tool(), url_tool()] }
}

fn ok_outcome(stdout: &str) -> CommandOutcome {
    CommandOutcome {
        success: true,
        status: "Some(0)".to_string(),
        stdout: stdout.to_string(),
        stderr: String::new(),
    }
}

#[test]
fn end_to_end_round() {
    let mut acc = StreamAccumulator::new();
    acc.apply_chunk(&text_chunk("Hel")).unwrap();
    acc.apply_chunk(&text_chunk("lo")).unwrap();
    acc.apply_chunk(&call_chunk(0, Some("call_1"), Some("echo"), "{\"mess")).unwrap();
    acc.apply_chunk(&call_chunk(0, None, None, "age\":\"hi\"}")).unwrap();
    let out = acc.finish();
    assert!(out.had_any_output);
    assert_eq!(out.text.as_deref(), Some("Hello"));
    assert_eq!(out.tool_calls.len(), 1);
    let call = &out.tool_calls[0];
    assert_eq!(call.id, "call_1");
    assert_eq!(call.tool_type, "function");
    assert_eq!(call.function.name, "echo");
    match &call.function.arguments {
        Arguments::Object(entries) => {
            assert_eq!(entries.len(), 1);
            assert_eq!(entries[0].key, "message");
            assert!(matches!(&entries[0].value, ArgumentValue::Text(s) if s == "hi"));
        }
        other => panic!("unexpected: {:?}", other),
    }

    let mut conv = Conversation::new("say hi".to_string(), 10);
    assert!(conv.begin_round());
    assert!(conv.finish_round(out));
    match &conv.messages()[1] {
        Message::Assistant { content, tool_calls } => {
            assert_eq!(content.as_deref(), Some("Hello"));
            assert_eq!(tool_calls.as_ref().map(|c| c.len()), Some(1));
        }
        other => panic!("unexpected: {:?}", other),
    }
    let executor = Executor::new("/tmp".to_string());
    let config = registry();
    let spec = executor.dispatch(&config, conv.current_call().unwrap()).unwrap();
    assert_eq!(spec.shell, "bash");
    assert_eq!(spec.command, "echo \"$param_message\"");
    assert_eq!(spec.env, vec![("param_message".to_string(), "hi".to_string())]);
    assert_eq!(spec.working_dir, "/tmp");
    let content = tool_message_content(&command_result(ok_outcome("hi")));
    assert!(conv.record_tool_result(content));
    match &conv.messages()[2] {
        Message::Tool { tool_call_id, content } => {
            assert_eq!(tool_call_id, "call_1");
            assert_eq!(content, "hi");
        }
        other => panic!("unexpected: {:?}", other),
    }
    assert_eq!(conv.phase(), Phase::AwaitingRound);
    assert_eq!(
        conv.log(),
        &vec![
            LogEvent::MessageAdded(0),
            LogEvent::MessageAdded(1),
            LogEvent::ToolCalled { message: 1, call: 0 },
            LogEvent::ToolResult { message: 1, call: 0, result: 2 },
        ]
    );
}

#[test]
fn fragmented_call_matches_single_frame() {
    let mut pieces = StreamAccumulator::new();
    pieces.apply_chunk(&call_chunk(2, Some("c"), Some("echo"), "{\"me")).unwrap();
    pieces.apply_chunk(&call_chunk(2, None, None, "ssage\":")).unwrap();
    pieces.apply_chunk(&call_chunk(2, None, None, "\"x\"}")).unwrap();
    let mut whole = StreamAccumulator::new();
    whole.apply_chunk(&call_chunk(2, Some("c"), Some("echo"), "{\"message\":\"x\"}")).unwrap();
    let a = pieces.finish();
    let b = whole.finish();
    assert_eq!(format!("{:?}", a.tool_calls), format!("{:?}", b.tool_calls));
    assert!(a.text.is_none());
    assert!(a.had_any_output);
}

#[test]
fn continuation_for_unknown_slot_fails_round() {
    let mut acc = StreamAccumulator::new();
    acc.apply_chunk(&call_chunk(0, Some("a"), Some("echo"), "{")).unwrap();
    assert_eq!(
        acc.apply_chunk(&call_chunk(3, None, None, "}")),
        Err(StreamError::UnknownSlot(3))
    );
}

#[test]
fn calls_finalize_in_slot_order() {
    let mut acc = StreamAccumulator::new();
    acc.apply_chunk(&call_chunk(1, Some("second"), Some("echo"), "{\"message\":\"b\"}")).unwrap();
    acc.apply_chunk(&call_chunk(0, Some("first"), Some("nope"), "{}")).unwrap();
    let out = acc.finish();
    let ids: Vec<&str> = out.tool_calls.iter().map(|c| c.id.as_str()).collect();
    assert_eq!(ids, vec!["first", "second"]);
    assert!(out.text.is_none());
}

#[test]
fn tool_messages_follow_slot_order_whatever_the_outcome() {
    let mut acc = StreamAccumulator::new();
    acc.apply_chunk(&call_chunk(1, Some("second"), Some("echo"), "{\"message\":\"b\"}")).unwrap();
    acc.apply_chunk(&call_chunk(0, Some("first"), Some("nope"), "{}")).unwrap();
    acc.apply_chunk(&call_chunk(2, Some("third"), Some("echo"), "{\"mess")).unwrap();
    let mut conv = Conversation::new("go".to_string(), 3);
    assert!(conv.begin_round());
    assert!(conv.finish_round(acc.finish()));
    let executor = Executor::new(".".to_string());
    let config = registry();
    let mut contents = Vec::new();
    while let Some(call) = conv.current_call() {
        let result = match executor.dispatch(&config, call) {
            Ok(_) => command_result(ok_outcome("b")),
            Err(e) => Err(e),
        };
        let content = tool_message_content(&result);
        contents.push(content.clone());
        assert!(conv.record_tool_result(content));
    }
    assert_eq!(contents[0], "Error: Tool not found: nope");
    assert_eq!(contents[1], "b");
    assert_eq!(contents[2], "Error: Failed to parse tool arguments: {\"mess");
    let ids: Vec<String> = conv.messages()[2..]
        .iter()
        .map(|m| match m {
            Message::Tool { tool_call_id, .. } => tool_call_id.clone(),
            other => panic!("unexpected: {:?}", other),
        })
        .collect();
    assert_eq!(ids, vec!["first", "second", "third"]);
    assert_eq!(conv.phase(), Phase::AwaitingRound);
}

#[test]
fn round_without_calls_completes() {
    let mut conv = Conversation::new("hi".to_string(), 5);
    assert!(conv.begin_round());
    let mut acc = StreamAccumulator::new();
    acc.apply_chunk(&text_chunk("done")).unwrap();
    assert!(conv.finish_round(acc.finish()));
    assert_eq!(conv.phase(), Phase::Completed);
    assert!(!conv.begin_round());
    assert!(conv.current_call().is_none());
    assert!(!conv.record_tool_result("late".to_string()));
    assert_eq!(conv.messages().len(), 2);
    match &conv.messages()[1] {
        Message::Assistant { content, tool_calls } => {
            assert_eq!(content.as_deref(), Some("done"));
            assert!(tool_calls.is_none());
        }
        other => panic!("unexpected: {:?}", other),
    }
}

#[test]
fn empty_answer_is_still_an_assistant_message() {
    let mut conv = Conversation::new("hi".to_string(), 5);
    assert!(conv.begin_round());
    let out = StreamAccumulator::new().finish();
    assert!(!out.had_any_output);
    assert!(conv.finish_round(out));
    assert_eq!(conv.phase(), Phase::Completed);
    assert!(matches!(
        &conv.messages()[1],
        Message::Assistant { content: None, tool_calls: None }
    ));
}

#[test]
fn round_cap_stops_the_loop() {
    let mut conv = Conversation::new("hi".to_string(), 1);
    assert!(conv.begin_round());
    let mut acc = StreamAccumulator::new();
    acc.apply_chunk(&call_chunk(0, Some("a"), Some("echo"), "{\"message\":\"m\"}")).unwrap();
    assert!(conv.finish_round(acc.finish()));
    assert!(conv.record_tool_result("m".to_string()));
    assert_eq!(conv.phase(), Phase::Completed);
    assert!(!conv.begin_round());
    let none = Conversation::new("hi".to_string(), 0);
    assert_eq!(none.phase(), Phase::Completed);
}

#[test]
fn dispatch_validates_before_running() {
    let executor = Executor::new(".".to_string());
    let config = registry();
    let mut acc = StreamAccumulator::new();
    acc.apply_chunk(&call_chunk(0, Some("a"), Some("fetch"), "{\"url\": \"https://example.com\"}")).unwrap();
    acc.apply_chunk(&call_chunk(1, Some("b"), Some("fetch"), "{\"url\": \"not-a-url\"}")).unwrap();
    acc.apply_chunk(&call_chunk(2, Some("c"), Some("fetch"), "{}")).unwrap();
    let out = acc.finish();
    let ok = executor.dispatch(&config, &out.tool_calls[0]).unwrap();
    assert_eq!(ok.env, vec![("param_url".to_string(), "https://example.com".to_string())]);
    assert!(matches!(
        executor.dispatch(&config, &out.tool_calls[1]),
        Err(DispatchError::InvalidArguments(ArgumentError::PatternMismatch { .. }))
    ));
    match executor.dispatch(&config, &out.tool_calls[2]) {
        Err(e @ DispatchError::InvalidArguments(ArgumentError::MissingField(_))) => {
            assert!(e.message().contains("url"));
        }
        other => panic!("unexpected: {:?}", other),
    }
}

#[test]
fn dispatch_refuses_unsupported_shell() {
    let executor = Executor::new(".".to_string());
    let mut tool = echo_tool();
    tool.shell = Some("fish".to_string());
    let config = Config { shell: "bash".to_string(), tools: vec![tool] };
    let mut acc = StreamAccumulator::new();
    acc.apply_chunk(&call_chunk(0, Some("a"), Some("echo"), "{\"message\":\"m\"}")).unwrap();
    let out = acc.finish();
    match executor.dispatch(&config, &out.tool_calls[0]) {
        Err(e @ DispatchError::UnsupportedShell(_)) => {
            assert_eq!(e.message(), "Unsupported shell: fish");
        }
        other => panic!("unexpected: {:?}", other),
    }
}

#[test]
fn command_output_is_combined() {
    let both = CommandOutcome {
        success: true,
        status: "Some(0)".to_string(),
        stdout: "out".to_string(),
        stderr: "err".to_string(),
    };
    assert_eq!(command_result(both).unwrap(), "out\nerr");
    let err_only = CommandOutcome {
        success: true,
        status: "Some(0)".to_string(),
        stdout: String::new(),
        stderr: "err".to_string(),
    };
    assert_eq!(command_result(err_only).unwrap(), "err");
    assert_eq!(command_result(ok_outcome("out")).unwrap(), "out");
}

#[test]
fn failed_command_becomes_error_text() {
    let failed = CommandOutcome {
        success: false,
        status: "Some(2)".to_string(),
        stdout: "o".to_string(),
        stderr: "e".to_string(),
    };
    let r = command_result(failed);
    assert_eq!(
        tool_message_content(&r),
        "Error: Command failed with exit code Some(2)\nstdout: o\nstderr: e"
    );
}

#[test]
fn interleaved_slots_reassemble_separately() {
    let mut acc = StreamAccumulator::new();
    acc.apply_chunk(&call_chunk(1, Some("b"), Some("echo"), "{\"message\":")).unwrap();
    acc.apply_chunk(&call_chunk(0, Some("a"), Some("echo"), "{\"mess")).unwrap();
    acc.apply_chunk(&call_chunk(1, None, None, "\"two\"}")).unwrap();
    acc.apply_chunk(&call_chunk(0, None, None, "age\":\"one\"}")).unwrap();
    let out = acc.finish();
    let got: Vec<(String, String)> = out
        .tool_calls
        .iter()
        .map(|c| match &c.function.arguments {
            Arguments::Object(e) => match &e[0].value {
                ArgumentValue::Text(s) => (c.id.clone(), s.clone()),
                other => panic!("unexpected: {:?}", other),
            },
            other => panic!("unexpected: {:?}", other),
        })
        .collect();
    assert_eq!(got, vec![("a".to_string(), "one".to_string()), ("b".to_string(), "two".to_string())]);
}
