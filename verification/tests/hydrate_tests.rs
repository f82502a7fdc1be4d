use oxi::hydrate::{
    messages_from_get_messages, tool_diff_from_result, tool_text_from_content_array, JsonValue,
};
use oxi::model::{AssistantBlock, MsgRole, UserAttachment};

fn s(v: &str) -> JsonValue {
    JsonValue::Str(v.to_string())
}

fn arr(items: Vec<JsonValue>) -> JsonValue {
    JsonValue::Array(items)
}

fn obj(members: Vec<(&str, JsonValue)>) -> JsonValue {
    JsonValue::Object(members.into_iter().map(|(k, v)| (k.to_string(), v)).collect())
}

#[test]
fn messages_from_get_messages_empty_array() {
    let data = obj(vec![("messages", arr(vec![]))]);
    assert!(messages_from_get_messages(&data).is_empty());
}

#[test]
fn messages_from_get_messages_missing_messages() {
    let data = obj(vec![]);
    assert!(messages_from_get_messages(&data).is_empty());
}

#[test]
fn messages_from_get_messages_user_and_assistant() {
    let data = obj(vec![(
        "messages",
        arr(vec![
            obj(vec![("role", s("user")), ("content", s("hello"))]),
            obj(vec![
                ("role", s("assistant")),
                (
                    "content",
                    arr(vec![obj(vec![("type", s("text")), ("text", s("hi there"))])]),
                ),
            ]),
        ]),
    )]);
    let msgs = messages_from_get_messages(&data);
    assert_eq!(msgs.len(), 2);
    assert!(matches!(msgs[0].role, MsgRole::User));
    assert_eq!(msgs[0].text, "hello");
    assert!(msgs[0].attachments.is_empty());
    assert!(matches!(msgs[1].role, MsgRole::Assistant));
    match &msgs[1].blocks[..] {
        [AssistantBlock::Answer(s)] => assert_eq!(s.as_str(), "hi there"),
        _ => panic!("expected one answer block"),
    }
}

#[test]
fn assistant_interleaved_thinking_and_text() {
    let data = obj(vec![(
        "messages",
        arr(vec![obj(vec![
            ("role", s("assistant")),
            (
                "content",
                arr(vec![
                    obj(vec![("type", s("thinking")), ("thinking", s("a"))]),
                    obj(vec![("type", s("text")), ("text", s("b"))]),
                    obj(vec![("type", s("thinking")), ("thinking", s("c"))]),
                ]),
            ),
        ])]),
    )]);
    let msgs = messages_from_get_messages(&data);
    assert_eq!(msgs.len(), 1);
    match &msgs[0].blocks[..] {
        [AssistantBlock::Thinking(t1), AssistantBlock::Answer(ans), AssistantBlock::Thinking(t2)] => {
            assert_eq!(t1, "a");
            assert_eq!(ans, "b");
            assert_eq!(t2, "c");
        }
        _ => panic!("unexpected blocks"),
    }
}

fn tool_call(id: &str, name: &str, args: JsonValue) -> JsonValue {
    obj(vec![
        ("role", s("assistant")),
        (
            "content",
            arr(vec![obj(vec![
                ("type", s("toolCall")),
                ("id", s(id)),
                ("name", s(name)),
                ("arguments", args),
            ])]),
        ),
    ])
}

#[test]
fn tool_result_merges_into_assistant_tool_call() {
    let data = obj(vec![(
        "messages",
        arr(vec![
            tool_call("call_1", "bash", obj(vec![("command", s("ls"))])),
            obj(vec![
                ("role", s("toolResult")),
                ("toolCallId", s("call_1")),
                ("toolName", s("bash")),
                ("content", arr(vec![obj(vec![("type", s("text")), ("text", s("out\n"))])])),
            ]),
        ]),
    )]);
    let msgs = messages_from_get_messages(&data);
    assert_eq!(msgs.len(), 1);
    match &msgs[0].blocks[..] {
        [AssistantBlock::Tool {
            tool_call_id,
            output,
            ..
        }] => {
            assert_eq!(tool_call_id, "call_1");
            assert_eq!(output, "out\n");
        }
        _ => panic!("unexpected blocks"),
    }
}

#[test]
fn tool_result_picks_up_nested_diff_details() {
    let data = obj(vec![(
        "messages",
        arr(vec![
            tool_call("call_2", "edit", obj(vec![("path", s("src/main.rs"))])),
            obj(vec![
                ("role", s("toolResult")),
                ("toolCallId", s("call_2")),
                ("toolName", s("edit")),
                ("content", arr(vec![obj(vec![("type", s("text")), ("text", s("edited"))])])),
                ("details", obj(vec![("diff", s("+1 new\n-1 old"))])),
            ]),
        ]),
    )]);
    let msgs = messages_from_get_messages(&data);
    match &msgs[0].blocks[..] {
        [AssistantBlock::Tool { diff, .. }] => {
            assert_eq!(diff.as_deref(), Some("+1 new\n-1 old"));
        }
        _ => panic!("unexpected blocks"),
    }
}

#[test]
fn tool_call_summary_is_the_compact_json_of_its_arguments() {
    let args = obj(vec![
        ("command", s("ls")),
        ("timeout", JsonValue::Number(serde_json::Number::from(30u64))),
        ("dry", JsonValue::Bool(true)),
    ]);
    let data = obj(vec![("messages", arr(vec![tool_call("c", "bash", args)]))]);
    let msgs = messages_from_get_messages(&data);
    match &msgs[0].blocks[..] {
        [AssistantBlock::Tool {
            args_summary, name, output, is_error, ..
        }] => {
            assert_eq!(args_summary.as_deref(), Some("{\"command\":\"ls\",\"dry\":true,\"timeout\":30}"));
            assert_eq!(name, "bash");
            assert_eq!(output, "");
            assert_eq!(*is_error, None);
        }
        _ => panic!("unexpected blocks"),
    }
}

#[test]
fn long_tool_arguments_are_cut_to_800_characters() {
    let long = "x".repeat(2000);
    let data = obj(vec![(
        "messages",
        arr(vec![tool_call("c", "write", obj(vec![("content", s(&long))]))]),
    )]);
    let msgs = messages_from_get_messages(&data);
    match &msgs[0].blocks[..] {
        [AssistantBlock::Tool { args_summary, .. }] => {
            let summary = args_summary.clone().unwrap();
            assert_eq!(summary.chars().count(), 800);
            assert!(summary.starts_with("{\"content\":\"xxx"));
        }
        _ => panic!("unexpected blocks"),
    }
}

#[test]
fn unmatched_tool_result_becomes_its_own_message() {
    let data = obj(vec![(
        "messages",
        arr(vec![
            obj(vec![("role", s("user")), ("content", s("go"))]),
            obj(vec![
                ("role", s("toolResult")),
                ("toolCallId", s("missing")),
                ("isError", JsonValue::Bool(true)),
                ("fullOutputPath", s("/tmp/out.txt")),
                ("truncated", JsonValue::Bool(true)),
                ("diff", s("-a\n+b")),
            ]),
        ]),
    )]);
    let msgs = messages_from_get_messages(&data);
    assert_eq!(msgs.len(), 2);
    assert!(matches!(msgs[1].role, MsgRole::Assistant));
    match &msgs[1].blocks[..] {
        [AssistantBlock::Tool {
            tool_call_id,
            name,
            args_summary,
            output,
            diff,
            is_error,
            full_output_path,
            output_truncated,
        }] => {
            assert_eq!(tool_call_id, "missing");
            assert_eq!(name, "tool");
            assert_eq!(*args_summary, None);
            assert_eq!(output, "");
            assert_eq!(diff.as_deref(), Some("-a\n+b"));
            assert_eq!(*is_error, Some(true));
            assert_eq!(full_output_path.as_deref(), Some("/tmp/out.txt"));
            assert!(*output_truncated);
        }
        _ => panic!("unexpected blocks"),
    }
}

#[test]
fn result_completes_the_latest_call_with_that_id() {
    let result = obj(vec![
        ("role", s("toolResult")),
        ("toolCallId", s("dup")),
        ("content", arr(vec![obj(vec![("text", s("second"))])])),
        ("details", obj(vec![("truncation", obj(vec![])), ("fullOutputPath", s("/p"))])),
    ]);
    let data = obj(vec![(
        "messages",
        arr(vec![
            tool_call("dup", "read", obj(vec![])),
            tool_call("dup", "grep", obj(vec![])),
            result,
        ]),
    )]);
    let msgs = messages_from_get_messages(&data);
    assert_eq!(msgs.len(), 2);
    match (&msgs[0].blocks[..], &msgs[1].blocks[..]) {
        (
            [AssistantBlock::Tool { output: first, .. }],
            [AssistantBlock::Tool {
                output: second,
                name,
                args_summary,
                full_output_path,
                output_truncated,
                ..
            }],
        ) => {
            assert_eq!(first, "");
            assert_eq!(second, "second");
            assert_eq!(name, "grep");
            assert_eq!(args_summary.as_deref(), Some("{}"));
            assert_eq!(full_output_path.as_deref(), Some("/p"));
            assert!(*output_truncated);
        }
        _ => panic!("unexpected blocks"),
    }
}

#[test]
fn user_parts_join_text_and_decode_images() {
    let data = obj(vec![(
        "messages",
        arr(vec![obj(vec![
            ("role", s("user")),
            (
                "content",
                arr(vec![
                    obj(vec![("type", s("text")), ("text", s("look "))]),
                    obj(vec![("type", s("image")), ("data", s("aGk="))]),
                    obj(vec![("type", s("image")), ("mimeType", s("image/jpeg")), ("data", s("AAEC"))]),
                    obj(vec![("type", s("image")), ("data", s("not base64!"))]),
                    obj(vec![("type", s("text")), ("text", s("here"))]),
                ]),
            ),
        ])]),
    )]);
    let msgs = messages_from_get_messages(&data);
    assert_eq!(msgs.len(), 1);
    assert_eq!(msgs[0].text, "look here");
    assert_eq!(msgs[0].attachments.len(), 2);
    match (&msgs[0].attachments[0], &msgs[0].attachments[1]) {
        (
            UserAttachment::Image { mime: m1, data: d1 },
            UserAttachment::Image { mime: m2, data: d2 },
        ) => {
            assert_eq!(m1, "image/png");
            assert_eq!(d1, &b"hi".to_vec());
            assert_eq!(m2, "image/jpeg");
            assert_eq!(d2, &vec![0u8, 1, 2]);
        }
    }
}

#[test]
fn messages_without_role_or_content_are_skipped() {
    let data = obj(vec![(
        "messages",
        arr(vec![
            obj(vec![("content", s("no role"))]),
            obj(vec![("role", s("assistant")), ("content", s(""))]),
            obj(vec![("role", s("system")), ("content", s("ignored"))]),
            obj(vec![("role", JsonValue::Null)]),
        ]),
    )]);
    assert!(messages_from_get_messages(&data).is_empty());
}

#[test]
fn tool_text_joins_content_texts() {
    let v = obj(vec![(
        "content",
        arr(vec![
            obj(vec![("text", s("a"))]),
            obj(vec![("type", s("image"))]),
            obj(vec![("text", s("b"))]),
        ]),
    )]);
    assert_eq!(tool_text_from_content_array(&v).as_deref(), Some("ab"));
    let empty = obj(vec![("content", arr(vec![obj(vec![("text", s(""))])]))]);
    assert_eq!(tool_text_from_content_array(&empty), None);
    assert_eq!(tool_text_from_content_array(&obj(vec![])), None);
}

#[test]
fn tool_diff_prefers_details() {
    let both = obj(vec![
        ("details", obj(vec![("diff", s("inner"))])),
        ("diff", s("outer")),
    ]);
    assert_eq!(tool_diff_from_result(&both).as_deref(), Some("inner"));
    let outer = obj(vec![("details", obj(vec![])), ("diff", s("outer"))]);
    assert_eq!(tool_diff_from_result(&outer).as_deref(), Some("outer"));
    assert_eq!(tool_diff_from_result(&obj(vec![])), None);
}
