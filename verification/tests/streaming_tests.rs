use oxi::model::{AssistantBlock, ChatMessage, MsgRole, Session, UserAttachment};
use oxi::streaming::{
    append_text_delta, append_thinking_delta, finalize_tool_run, last_assistant_index,
    materialize_prompt, on_text_block_start, reset_streaming_tail, start_tool_block,
    title_session_for_prompt,
};

fn tool(id: &str, name: &str, output: &str, is_error: Option<bool>) -> AssistantBlock {
    AssistantBlock::Tool {
        tool_call_id: id.to_string(),
        name: name.to_string(),
        args_summary: None,
        output: output.to_string(),
        diff: None,
        is_error,
        full_output_path: None,
        output_truncated: false,
    }
}

fn texts(blocks: &[AssistantBlock]) -> Vec<String> {
    blocks
        .iter()
        .map(|b| match b {
            AssistantBlock::Thinking(s) => format!("T:{s}"),
            AssistantBlock::Answer(s) => format!("A:{s}"),
            AssistantBlock::Tool { tool_call_id, .. } => format!("tool:{tool_call_id}"),
        })
        .collect()
}

fn message(role: MsgRole, streaming: bool, blocks: Vec<AssistantBlock>) -> ChatMessage {
    ChatMessage {
        role,
        text: String::new(),
        attachments: vec![],
        blocks,
        streaming,
    }
}

#[test]
fn text_deltas_join_the_trailing_answer() {
    let mut b = vec![];
    append_text_delta(&mut b, "Hel");
    append_text_delta(&mut b, "lo");
    assert_eq!(texts(&b), vec!["A:Hello"]);
    let mut once = vec![];
    append_text_delta(&mut once, "Hello");
    assert_eq!(texts(&b), texts(&once));
    let mut after_tool = vec![tool("t", "bash", "", None)];
    append_text_delta(&mut after_tool, "x");
    assert_eq!(texts(&after_tool), vec!["tool:t", "A:x"]);
}

#[test]
fn text_block_start_opens_one_empty_answer() {
    let mut b = vec![AssistantBlock::Thinking("r".into())];
    on_text_block_start(&mut b);
    on_text_block_start(&mut b);
    assert_eq!(texts(&b), vec!["T:r", "A:"]);
    let mut full = vec![AssistantBlock::Answer("done".into())];
    on_text_block_start(&mut full);
    assert_eq!(texts(&full), vec!["A:done", "A:"]);
}

#[test]
fn thinking_stays_before_the_empty_answer_placeholder() {
    let mut b = vec![];
    on_text_block_start(&mut b);
    append_thinking_delta(&mut b, "let me ");
    assert_eq!(texts(&b), vec!["T:let me ", "A:"]);
    append_thinking_delta(&mut b, "think");
    assert_eq!(texts(&b), vec!["T:let me think", "A:"]);
    append_text_delta(&mut b, "Answer");
    append_thinking_delta(&mut b, "more");
    assert_eq!(texts(&b), vec!["T:let me think", "A:Answer", "T:more"]);
    let mut once = vec![];
    on_text_block_start(&mut once);
    append_thinking_delta(&mut once, "let me think");
    assert_eq!(texts(&once), vec!["T:let me think", "A:"]);
}

#[test]
fn retry_drops_the_unfinished_round() {
    let mut m = message(
        MsgRole::Assistant,
        true,
        vec![
            AssistantBlock::Answer("earlier".into()),
            tool("done", "bash", "ok", Some(false)),
            AssistantBlock::Thinking("partial".into()),
            tool("pending", "read", "", None),
            AssistantBlock::Answer("half".into()),
        ],
    );
    reset_streaming_tail(&mut m);
    assert_eq!(texts(&m.blocks), vec!["A:earlier", "tool:done"]);
    let mut finished = message(
        MsgRole::Assistant,
        false,
        vec![AssistantBlock::Answer("kept".into())],
    );
    reset_streaming_tail(&mut finished);
    assert_eq!(texts(&finished.blocks), vec!["A:kept"]);
    let mut all = message(MsgRole::Assistant, true, vec![AssistantBlock::Answer("x".into())]);
    reset_streaming_tail(&mut all);
    assert!(all.blocks.is_empty());
}

#[test]
fn repeated_tool_start_refreshes_the_summary() {
    let mut b = vec![];
    start_tool_block(&mut b, "bash", Some("c1"), None);
    start_tool_block(&mut b, "bash", Some("c1"), Some("{\"command\":\"ls\"}"));
    assert_eq!(b.len(), 1);
    match &b[0] {
        AssistantBlock::Tool { args_summary, .. } => {
            assert_eq!(args_summary.as_deref(), Some("{\"command\":\"ls\"}"))
        }
        _ => panic!("expected a tool"),
    }
    start_tool_block(&mut b, "bash", Some("c1"), None);
    match &b[0] {
        AssistantBlock::Tool { args_summary, .. } => assert!(args_summary.is_some()),
        _ => panic!("expected a tool"),
    }
    start_tool_block(&mut b, "read", Some("c2"), None);
    assert_eq!(texts(&b), vec!["tool:c1", "tool:c2"]);
}

#[test]
fn idless_tool_start_refreshes_a_fresh_same_named_tool() {
    let mut b = vec![];
    start_tool_block(&mut b, "grep", None, None);
    start_tool_block(&mut b, "grep", None, Some("{}"));
    assert_eq!(b.len(), 1);
    start_tool_block(&mut b, "find", None, None);
    assert_eq!(b.len(), 2);
    let mut with_output = vec![tool("", "grep", "hits", None)];
    start_tool_block(&mut with_output, "grep", None, None);
    assert_eq!(with_output.len(), 2);
}

#[test]
fn tool_arguments_summary_is_cut_to_800_characters() {
    let args = "a".repeat(1000);
    let mut b = vec![];
    start_tool_block(&mut b, "write", Some("w"), Some(&args));
    match &b[0] {
        AssistantBlock::Tool { args_summary, name, tool_call_id, .. } => {
            assert_eq!(args_summary.as_ref().map(|s| s.chars().count()), Some(800));
            assert_eq!(name, "write");
            assert_eq!(tool_call_id, "w");
        }
        _ => panic!("expected a tool"),
    }
}

#[test]
fn finished_run_updates_the_latest_matching_tool() {
    let mut b = vec![tool("a", "bash", "", None), tool("b", "edit", "", None)];
    finalize_tool_run(&mut b, Some("a"), Some(false), Some("/tmp/a".into()), None);
    match &b[0] {
        AssistantBlock::Tool { is_error, full_output_path, .. } => {
            assert_eq!(*is_error, Some(false));
            assert_eq!(full_output_path.as_deref(), Some("/tmp/a"));
        }
        _ => panic!("expected a tool"),
    }
    finalize_tool_run(&mut b, None, Some(true), None, Some("+x".into()));
    match &b[1] {
        AssistantBlock::Tool { is_error, diff, .. } => {
            assert_eq!(*is_error, Some(true));
            assert_eq!(diff.as_deref(), Some("+x"));
        }
        _ => panic!("expected a tool"),
    }
    let before = texts(&b);
    finalize_tool_run(&mut b, Some("zzz"), Some(true), None, None);
    assert_eq!(texts(&b), before);
}

#[test]
fn prompt_adds_user_and_streaming_assistant() {
    let mut s = Session {
        title: "New chat".into(),
        messages: vec![],
        session_file: None,
        messages_loaded: false,
    };
    title_session_for_prompt(&mut s, "fix   the build please");
    assert_eq!(s.title, "fix the build please");
    materialize_prompt(
        &mut s,
        "fix the build please",
        vec![UserAttachment::Image {
            mime: "image/png".into(),
            data: vec![1, 2],
        }],
    );
    assert!(s.messages_loaded);
    assert_eq!(s.messages.len(), 2);
    assert!(matches!(s.messages[0].role, MsgRole::User));
    assert_eq!(s.messages[0].text, "fix the build please");
    assert_eq!(s.messages[0].attachments.len(), 1);
    assert!(matches!(s.messages[1].role, MsgRole::Assistant));
    assert!(s.messages[1].streaming);
    assert_eq!(last_assistant_index(&s.messages), Some(1));
    title_session_for_prompt(&mut s, "another");
    assert_eq!(s.title, "fix the build please");
    let mut img = Session {
        title: "New chat".into(),
        messages: vec![],
        session_file: None,
        messages_loaded: false,
    };
    title_session_for_prompt(&mut img, "");
    assert_eq!(img.title, "Image");
    let mut saved = Session {
        title: "Old".into(),
        messages: vec![],
        session_file: Some("/s.jsonl".into()),
        messages_loaded: false,
    };
    title_session_for_prompt(&mut saved, "hello");
    assert_eq!(saved.title, "Old");
}

#[test]
fn last_assistant_skips_trailing_user_messages() {
    let msgs = vec![
        message(MsgRole::User, false, vec![]),
        message(MsgRole::Assistant, false, vec![]),
        message(MsgRole::User, false, vec![]),
    ];
    assert_eq!(last_assistant_index(&msgs), Some(1));
    assert_eq!(last_assistant_index(&msgs[..1]), None);
}
