use oxi::model::{
    assistant_is_effectively_empty, bash_command_tokens, build_assistant_block_groups,
    concat_thinking_blocks, estimate_thought_seconds, is_explore_groupable_tool,
    make_session_title, set_tool_output_on_blocks, tool_breaks_explore_cluster,
    tool_compact_header, AssistantBlock, AssistantBlockGroup,
};

fn tool(id: &str, name: &str) -> AssistantBlock {
    AssistantBlock::Tool {
        tool_call_id: id.to_string(),
        name: name.to_string(),
        args_summary: None,
        output: String::new(),
        diff: None,
        is_error: None,
        full_output_path: None,
        output_truncated: false,
    }
}

fn tool_with_args(id: &str, args: &str) -> AssistantBlock {
    AssistantBlock::Tool {
        tool_call_id: id.to_string(),
        name: "bash".to_string(),
        args_summary: Some(args.to_string()),
        output: String::new(),
        diff: None,
        is_error: None,
        full_output_path: None,
        output_truncated: false,
    }
}

#[test]
fn build_assistant_block_groups_empty() {
    assert!(build_assistant_block_groups(&[]).is_empty());
}

#[test]
fn build_assistant_block_groups_two_tools_stay_individual() {
    let blocks = vec![tool("a", "read"), tool("b", "bash")];
    let g = build_assistant_block_groups(&blocks);
    assert_eq!(g.len(), 2);
    assert!(matches!(&g[0], AssistantBlockGroup::Tool(0)));
    assert!(matches!(&g[1], AssistantBlockGroup::Tool(1)));
}

#[test]
fn build_assistant_block_groups_three_tools_become_exploring() {
    let blocks = vec![tool("a", "read"), tool("b", "bash"), tool("c", "grep")];
    let g = build_assistant_block_groups(&blocks);
    assert_eq!(g.len(), 1);
    match &g[0] {
        AssistantBlockGroup::ExploringTools {
            tool_indices,
            range_start,
            range_end,
        } => {
            assert_eq!(tool_indices.len(), 3);
            assert_eq!(*range_start, 0);
            assert_eq!(*range_end, 3);
        }
        _ => panic!("expected ExploringTools group"),
    }
}

#[test]
fn build_assistant_block_groups_exploring_skips_thinking_between_tools() {
    let blocks = vec![
        tool("a", "read"),
        AssistantBlock::Thinking("reasoning".into()),
        tool("b", "bash"),
        tool("c", "grep"),
    ];
    let g = build_assistant_block_groups(&blocks);
    assert_eq!(g.len(), 1);
    match &g[0] {
        AssistantBlockGroup::ExploringTools {
            tool_indices,
            range_start,
            range_end,
        } => {
            assert_eq!(tool_indices, &vec![0, 2, 3]);
            assert_eq!(*range_start, 0);
            assert_eq!(*range_end, 4);
        }
        _ => panic!("expected ExploringTools group"),
    }
}

#[test]
fn build_assistant_block_groups_diff_tool_breaks_exploring() {
    let mut edit = tool("c", "edit");
    if let AssistantBlock::Tool { diff, .. } = &mut edit {
        *diff = Some("+1 new".into());
    }
    let blocks = vec![tool("a", "read"), tool("b", "bash"), edit];
    let g = build_assistant_block_groups(&blocks);
    assert_eq!(g.len(), 3);
    assert!(matches!(&g[0], AssistantBlockGroup::Tool(0)));
    assert!(matches!(&g[1], AssistantBlockGroup::Tool(1)));
    assert!(matches!(&g[2], AssistantBlockGroup::Tool(2)));
}

#[test]
fn set_tool_output_routes_by_id() {
    let mut blocks = vec![tool("call_1", "bash"), tool("call_2", "bash")];
    set_tool_output_on_blocks(&mut blocks, Some("call_2"), "out", false);
    match &blocks[1] {
        AssistantBlock::Tool { output, .. } => assert_eq!(output, "out"),
        _ => panic!(),
    }
}

#[test]
fn set_tool_output_falls_back_to_last_tool_then_appends() {
    let mut blocks = vec![tool("call_1", "bash")];
    set_tool_output_on_blocks(&mut blocks, Some("unknown"), "x", true);
    match &blocks[0] {
        AssistantBlock::Tool { output, output_truncated, .. } => {
            assert_eq!(output, "x");
            assert!(*output_truncated);
        }
        _ => panic!(),
    }
    let mut blocks = vec![AssistantBlock::Answer("hi".into())];
    set_tool_output_on_blocks(&mut blocks, None, "y", false);
    assert_eq!(blocks.len(), 2);
    match &blocks[1] {
        AssistantBlock::Tool { tool_call_id, name, output, .. } => {
            assert_eq!(tool_call_id, "");
            assert_eq!(name, "tool");
            assert_eq!(output, "y");
        }
        _ => panic!(),
    }
}

#[test]
fn session_title_collapses_whitespace_and_truncates() {
    assert_eq!(make_session_title("  hello   world \n"), "hello world");
    assert_eq!(make_session_title("   "), "New chat");
    let long = "a".repeat(40);
    let t = make_session_title(&long);
    assert_eq!(t, format!("{}\u{2026}", "a".repeat(36)));
    assert_eq!(make_session_title(&"b".repeat(36)), "b".repeat(36));
}

#[test]
fn effectively_empty_cases() {
    assert!(assistant_is_effectively_empty(&[], false));
    let blocks = vec![AssistantBlock::Answer("  \n".into()), tool("a", "read")];
    assert!(assistant_is_effectively_empty(&blocks, false));
    assert!(!assistant_is_effectively_empty(&blocks, true));
    let blocks = vec![AssistantBlock::Thinking("x".into())];
    assert!(!assistant_is_effectively_empty(&blocks, false));
}

#[test]
fn edit_tool_breaks_cluster_case_insensitively() {
    assert!(tool_breaks_explore_cluster(&tool("a", "Edit")));
    assert!(!tool_breaks_explore_cluster(&tool("a", "read")));
    assert!(is_explore_groupable_tool(&tool("a", "read")));
    assert!(!is_explore_groupable_tool(&AssistantBlock::Answer("x".into())));
}

#[test]
fn thought_seconds_rounds_up_and_clamps() {
    assert_eq!(estimate_thought_seconds(0), 1);
    assert_eq!(estimate_thought_seconds(1), 1);
    assert_eq!(estimate_thought_seconds(400), 1);
    assert_eq!(estimate_thought_seconds(401), 2);
    assert_eq!(estimate_thought_seconds(10_000_000), 999);
}

#[test]
fn thinking_blocks_concatenate_with_blank_lines() {
    let blocks = vec![
        AssistantBlock::Thinking("a".into()),
        AssistantBlock::Answer("x".into()),
        AssistantBlock::Thinking("".into()),
        AssistantBlock::Thinking("b".into()),
    ];
    assert_eq!(concat_thinking_blocks(&blocks, &[0, 1, 2, 3]), "a\n\nb");
}

#[test]
fn compact_header_previews_first_nonblank_line() {
    assert_eq!(tool_compact_header("bash", "\n  \n  hello  \nworld"), "bash \u{b7} hello");
    assert_eq!(tool_compact_header("read", ""), "read \u{b7} \u{2026}");
    let long = "z".repeat(60);
    assert_eq!(
        tool_compact_header("grep", &long),
        format!("grep \u{b7} {}\u{2026}", "z".repeat(56))
    );
}

#[test]
fn bash_tokens_are_distinct_first_words() {
    let blocks = vec![
        tool_with_args("a", r#"{"command":"ls -la"}"#),
        tool_with_args("b", r#"{"command":"ls src"}"#),
        tool_with_args("c", r#""cargo build""#),
        tool_with_args("d", "not json"),
        tool_with_args("e", r#"{"command":"rg foo"}"#),
    ];
    assert_eq!(bash_command_tokens(&blocks, &[0, 1, 2, 3, 4]), "ls, cargo");
}

fn outputs(blocks: &[AssistantBlock]) -> Vec<(String, String, bool)> {
    blocks
        .iter()
        .map(|b| match b {
            AssistantBlock::Tool { tool_call_id, output, output_truncated, .. } => {
                (tool_call_id.clone(), output.clone(), *output_truncated)
            }
            AssistantBlock::Answer(s) => ("answer".to_string(), s.clone(), false),
            AssistantBlock::Thinking(s) => ("thinking".to_string(), s.clone(), false),
        })
        .collect()
}

fn tool_case(case: usize) -> (Vec<AssistantBlock>, Option<&'static str>) {
    match case {
        0 => (vec![tool("a", "read"), tool("b", "bash")], Some("a")),
        1 => (vec![AssistantBlock::Answer("hi".into()), tool("b", "bash")], None),
        2 => (vec![AssistantBlock::Answer("hi".into())], Some("new")),
        _ => (vec![AssistantBlock::Answer("hi".into())], None),
    }
}

#[test]
fn tool_output_applied_twice_equals_once() {
    for case in 0..4 {
        let (mut once, id) = tool_case(case);
        set_tool_output_on_blocks(&mut once, id, "out", true);
        let (mut twice, id) = tool_case(case);
        set_tool_output_on_blocks(&mut twice, id, "out", true);
        set_tool_output_on_blocks(&mut twice, id, "out", true);
        assert_eq!(outputs(&once), outputs(&twice));
        assert_eq!(once.len(), twice.len());
    }
}
