use oxi::composer::{
    char_idx_on_first_line, char_idx_on_last_line, push_input_history, InputHistoryNav,
};

fn nav(input: &str) -> InputHistoryNav {
    InputHistoryNav {
        input: input.to_string(),
        index: None,
        draft: String::new(),
        ignore_next_edit_change: false,
    }
}

#[test]
fn history_keeps_trimmed_prompts_newest_first() {
    let mut h: Vec<String> = vec![];
    push_input_history(&mut h, "  first  ");
    push_input_history(&mut h, "   ");
    push_input_history(&mut h, "second");
    push_input_history(&mut h, "second ");
    push_input_history(&mut h, "first");
    assert_eq!(h, vec!["first", "second", "first"]);
}

#[test]
fn history_is_capped_at_100() {
    let mut h: Vec<String> = vec![];
    for i in 0..105 {
        push_input_history(&mut h, &format!("p{i}"));
    }
    assert_eq!(h.len(), 100);
    assert_eq!(h[0], "p104");
    assert_eq!(h[99], "p5");
}

#[test]
fn cursor_line_checks() {
    assert!(char_idx_on_first_line("ab\ncd", 2));
    assert!(!char_idx_on_first_line("ab\ncd", 3));
    assert!(char_idx_on_first_line("abc", 99));
    assert!(char_idx_on_last_line("ab\ncd", 3));
    assert!(!char_idx_on_last_line("ab\ncd", 2));
    assert!(char_idx_on_last_line("ab", 99));
}

#[test]
fn up_and_down_walk_the_history() {
    let hist = vec!["newest".to_string(), "older".to_string()];
    let mut n = nav("draft text");
    assert!(n.try_input_history_up(&hist, 0));
    assert_eq!(n.input, "newest");
    assert_eq!(n.index, Some(0));
    assert_eq!(n.draft, "draft text");
    assert!(n.ignore_next_edit_change);
    assert!(n.try_input_history_up(&hist, 0));
    assert_eq!(n.input, "older");
    assert_eq!(n.index, Some(1));
    assert!(!n.try_input_history_up(&hist, 0));
    assert!(n.try_input_history_down(&hist, 5));
    assert_eq!(n.input, "newest");
    assert!(n.try_input_history_down(&hist, 6));
    assert_eq!(n.input, "draft text");
    assert_eq!(n.index, None);
    assert_eq!(n.draft, "");
    assert!(!n.try_input_history_down(&hist, 0));
}

#[test]
fn up_then_down_restores_the_prompt() {
    let hist = vec!["one".to_string()];
    let mut n = nav("work in progress");
    assert!(n.try_input_history_up(&hist, 0));
    assert!(n.try_input_history_down(&hist, 3));
    assert_eq!(n.input, "work in progress");
    assert_eq!(n.index, None);
}

#[test]
fn arrows_inside_multiline_text_stay_with_the_editor() {
    let hist = vec!["h".to_string()];
    let mut n = nav("line1\nline2");
    assert!(!n.try_input_history_up(&hist, 8));
    assert_eq!(n.input, "line1\nline2");
    assert!(!n.ignore_next_edit_change);
    assert!(n.try_input_history_up(&hist, 2));
    let mut m = nav("x");
    assert!(!m.try_input_history_up(&[], 0));
    m.index = Some(0);
    m.input = "a\nb".to_string();
    assert!(!m.try_input_history_down(&hist, 0));
}
