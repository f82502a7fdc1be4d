use oxi::mentions::{
    at_mention_tokens, expand_at_mentions, format_dir_listing, mention_file_block,
    mention_file_too_large, mention_needs_resolution, mention_too_large_block, DirEntry,
};

#[test]
fn leaves_plain_text_alone() {
    assert!(at_mention_tokens("hello world").is_empty());
    assert_eq!(expand_at_mentions("hello world", &[]), "hello world");
}

#[test]
fn expands_existing_file() {
    let text = "see @note.txt please";
    let tokens = at_mention_tokens(text);
    assert_eq!(tokens, vec!["note.txt"]);
    assert!(!mention_needs_resolution(&tokens[0]));
    let block = mention_file_block(&tokens[0], "hello mention");
    let out = expand_at_mentions(text, &[Some(block)]);
    assert!(out.contains("hello mention"));
    assert!(out.contains("Attached context from @mentions"));
    assert_eq!(
        out,
        "see @note.txt please\n\n---\nAttached context from @mentions:\n### @note.txt\n```\nhello mention\n```\n\n"
    );
}

#[test]
fn tokens_end_at_whitespace_and_punctuation() {
    assert_eq!(
        at_mention_tokens("(@src/a.rs) and @b.md, @c;@d] @e\"x @f'y @ g @"),
        vec!["src/a.rs", "b.md", "c", "d", "e", "f"]
    );
    assert_eq!(at_mention_tokens("mail me@host.com"), vec!["host.com"]);
    assert_eq!(at_mention_tokens("@@x"), vec!["@x"]);
    assert_eq!(at_mention_tokens("@a@b"), vec!["a@b"]);
}

#[test]
fn handles_need_resolution() {
    assert!(mention_needs_resolution("alice"));
    assert!(mention_needs_resolution("a@b.c"));
    assert!(!mention_needs_resolution("src/main.rs"));
    assert!(!mention_needs_resolution("Cargo.toml"));
    assert!(!mention_needs_resolution("dir\\file"));
}

#[test]
fn unresolved_mentions_attach_nothing() {
    assert_eq!(expand_at_mentions("ping @bob", &[None]), "ping @bob");
    assert_eq!(
        expand_at_mentions("@a @b", &[None, Some("B".to_string())]),
        "@a @b\n\n---\nAttached context from @mentions:\nB\n"
    );
}

#[test]
fn large_files_are_described_not_attached() {
    assert!(!mention_file_too_large(32 * 1024));
    assert!(mention_file_too_large(32 * 1024 + 1));
    assert_eq!(
        mention_too_large_block("big.log", 40000),
        "### @big.log\n(file too large: 40000 bytes; use the read tool)\n"
    );
}

#[test]
fn folder_listing_sorts_and_caps_entries() {
    let entries = vec![
        DirEntry { name: "zeta.rs".into(), is_dir: false },
        DirEntry { name: "alpha".into(), is_dir: true },
        DirEntry { name: "Beta.txt".into(), is_dir: false },
    ];
    assert_eq!(
        format_dir_listing("src", &entries),
        "### @src/ (directory, 3 entries)\n- Beta.txt\n- alpha/\n- zeta.rs\n"
    );
    let many: Vec<DirEntry> = (0..85)
        .map(|i| DirEntry { name: format!("f{i:03}"), is_dir: false })
        .rev()
        .collect();
    let listing = format_dir_listing("big", &many);
    assert!(listing.starts_with("### @big/ (directory, 85 entries)\n- f000\n- f001\n"));
    assert!(listing.contains("- f079\n"));
    assert!(!listing.contains("- f080\n"));
    assert!(listing.ends_with("\u{2026} and 5 more\n"));
}

#[test]
fn prompt_without_at_is_unchanged() {
    let text = "refactor the parser, then run tests";
    let tokens = at_mention_tokens(text);
    assert!(tokens.is_empty());
    assert_eq!(expand_at_mentions(text, &[]), text);
}
