//! Expanding `@path` mentions of a prompt into attached file and folder context.
//!
//! The prompt is scanned for mention tokens; whoever reads the file system resolves each
//! token to a context block (or none), and the prompt is returned with those blocks attached.

use vstd::prelude::*;

use crate::composer::strings_view;
use crate::streaming::opt_view;
use crate::text::{
    chars_of, decimal, decimal_exec, is_whitespace, is_ws, lex_le, lex_le_exec, owned, push_chars,
    push_str, slice_chars, string_of,
};

verus! {

/// Largest mentioned file, in bytes, whose contents are attached.
pub const MENTION_FILE_MAX_BYTES: u64 = 32 * 1024;

/// Most entries listed for a mentioned folder.
pub const MENTION_DIR_MAX_ENTRIES: usize = 80;

/// The line that introduces the attached context.
pub const MENTION_HEADER: &'static str = "\n\n---\nAttached context from @mentions:\n";

// ---------------------------------------------------------------------------
// Scanning for mentions
// ---------------------------------------------------------------------------

/// A character that ends a mention token.
pub open spec fn ends_mention(c: char) -> bool {
    is_ws(c) || c == ',' || c == ';' || c == ')' || c == ']' || c == '"' || c == '\''
}

/// The number of characters of `s` before its first `@` (all of them when there is none).
pub open spec fn at_pos(s: Seq<char>) -> nat
    decreases s.len(),
{
    if s.len() == 0 || s[0] == '@' {
        0
    } else {
        1 + at_pos(s.drop_first())
    }
}

/// The length of the mention token at the start of `s`.
pub open spec fn mention_end(s: Seq<char>) -> nat
    decreases s.len(),
{
    if s.len() == 0 || ends_mention(s[0]) {
        0
    } else {
        1 + mention_end(s.drop_first())
    }
}

pub proof fn lemma_at_pos_bound(s: Seq<char>)
    ensures
        at_pos(s) <= s.len(),
    decreases s.len(),
{
    if s.len() > 0 && s[0] != '@' {
        lemma_at_pos_bound(s.drop_first());
    }
}

pub proof fn lemma_mention_end_bound(s: Seq<char>)
    ensures
        mention_end(s) <= s.len(),
    decreases s.len(),
{
    if s.len() > 0 && !ends_mention(s[0]) {
        lemma_mention_end_bound(s.drop_first());
    }
}

proof fn lemma_at_pos_is(s: Seq<char>, k: int)
    requires
        0 <= k <= s.len(),
        forall|m: int| 0 <= m < k ==> s[m] != '@',
        k == s.len() || s[k] == '@',
    ensures
        at_pos(s) == k,
    decreases k,
{
    if k > 0 {
        assert forall|m: int| 0 <= m < k - 1 implies s.drop_first()[m] != '@' by {
            assert(s.drop_first()[m] == s[m + 1]);
        }
        lemma_at_pos_is(s.drop_first(), k - 1);
    }
}

proof fn lemma_mention_end_is(s: Seq<char>, k: int)
    requires
        0 <= k <= s.len(),
        forall|m: int| 0 <= m < k ==> !ends_mention(s[m]),
        k == s.len() || ends_mention(s[k]),
    ensures
        mention_end(s) == k,
    decreases k,
{
    if k > 0 {
        assert forall|m: int| 0 <= m < k - 1 implies !ends_mention(s.drop_first()[m]) by {
            assert(s.drop_first()[m] == s[m + 1]);
        }
        lemma_mention_end_is(s.drop_first(), k - 1);
    }
}

/// The mention tokens of `s`, in order: after each `@`, the characters up to whitespace or
/// one of `, ; ) ] " '`. An `@` with nothing after it starts no token.
pub open spec fn mention_tokens(s: Seq<char>) -> Seq<Seq<char>>
    decreases s.len(),
{
    proof {
        lemma_at_pos_bound(s);
    }
    let a = at_pos(s);
    if a >= s.len() {
        Seq::empty()
    } else {
        let after = s.skip(a as int + 1);
        proof {
            lemma_mention_end_bound(after);
        }
        let e = mention_end(after);
        if e == 0 {
            mention_tokens(after)
        } else {
            seq![after.take(e as int)] + mention_tokens(after.skip(e as int))
        }
    }
}

fn is_mention_end(c: char) -> (res: bool)
    ensures
        res == ends_mention(c),
{
    is_whitespace(c) || c == ',' || c == ';' || c == ')' || c == ']' || c == '"' || c == '\''
}

/// The `@` mention tokens of a prompt, in order.
pub fn at_mention_tokens(text: &str) -> (res: Vec<String>)
    ensures
        strings_view(res@) == mention_tokens(text@),
{
    let cs = chars_of(text);
    let ghost s = cs@;
    let mut out: Vec<String> = Vec::new();
    let mut i: usize = 0;
    assert(s.skip(0) =~= s);
    loop
        invariant
            cs@ == s,
            s == text@,
            i <= cs.len(),
            strings_view(out@) + mention_tokens(s.skip(i as int)) == mention_tokens(s),
        decreases cs.len() - i,
    {
        let ghost rest = s.skip(i as int);
        let mut a = i;
        while a < cs.len() && cs[a] != '@'
            invariant
                cs@ == s,
                i <= a <= cs.len(),
                forall|m: int| i <= m < a ==> s[m] != '@',
            decreases cs.len() - a,
        {
            a = a + 1;
        }
        proof {
            lemma_at_pos_is(rest, a - i);
        }
        if a == cs.len() {
            assert(strings_view(out@) + Seq::<Seq<char>>::empty() =~= strings_view(out@));
            return out;
        }
        let ghost after = rest.skip(a - i + 1);
        assert(after =~= s.skip(a + 1));
        let mut j = a + 1;
        while j < cs.len() && !is_mention_end(cs[j])
            invariant
                cs@ == s,
                a + 1 <= j <= cs.len(),
                forall|m: int| a + 1 <= m < j ==> !ends_mention(s[m]),
            decreases cs.len() - j,
        {
            j = j + 1;
        }
        proof {
            assert forall|m: int| 0 <= m < j - (a + 1) implies !ends_mention(after[m]) by {
                assert(after[m] == s[m + a + 1]);
            }
            if j < cs.len() {
                assert(after[j - (a + 1)] == s[j as int]);
            }
            lemma_mention_end_is(after, j - (a + 1));
        }
        if j == a + 1 {
            i = a + 1;
        } else {
            let token = string_of(&slice_chars(&cs, a + 1, j));
            let ghost o0 = strings_view(out@);
            out.push(token);
            proof {
                assert(after.take(j - (a + 1)) =~= s.subrange(a + 1, j as int));
                assert(after.skip(j - (a + 1)) =~= s.skip(j as int));
                assert(strings_view(out@) =~= o0.push(s.subrange(a + 1, j as int)));
                assert(o0.push(s.subrange(a + 1, j as int)) + mention_tokens(s.skip(j as int))
                    =~= o0 + (seq![s.subrange(a + 1, j as int)] + mention_tokens(
                    s.skip(j as int),
                )));
            }
            i = j;
        }
    }
}

/// A token that may be an email address or a handle rather than a path: it holds an `@`, or
/// none of `/`, `.` and `\`. It is attached only when it resolves to a path.
pub open spec fn looks_like_handle(token: Seq<char>) -> bool {
    token.contains('@') || (!token.contains('/') && !token.contains('.') && !token.contains('\\'))
}

fn has_char(s: &[char], c: char) -> (res: bool)
    ensures
        res == s@.contains(c),
{
    let mut i: usize = 0;
    while i < s.len()
        invariant
            i <= s.len(),
            forall|m: int| 0 <= m < i ==> s@[m] != c,
        decreases s.len() - i,
    {
        if s[i] == c {
            assert(s@[i as int] == c);
            return true;
        }
        i = i + 1;
    }
    false
}

/// Whether a mention token must resolve to a path before it is read.
pub fn mention_needs_resolution(token: &str) -> (res: bool)
    ensures
        res == looks_like_handle(token@),
{
    let cs = chars_of(token);
    has_char(&cs, '@') || (!has_char(&cs, '/') && !has_char(&cs, '.') && !has_char(&cs, '\\'))
}

// ---------------------------------------------------------------------------
// Context blocks
// ---------------------------------------------------------------------------

/// The context block of a mentioned file with the given contents.
pub open spec fn file_block(token: Seq<char>, contents: Seq<char>) -> Seq<char> {
    "### @"@ + token + "\n```\n"@ + contents + "\n```\n"@
}

/// The context block of a mentioned file too large to attach.
pub open spec fn too_large_block(token: Seq<char>, len: nat) -> Seq<char> {
    "### @"@ + token + "\n(file too large: "@ + decimal(len) + " bytes; use the read tool)\n"@
}

/// Whether a file of `len` bytes is too large to attach.
pub fn mention_file_too_large(len: u64) -> (res: bool)
    ensures
        res == (len > MENTION_FILE_MAX_BYTES),
{
    len > MENTION_FILE_MAX_BYTES
}

/// The context block for a mentioned file's contents.
pub fn mention_file_block(token: &str, contents: &str) -> (res: String)
    ensures
        res@ == file_block(token@, contents@),
{
    let mut s = owned("### @");
    push_str(&mut s, token);
    push_str(&mut s, "\n```\n");
    push_str(&mut s, contents);
    push_str(&mut s, "\n```\n");
    s
}

/// The context block for a mentioned file too large to attach.
pub fn mention_too_large_block(token: &str, len: u64) -> (res: String)
    ensures
        res@ == too_large_block(token@, len as nat),
{
    let mut s = owned("### @");
    push_str(&mut s, token);
    push_str(&mut s, "\n(file too large: ");
    push_chars(&mut s, &decimal_exec(len));
    push_str(&mut s, " bytes; use the read tool)\n");
    s
}

/// One entry of a mentioned folder.
pub struct DirEntry {
    pub name: String,
    pub is_dir: bool,
}

impl View for DirEntry {
    type V = (Seq<char>, bool);

    open spec fn view(&self) -> (Seq<char>, bool) {
        (self.name@, self.is_dir)
    }
}

/// The views of folder entries.
pub open spec fn entries_view(v: Seq<DirEntry>) -> Seq<(Seq<char>, bool)> {
    v.map_values(|e: DirEntry| e@)
}

/// `x` inserted into `s` after every entry whose name is not greater than its own.
pub open spec fn insert_by_name(s: Seq<(Seq<char>, bool)>, x: (Seq<char>, bool)) -> Seq<
    (Seq<char>, bool),
>
    decreases s.len(),
{
    if s.len() == 0 {
        seq![x]
    } else if lex_le(s.last().0, x.0) {
        s.push(x)
    } else {
        insert_by_name(s.drop_last(), x).push(s.last())
    }
}

/// Folder entries sorted by name, stably.
pub open spec fn sort_by_name(s: Seq<(Seq<char>, bool)>) -> Seq<(Seq<char>, bool)>
    decreases s.len(),
{
    if s.len() == 0 {
        Seq::empty()
    } else {
        insert_by_name(sort_by_name(s.drop_last()), s.last())
    }
}

/// One line per entry: `- name`, with `/` after a folder's name.
pub open spec fn listing_lines(es: Seq<(Seq<char>, bool)>) -> Seq<char>
    decreases es.len(),
{
    if es.len() == 0 {
        Seq::empty()
    } else {
        listing_lines(es.drop_last()) + "- "@ + es.last().0 + (if es.last().1 {
            "/"@
        } else {
            Seq::empty()
        }) + "\n"@
    }
}

/// The context block of a mentioned folder: its entry count, then at most 80 entries sorted
/// by name, then how many more there are.
pub open spec fn dir_listing(token: Seq<char>, entries: Seq<(Seq<char>, bool)>) -> Seq<char> {
    let total = entries.len();
    let shown = if total > MENTION_DIR_MAX_ENTRIES {
        MENTION_DIR_MAX_ENTRIES as nat
    } else {
        total
    };
    "### @"@ + token + "/ (directory, "@ + decimal(total) + " entries)\n"@ + listing_lines(
        sort_by_name(entries).take(shown as int),
    ) + if total > MENTION_DIR_MAX_ENTRIES {
        "\u{2026} and "@ + decimal((total - MENTION_DIR_MAX_ENTRIES) as nat) + " more\n"@
    } else {
        Seq::empty()
    }
}

proof fn lemma_insert_by_name_len(s: Seq<(Seq<char>, bool)>, x: (Seq<char>, bool))
    ensures
        insert_by_name(s, x).len() == s.len() + 1,
    decreases s.len(),
{
    if s.len() > 0 && !lex_le(s.last().0, x.0) {
        lemma_insert_by_name_len(s.drop_last(), x);
    }
}

proof fn lemma_sort_by_name_len(s: Seq<(Seq<char>, bool)>)
    ensures
        sort_by_name(s).len() == s.len(),
    decreases s.len(),
{
    if s.len() > 0 {
        lemma_sort_by_name_len(s.drop_last());
        lemma_insert_by_name_len(sort_by_name(s.drop_last()), s.last());
    }
}

fn insert_entry(v: &mut Vec<DirEntry>, x: DirEntry)
    ensures
        entries_view(final(v)@) == insert_by_name(entries_view(old(v)@), x@),
{
    let ghost s0 = entries_view(v@);
    let mut k = v.len();
    assert(s0.take(k as int) == s0 && s0.skip(k as int) == Seq::<(Seq<char>, bool)>::empty());
    while k > 0 && !lex_le_exec(&chars_of(v[k - 1].name.as_str()), &chars_of(x.name.as_str()))
        invariant
            k <= v.len(),
            entries_view(v@) == s0,
            insert_by_name(s0, x@) == insert_by_name(s0.take(k as int), x@) + s0.skip(k as int),
        decreases k,
    {
        proof {
            let t = s0.take(k as int);
            assert(t.last() == s0[k - 1]);
            assert(t.drop_last() == s0.take(k - 1));
            assert(insert_by_name(t, x@) == insert_by_name(s0.take(k - 1), x@).push(s0[k - 1]));
            assert(insert_by_name(s0.take(k - 1), x@).push(s0[k - 1]) + s0.skip(k as int)
                =~= insert_by_name(s0.take(k - 1), x@) + s0.skip(k - 1));
        }
        k = k - 1;
    }
    proof {
        let t = s0.take(k as int);
        if k > 0 {
            assert(t.last() == s0[k - 1]);
        }
        assert(insert_by_name(t, x@) == t.push(x@));
    }
    v.insert(k, x);
    assert(entries_view(v@) =~= s0.take(k as int).push(x@) + s0.skip(k as int));
}

fn sorted_entries(v: &[DirEntry]) -> (res: Vec<DirEntry>)
    ensures
        entries_view(res@) == sort_by_name(entries_view(v@)),
{
    let ghost s0 = entries_view(v@);
    let mut out: Vec<DirEntry> = Vec::new();
    let mut i: usize = 0;
    while i < v.len()
        invariant
            i <= v.len(),
            s0 == entries_view(v@),
            entries_view(out@) == sort_by_name(s0.take(i as int)),
        decreases v.len() - i,
    {
        let e = DirEntry { name: owned(v[i].name.as_str()), is_dir: v[i].is_dir };
        proof {
            let t = s0.take(i + 1);
            assert(t.drop_last() == s0.take(i as int));
            assert(t.last() == e@);
        }
        insert_entry(&mut out, e);
        i = i + 1;
    }
    assert(s0.take(v.len() as int) == s0);
    out
}

/// The context block for a mentioned folder with the given entries.
pub fn format_dir_listing(token: &str, entries: &[DirEntry]) -> (res: String)
    ensures
        res@ == dir_listing(token@, entries_view(entries@)),
{
    let ghost ev = entries_view(entries@);
    let sorted = sorted_entries(entries);
    proof {
        lemma_sort_by_name_len(ev);
    }
    let total = entries.len();
    let shown = if total > MENTION_DIR_MAX_ENTRIES {
        MENTION_DIR_MAX_ENTRIES
    } else {
        total
    };
    let mut body = owned("### @");
    push_str(&mut body, token);
    push_str(&mut body, "/ (directory, ");
    push_chars(&mut body, &decimal_exec(total as u64));
    push_str(&mut body, " entries)\n");
    let ghost head = body@;
    let ghost sv = entries_view(sorted@);
    let mut k: usize = 0;
    while k < shown
        invariant
            k <= shown <= sorted@.len(),
            sv == entries_view(sorted@),
            body@ == head + listing_lines(sv.take(k as int)),
        decreases shown - k,
    {
        let ghost before = body@;
        push_str(&mut body, "- ");
        push_str(&mut body, sorted[k].name.as_str());
        if sorted[k].is_dir {
            push_str(&mut body, "/");
        }
        push_str(&mut body, "\n");
        proof {
            let t = sv.take(k + 1);
            assert(t.drop_last() == sv.take(k as int));
            assert(t.last() == sv[k as int]);
            assert(sv[k as int] == sorted@[k as int]@);
            assert(body@ =~= head + listing_lines(t));
        }
        k = k + 1;
    }
    if total > MENTION_DIR_MAX_ENTRIES {
        push_str(&mut body, "\u{2026} and ");
        push_chars(&mut body, &decimal_exec((total - MENTION_DIR_MAX_ENTRIES) as u64));
        push_str(&mut body, " more\n");
    }
    body
}

// ---------------------------------------------------------------------------
// The expanded prompt
// ---------------------------------------------------------------------------

/// The blocks that resolved, in order.
pub open spec fn found_blocks(blocks: Seq<Option<Seq<char>>>) -> Seq<Seq<char>>
    decreases blocks.len(),
{
    if blocks.len() == 0 {
        Seq::empty()
    } else {
        let r = found_blocks(blocks.drop_last());
        match blocks.last() {
            Some(b) => r.push(b),
            None => r,
        }
    }
}

/// The blocks, each followed by a line break.
pub open spec fn blocks_text(bs: Seq<Seq<char>>) -> Seq<char>
    decreases bs.len(),
{
    if bs.len() == 0 {
        Seq::empty()
    } else {
        blocks_text(bs.drop_last()) + bs.last() + "\n"@
    }
}

/// The prompt sent for `text` when its mentions resolved to `blocks` (one per token, `None`
/// when the token did not resolve): the text as typed, then, when any block resolved, the
/// attached-context section.
pub open spec fn expanded_prompt(text: Seq<char>, blocks: Seq<Option<Seq<char>>>) -> Seq<char> {
    let found = found_blocks(blocks);
    if found.len() == 0 {
        text
    } else {
        text + MENTION_HEADER@ + blocks_text(found)
    }
}

/// Attaches the context blocks that the prompt's mentions resolved to, one block (or none)
/// per mention token of `text`.
pub fn expand_at_mentions(text: &str, blocks: &[Option<String>]) -> (res: String)
    requires
        blocks@.len() == mention_tokens(text@).len(),
    ensures
        res@ == expanded_prompt(text@, blocks@.map_values(|b: Option<String>| opt_view(b))),
{
    let ghost bv = blocks@.map_values(|b: Option<String>| opt_view(b));
    let mut section = String::new();
    let mut any = false;
    let mut i: usize = 0;
    while i < blocks.len()
        invariant
            i <= blocks.len(),
            bv == blocks@.map_values(|b: Option<String>| opt_view(b)),
            section@ == blocks_text(found_blocks(bv.take(i as int))),
            any == (found_blocks(bv.take(i as int)).len() > 0),
        decreases blocks.len() - i,
    {
        proof {
            let t = bv.take(i + 1);
            assert(t.drop_last() == bv.take(i as int));
            assert(t.last() == opt_view(blocks@[i as int]));
        }
        match &blocks[i] {
            Some(b) => {
                push_str(&mut section, b.as_str());
                push_str(&mut section, "\n");
                any = true;
                proof {
                    let f = found_blocks(bv.take(i as int));
                    assert(f.push(b@).drop_last() =~= f);
                    assert(f.push(b@).last() == b@);
                }
            },
            None => {},
        }
        i = i + 1;
    }
    assert(bv.take(blocks.len() as int) == bv);
    let mut out = owned(text);
    if any {
        push_str(&mut out, MENTION_HEADER);
        push_str(&mut out, section.as_str());
    }
    out
}

/// The expanded prompt always begins with the prompt exactly as typed.
pub proof fn law_expansion_keeps_prompt(text: Seq<char>, blocks: Seq<Option<Seq<char>>>)
    ensures
        expanded_prompt(text, blocks).take(text.len() as int) == text,
        found_blocks(blocks).len() == 0 ==> expanded_prompt(text, blocks) == text,
{
    let e = expanded_prompt(text, blocks);
    if found_blocks(blocks).len() > 0 {
        assert(e =~= text + (MENTION_HEADER@ + blocks_text(found_blocks(blocks))));
        assert(e.take(text.len() as int) =~= text);
    } else {
        assert(e.take(text.len() as int) =~= text);
    }
}

/// A text without `@` has no mention tokens.
pub proof fn lemma_no_at_no_tokens(s: Seq<char>)
    requires
        !s.contains('@'),
    ensures
        mention_tokens(s).len() == 0,
{
    assert forall|m: int| 0 <= m < s.len() implies s[m] != '@' by {
        if s[m] == '@' {
            assert(s.contains(s[m]));
        }
    }
    lemma_at_pos_is(s, s.len() as int);
}

/// A prompt without `@` comes back unchanged: it has no mention tokens, so nothing is
/// attached.
pub proof fn law_no_mention_leaves_prompt(text: Seq<char>, blocks: Seq<Option<Seq<char>>>)
    requires
        !text.contains('@'),
        blocks.len() == mention_tokens(text).len(),
    ensures
        expanded_prompt(text, blocks) == text,
{
    lemma_no_at_no_tokens(text);
    assert(blocks =~= Seq::<Option<Seq<char>>>::empty());
    assert(found_blocks(blocks) =~= Seq::<Seq<char>>::empty());
}

} // verus!
