//! Conversation domain types and the pure helpers that shape a transcript for display.

use vstd::prelude::*;

use crate::json::{command_of_json, raw_command};
use crate::text::{
    ascii_lower_seq, chars_eq, chars_of, is_blank, is_blank_exec, join, owned, push_chars,
    push_str, slice_chars, split_words, string_of, to_ascii_lower, trim, trim_chars, words,
    line_end, line_len, lemma_line_len, lemma_line_len_bounds,
};

verus! {

/// Who wrote a chat message.
#[derive(Clone, Copy, PartialEq, Eq, Structural, Debug)]
pub enum MsgRole {
    User,
    Assistant,
}

/// User message attachment (image bytes; base64 only when converting for provider APIs).
pub enum UserAttachment {
    Image { mime: String, data: Vec<u8> },
}

/// Segments streamed from the provider loop (thinking / answer text / tool runs).
pub enum AssistantBlock {
    /// Extended reasoning, shown collapsed and distinct from the answer.
    Thinking(String),
    /// Main reply, rendered as Markdown.
    Answer(String),
    /// Tool run keyed by provider/tool-call id.
    Tool {
        tool_call_id: String,
        name: String,
        /// JSON args from the tool start event (truncated for display).
        args_summary: Option<String>,
        /// Cumulative output (partial updates replace this).
        output: String,
        /// Unified diff for edit-like tools when the result carries one.
        diff: Option<String>,
        is_error: Option<bool>,
        full_output_path: Option<String>,
        output_truncated: bool,
    },
}

/// One message of a conversation.
pub struct ChatMessage {
    pub role: MsgRole,
    /// User message only.
    pub text: String,
    /// User only: images and similar (empty for assistant).
    pub attachments: Vec<UserAttachment>,
    /// Assistant only: ordered thinking / answer / tool segments.
    pub blocks: Vec<AssistantBlock>,
    /// Assistant message still receiving its stream.
    pub streaming: bool,
}

/// One chat tab.
pub struct Session {
    pub title: String,
    pub messages: Vec<ChatMessage>,
    /// Local session file when persistence is enabled.
    pub session_file: Option<String>,
    /// `true` once this tab's transcript was loaded from disk or created in memory.
    pub messages_loaded: bool,
}

/// How consecutive assistant blocks are grouped for rendering.
#[derive(Debug, Clone)]
pub enum AssistantBlockGroup {
    Thinking(Vec<usize>),
    Answer(usize),
    ExploringTools { range_start: usize, range_end: usize, tool_indices: Vec<usize> },
    Tool(usize),
}

/// The mathematical value of an [`AssistantBlockGroup`].
pub enum GroupView {
    Thinking(Seq<usize>),
    Answer(usize),
    ExploringTools { range_start: usize, range_end: usize, tool_indices: Seq<usize> },
    Tool(usize),
}

impl View for AssistantBlockGroup {
    type V = GroupView;

    open spec fn view(&self) -> GroupView {
        match self {
            AssistantBlockGroup::Thinking(v) => GroupView::Thinking(v@),
            AssistantBlockGroup::Answer(i) => GroupView::Answer(*i),
            AssistantBlockGroup::ExploringTools { range_start, range_end, tool_indices } =>
                GroupView::ExploringTools {
                range_start: *range_start,
                range_end: *range_end,
                tool_indices: tool_indices@,
            },
            AssistantBlockGroup::Tool(i) => GroupView::Tool(*i),
        }
    }
}

/// The views of a sequence of groups.
pub open spec fn groups_view(gs: Seq<AssistantBlockGroup>) -> Seq<GroupView> {
    gs.map_values(|g: AssistantBlockGroup| g@)
}

// ---------------------------------------------------------------------------
// Session titles
// ---------------------------------------------------------------------------

/// Maximum number of characters of the first message kept in a session title.
pub const TITLE_MAX_CHARS: usize = 36;

/// The title of a session whose first message is `s`: its words joined by single spaces,
/// cut to 36 characters with an ellipsis when longer, or "New chat" when there are none.
pub open spec fn session_title(s: Seq<char>) -> Seq<char> {
    let n = join(words(s), seq![' ']);
    if n.len() == 0 {
        "New chat"@
    } else if n.len() > TITLE_MAX_CHARS {
        n.take(TITLE_MAX_CHARS as int).push('\u{2026}')
    } else {
        n
    }
}

/// Law: a chat is named after every word of its first prompt, whatever whitespace (line
/// breaks included) separates them: the words joined by single spaces, cut after 36
/// characters with an ellipsis; "New chat" when the prompt has no words.
pub proof fn law_title_keeps_every_word(s: Seq<char>)
    ensures
        join(words(s), seq![' ']).len() == 0 ==> session_title(s) == "New chat"@,
        0 < join(words(s), seq![' ']).len() <= 36 ==> session_title(s) == join(words(s), seq![' ']),
        join(words(s), seq![' ']).len() > 36 ==> session_title(s) == join(words(s), seq![' ']).take(
            36,
        ) + seq!['\u{2026}'],
{
    let n = join(words(s), seq![' ']);
    assert(n.take(36).push('\u{2026}') =~= n.take(36) + seq!['\u{2026}']);
}

/// The words of `cs` joined by single spaces.
fn normalize_spaces(cs: &[char]) -> (res: Vec<char>)
    ensures
        res@ == join(words(cs@), seq![' ']),
{
    let ws = split_words(cs);
    let ghost wv = words(cs@);
    let mut out: Vec<char> = Vec::new();
    let mut k: usize = 0;
    while k < ws.len()
        invariant
            k <= ws.len(),
            ws@.len() == wv.len(),
            forall|i: int| 0 <= i < ws@.len() ==> (#[trigger] ws@[i])@ == wv[i],
            out@ == join(wv.take(k as int), seq![' ']),
        decreases ws.len() - k,
    {
        let ghost before = out@;
        if k > 0 {
            out.push(' ');
        }
        let w = &ws[k];
        let mut m: usize = 0;
        let ghost mid = out@;
        while m < w.len()
            invariant
                m <= w.len(),
                out@ == mid + w@.take(m as int),
            decreases w.len() - m,
        {
            out.push(w[m]);
            assert(w@.take(m as int).push(w@[m as int]) == w@.take(m + 1));
            m = m + 1;
        }
        proof {
            assert(w@.take(w@.len() as int) == w@);
            let t = wv.take(k + 1);
            assert(t.drop_last() == wv.take(k as int));
            assert(t.last() == wv[k as int]);
            if k == 0 {
                assert(t.len() == 1);
                assert(before == Seq::<char>::empty());
                assert(out@ == t[0]);
            } else {
                assert(out@ == before + seq![' '] + wv[k as int]);
            }
        }
        k = k + 1;
    }
    assert(wv.take(wv.len() as int) == wv);
    out
}

/// A session title derived from the first message text.
pub fn make_session_title(text: &str) -> (res: String)
    ensures
        res@ == session_title(text@),
{
    let cs = chars_of(text);
    let n = normalize_spaces(&cs);
    if n.len() == 0 {
        return owned("New chat");
    }
    if n.len() > TITLE_MAX_CHARS {
        let mut t = slice_chars(&n, 0, TITLE_MAX_CHARS);
        t.push('\u{2026}');
        string_of(&t)
    } else {
        string_of(&n)
    }
}

// ---------------------------------------------------------------------------
// Block classification
// ---------------------------------------------------------------------------

/// The block is empty for rendering purposes (blank text, or a tool with blank output and
/// no non-blank diff).
pub open spec fn block_is_blank(b: AssistantBlock) -> bool {
    match b {
        AssistantBlock::Thinking(s) => is_blank(s@),
        AssistantBlock::Answer(s) => is_blank(s@),
        AssistantBlock::Tool { output, diff, .. } => is_blank(output@) && match diff {
            Some(d) => is_blank(d@),
            None => true,
        },
    }
}

/// An assistant message has nothing to render yet. While streaming, any tool call
/// counts as content.
pub open spec fn effectively_empty(blocks: Seq<AssistantBlock>, streaming: bool) -> bool {
    if streaming && exists|i: int| 0 <= i < blocks.len() && (#[trigger] blocks[i] is Tool) {
        false
    } else {
        forall|i: int| 0 <= i < blocks.len() ==> block_is_blank(#[trigger] blocks[i])
    }
}

fn block_is_blank_exec(b: &AssistantBlock) -> (res: bool)
    ensures
        res == block_is_blank(*b),
{
    match b {
        AssistantBlock::Thinking(s) => is_blank_exec(&chars_of(s.as_str())),
        AssistantBlock::Answer(s) => is_blank_exec(&chars_of(s.as_str())),
        AssistantBlock::Tool { output, diff, .. } => {
            if !is_blank_exec(&chars_of(output.as_str())) {
                return false;
            }
            match diff {
                Some(d) => is_blank_exec(&chars_of(d.as_str())),
                None => true,
            }
        },
    }
}

/// Assistant message has nothing to render yet (no text, no tool I/O).
pub fn assistant_is_effectively_empty(blocks: &[AssistantBlock], streaming: bool) -> (res: bool)
    ensures
        res == effectively_empty(blocks@, streaming),
{
    if streaming {
        let mut i: usize = 0;
        while i < blocks.len()
            invariant
                streaming,
                i <= blocks.len(),
                forall|k: int| 0 <= k < i ==> !(#[trigger] blocks@[k] is Tool),
            decreases blocks.len() - i,
        {
            let is_tool = match &blocks[i] {
                AssistantBlock::Tool { .. } => true,
                _ => false,
            };
            if is_tool {
                assert(blocks@[i as int] is Tool);
                assert(!effectively_empty(blocks@, streaming));
                return false;
            }
            i = i + 1;
        }
    }
    let mut i: usize = 0;
    while i < blocks.len()
        invariant
            i <= blocks.len(),
            streaming ==> forall|k: int| 0 <= k < blocks.len() ==> !(#[trigger] blocks@[k] is Tool),
            forall|k: int| 0 <= k < i ==> block_is_blank(#[trigger] blocks@[k]),
        decreases blocks.len() - i,
    {
        if !block_is_blank_exec(&blocks[i]) {
            return false;
        }
        i = i + 1;
    }
    true
}

/// Tools that edit files (the `edit` tool, or any tool with a non-blank diff) end an
/// explore run.
pub open spec fn breaks_explore(b: AssistantBlock) -> bool {
    match b {
        AssistantBlock::Tool { name, diff, .. } => ascii_lower_seq(name@) == "edit"@ || match diff {
            Some(d) => !is_blank(d@),
            None => false,
        },
        _ => false,
    }
}

/// A tool run that may join an explore group.
pub open spec fn explore_groupable(b: AssistantBlock) -> bool {
    b is Tool && !breaks_explore(b)
}

/// The tool block ends an explore run.
pub fn tool_breaks_explore_cluster(block: &AssistantBlock) -> (res: bool)
    ensures
        res == breaks_explore(*block),
{
    match block {
        AssistantBlock::Tool { name, diff, .. } => {
            let lower = to_ascii_lower(&chars_of(name.as_str()));
            let edit = chars_of("edit");
            if chars_eq(&lower, &edit) {
                return true;
            }
            match diff {
                Some(d) => !is_blank_exec(&chars_of(d.as_str())),
                None => false,
            }
        },
        _ => false,
    }
}

/// The tool block may join an explore group.
pub fn is_explore_groupable_tool(block: &AssistantBlock) -> (res: bool)
    ensures
        res == explore_groupable(*block),
{
    match block {
        AssistantBlock::Tool { .. } => !tool_breaks_explore_cluster(block),
        _ => false,
    }
}

// ---------------------------------------------------------------------------
// Grouping
// ---------------------------------------------------------------------------

/// Blocks that an explore run passes over: thinking, groupable tools and blank answers.
pub open spec fn cluster_member(b: AssistantBlock) -> bool {
    ||| b is Thinking
    ||| explore_groupable(b)
    ||| (b matches AssistantBlock::Answer(t) && is_blank(t@))
}

/// The first index at or after `j` that is not a cluster member.
pub open spec fn cluster_end(blocks: Seq<AssistantBlock>, j: int) -> int
    decreases blocks.len() - j,
{
    if 0 <= j < blocks.len() && cluster_member(blocks[j]) {
        cluster_end(blocks, j + 1)
    } else {
        j
    }
}

/// The indices in `[i, e)` of groupable tools, in order.
pub open spec fn tools_in(blocks: Seq<AssistantBlock>, i: int, e: int) -> Seq<usize>
    decreases e - i,
{
    if e <= i {
        Seq::empty()
    } else {
        let prev = tools_in(blocks, i, e - 1);
        if explore_groupable(blocks[e - 1]) {
            prev.push((e - 1) as usize)
        } else {
            prev
        }
    }
}

/// The first index at or after `j` that is not a thinking block.
pub open spec fn thinking_end(blocks: Seq<AssistantBlock>, j: int) -> int
    decreases blocks.len() - j,
{
    if 0 <= j < blocks.len() && blocks[j] is Thinking {
        thinking_end(blocks, j + 1)
    } else {
        j
    }
}

/// The indices `[i, e)`.
pub open spec fn index_range(i: int, e: int) -> Seq<usize> {
    Seq::new((e - i) as nat, |k: int| (i + k) as usize)
}

pub proof fn lemma_cluster_end_bounds(blocks: Seq<AssistantBlock>, j: int)
    requires
        0 <= j <= blocks.len(),
    ensures
        j <= cluster_end(blocks, j) <= blocks.len(),
    decreases blocks.len() - j,
{
    if j < blocks.len() && cluster_member(blocks[j]) {
        lemma_cluster_end_bounds(blocks, j + 1);
    }
}

pub proof fn lemma_thinking_end_bounds(blocks: Seq<AssistantBlock>, j: int)
    requires
        0 <= j <= blocks.len(),
    ensures
        j <= thinking_end(blocks, j) <= blocks.len(),
    decreases blocks.len() - j,
{
    if j < blocks.len() && blocks[j] is Thinking {
        lemma_thinking_end_bounds(blocks, j + 1);
    }
}

pub proof fn lemma_tools_in_bounds(blocks: Seq<AssistantBlock>, i: int, e: int)
    requires
        0 <= i,
        e <= usize::MAX,
    ensures
        tools_in(blocks, i, e).len() <= if e <= i {
            0
        } else {
            e - i
        },
        forall|k: int|
            0 <= k < tools_in(blocks, i, e).len() ==> i <= #[trigger] tools_in(blocks, i, e)[k]
                < e && explore_groupable(blocks[tools_in(blocks, i, e)[k] as int]),
    decreases e - i,
{
    if e > i {
        lemma_tools_in_bounds(blocks, i, e - 1);
    }
}

/// The grouping of `blocks[i..]` for rendering: runs of three or more explore tools
/// (possibly separated by thinking or blank answers) become one explore group; runs of
/// thinking blocks become one thinking group; every other block stands alone.
pub open spec fn groups_from(blocks: Seq<AssistantBlock>, i: int) -> Seq<GroupView>
    decreases blocks.len() - i,
{
    if i < 0 || i >= blocks.len() {
        Seq::empty()
    } else {
        let b = blocks[i];
        let e = cluster_end(blocks, i);
        let tools = tools_in(blocks, i, e);
        if (b is Thinking || b is Tool) && tools.len() >= 3 {
            proof {
                lemma_cluster_end_bounds(blocks, i);
            }
            seq![
                GroupView::ExploringTools {
                    range_start: i as usize,
                    range_end: e as usize,
                    tool_indices: tools,
                },
            ] + groups_from(blocks, e)
        } else {
            match b {
                AssistantBlock::Thinking(_) => {
                    let t = thinking_end(blocks, i + 1);
                    proof {
                        lemma_thinking_end_bounds(blocks, i + 1);
                    }
                    seq![GroupView::Thinking(index_range(i, t))] + groups_from(blocks, t)
                },
                AssistantBlock::Answer(_) => seq![GroupView::Answer(i as usize)] + groups_from(
                    blocks,
                    i + 1,
                ),
                AssistantBlock::Tool { .. } => seq![GroupView::Tool(i as usize)] + groups_from(
                    blocks,
                    i + 1,
                ),
            }
        }
    }
}

/// The block indices a group renders.
pub open spec fn group_indices(g: GroupView) -> Seq<usize> {
    match g {
        GroupView::Thinking(v) => v,
        GroupView::Answer(i) => seq![i],
        GroupView::ExploringTools { range_start, range_end, .. } => index_range(
            range_start as int,
            range_end as int,
        ),
        GroupView::Tool(i) => seq![i],
    }
}

/// The block indices rendered by a list of groups, in order.
pub open spec fn flatten_groups(gs: Seq<GroupView>) -> Seq<usize>
    decreases gs.len(),
{
    if gs.len() == 0 {
        Seq::empty()
    } else {
        group_indices(gs[0]) + flatten_groups(gs.drop_first())
    }
}

/// An explore group holds at least three groupable tools, all inside its range.
pub open spec fn explore_group_ok(blocks: Seq<AssistantBlock>, g: GroupView) -> bool {
    match g {
        GroupView::ExploringTools { range_start, range_end, tool_indices } => {
            &&& range_start < range_end
            &&& tool_indices.len() >= 3
            &&& forall|k: int|
                0 <= k < tool_indices.len() ==> range_start <= #[trigger] tool_indices[k]
                    < range_end && explore_groupable(blocks[tool_indices[k] as int])
        },
        _ => true,
    }
}

proof fn lemma_index_range_split(i: int, m: int, e: int)
    requires
        0 <= i <= m <= e <= usize::MAX + 1,
    ensures
        index_range(i, m) + index_range(m, e) == index_range(i, e),
{
    assert(index_range(i, m) + index_range(m, e) =~= index_range(i, e));
}

proof fn lemma_groups_from_props(blocks: Seq<AssistantBlock>, i: int)
    requires
        0 <= i <= blocks.len() <= usize::MAX,
    ensures
        flatten_groups(groups_from(blocks, i)) == index_range(i, blocks.len() as int),
        forall|k: int|
            0 <= k < groups_from(blocks, i).len() ==> explore_group_ok(
                blocks,
                #[trigger] groups_from(blocks, i)[k],
            ),
    decreases blocks.len() - i,
{
    let n = blocks.len() as int;
    if i >= n {
        assert(index_range(i, n) =~= Seq::<usize>::empty());
    } else {
        let b = blocks[i];
        let e = cluster_end(blocks, i);
        let tools = tools_in(blocks, i, e);
        let gs = groups_from(blocks, i);
        lemma_cluster_end_bounds(blocks, i);
        lemma_tools_in_bounds(blocks, i, e);
        let next: int = if (b is Thinking || b is Tool) && tools.len() >= 3 {
            e
        } else if b is Thinking {
            lemma_thinking_end_bounds(blocks, i + 1);
            thinking_end(blocks, i + 1)
        } else {
            i + 1
        };
        lemma_groups_from_props(blocks, next);
        let rest = groups_from(blocks, next);
        assert(gs.drop_first() == rest);
        assert(group_indices(gs[0]) == index_range(i, next)) by {
            if !((b is Thinking || b is Tool) && tools.len() >= 3) && !(b is Thinking) {
                assert(index_range(i, i + 1) =~= seq![i as usize]);
            }
        }
        lemma_index_range_split(i, next, n);
        assert forall|k: int| 0 <= k < gs.len() implies explore_group_ok(
            blocks,
            #[trigger] gs[k],
        ) by {
            if k > 0 {
                assert(gs[k] == rest[k - 1]);
            }
        }
    }
}

/// Law: rendering groups show every block of a message exactly once and in order, and
/// every explore group gathers at least three groupable tools from inside its own range.
pub proof fn law_groups_cover_each_block_once(blocks: Seq<AssistantBlock>)
    requires
        blocks.len() <= usize::MAX,
    ensures
        flatten_groups(groups_from(blocks, 0)) == index_range(0, blocks.len() as int),
        forall|k: int|
            0 <= k < groups_from(blocks, 0).len() ==> explore_group_ok(
                blocks,
                #[trigger] groups_from(blocks, 0)[k],
            ),
{
    lemma_groups_from_props(blocks, 0);
}

proof fn lemma_cluster_end_is(blocks: Seq<AssistantBlock>, j: int, e: int)
    requires
        0 <= j <= e <= blocks.len(),
        forall|k: int| j <= k < e ==> cluster_member(#[trigger] blocks[k]),
        e == blocks.len() || !cluster_member(blocks[e]),
    ensures
        cluster_end(blocks, j) == e,
    decreases e - j,
{
    if j < e {
        lemma_cluster_end_is(blocks, j + 1, e);
    }
}

proof fn lemma_tools_in_exact(blocks: Seq<AssistantBlock>, i: int, e: int)
    requires
        0 <= i <= e <= blocks.len() <= usize::MAX,
    ensures
        forall|k: int|
            i <= k < e ==> (explore_groupable(#[trigger] blocks[k]) <==> tools_in(blocks, i, e).contains(
                k as usize,
            )),
        forall|p: int, q: int|
            0 <= p < q < tools_in(blocks, i, e).len() ==> #[trigger] tools_in(blocks, i, e)[p]
                < #[trigger] tools_in(blocks, i, e)[q],
    decreases e - i,
{
    lemma_tools_in_bounds(blocks, i, e);
    if e > i {
        lemma_tools_in_exact(blocks, i, e - 1);
        lemma_tools_in_bounds(blocks, i, e - 1);
        let prev = tools_in(blocks, i, e - 1);
        let cur = tools_in(blocks, i, e);
        assert forall|k: int| i <= k < e implies (explore_groupable(#[trigger] blocks[k])
            <==> cur.contains(k as usize)) by {
            if explore_groupable(blocks[e - 1]) {
                assert(cur == prev.push((e - 1) as usize));
                if k < e - 1 {
                    if cur.contains(k as usize) {
                        let x = choose|x: int| 0 <= x < cur.len() && cur[x] == k as usize;
                        if x == prev.len() {
                        } else {
                            assert(prev[x] == cur[x]);
                        }
                    }
                    if prev.contains(k as usize) {
                        let x = choose|x: int| 0 <= x < prev.len() && prev[x] == k as usize;
                        assert(cur[x] == prev[x]);
                    }
                } else {
                    assert(cur[prev.len() as int] == (e - 1) as usize);
                }
            } else {
                assert(cur == prev);
                if k == e - 1 && cur.contains(k as usize) {
                    let x = choose|x: int| 0 <= x < cur.len() && cur[x] == k as usize;
                    assert(cur[x] < e - 1);
                }
            }
        }
    }
}

/// Law: a cluster of three or more explore tools becomes one explore group. When a thinking
/// or tool block at `i` starts a maximal run `[i, e)` of cluster members (thinking, blank
/// answers, groupable tools) holding at least three groupable tools, the first group from
/// `i` is an explore group over exactly `[i, e)` that lists every groupable tool of the
/// run, in order — never a lone tool group in front of it.
pub proof fn law_explore_run_is_one_group(blocks: Seq<AssistantBlock>, i: int, e: int, a: int, b: int, c: int)
    requires
        blocks.len() <= usize::MAX,
        0 <= i < e <= blocks.len(),
        blocks[i] is Thinking || blocks[i] is Tool,
        forall|k: int| i <= k < e ==> cluster_member(#[trigger] blocks[k]),
        e == blocks.len() || !cluster_member(blocks[e]),
        i <= a < b < c < e,
        explore_groupable(blocks[a]),
        explore_groupable(blocks[b]),
        explore_groupable(blocks[c]),
    ensures
        groups_from(blocks, i).len() > 0,
        groups_from(blocks, i)[0] matches GroupView::ExploringTools { range_start, range_end, tool_indices }
            && range_start == i && range_end == e
            && (forall|k: int| i <= k < e ==> (explore_groupable(#[trigger] blocks[k]) <==> tool_indices.contains(k as usize)))
            && (forall|p: int, q: int| 0 <= p < q < tool_indices.len() ==> #[trigger] tool_indices[p] < #[trigger] tool_indices[q]),
{
    lemma_cluster_end_is(blocks, i, e);
    lemma_tools_in_exact(blocks, i, e);
    let tools = tools_in(blocks, i, e);
    assert(tools.contains(a as usize));
    assert(tools.contains(b as usize));
    assert(tools.contains(c as usize));
    let pa = choose|x: int| 0 <= x < tools.len() && tools[x] == a as usize;
    let pb = choose|x: int| 0 <= x < tools.len() && tools[x] == b as usize;
    let pc = choose|x: int| 0 <= x < tools.len() && tools[x] == c as usize;
    assert(pa != pb && pb != pc && pa != pc);
    assert(tools.len() >= 3);
}

/// Law: outside explore clusters, a run of thinking blocks becomes one thinking group over
/// exactly that run (`[i, t)`, ending before the next non-thinking block), and any other
/// block stands alone as its own group. Here `[i, e)` is the maximal run of cluster members
/// from `i`, holding fewer than three groupable tools.
pub proof fn law_blocks_outside_clusters(blocks: Seq<AssistantBlock>, i: int, e: int, t: int)
    requires
        blocks.len() <= usize::MAX,
        0 <= i <= e <= blocks.len(),
        i < blocks.len(),
        forall|k: int| i <= k < e ==> cluster_member(#[trigger] blocks[k]),
        e == blocks.len() || !cluster_member(blocks[e]),
        forall|a: int, b: int, c: int|
            i <= a < b < c < e && #[trigger] explore_groupable(blocks[a]) && #[trigger] explore_groupable(
                blocks[b],
            ) ==> !#[trigger] explore_groupable(blocks[c]),
        blocks[i] is Thinking ==> i < t <= blocks.len() && (forall|k: int|
            i <= k < t ==> #[trigger] blocks[k] is Thinking) && (t == blocks.len() || !(
        blocks[t] is Thinking)),
    ensures
        groups_from(blocks, i).len() > 0,
        blocks[i] is Thinking ==> groups_from(blocks, i)[0] == GroupView::Thinking(index_range(i, t)),
        blocks[i] is Answer ==> groups_from(blocks, i)[0] == GroupView::Answer(i as usize),
        blocks[i] is Tool ==> groups_from(blocks, i)[0] == GroupView::Tool(i as usize),
{
    lemma_cluster_end_is(blocks, i, e);
    lemma_tools_in_exact(blocks, i, e);
    lemma_tools_in_bounds(blocks, i, e);
    let tools = tools_in(blocks, i, e);
    if tools.len() >= 3 {
        let a = tools[0] as int;
        let b = tools[1] as int;
        let c = tools[2] as int;
        assert(explore_groupable(blocks[a]) && explore_groupable(blocks[b]));
        assert(!explore_groupable(blocks[c]));
        assert(false);
    }
    if blocks[i] is Thinking {
        lemma_thinking_end_is(blocks, i + 1, t);
    }
}

proof fn lemma_thinking_end_is(blocks: Seq<AssistantBlock>, j: int, t: int)
    requires
        0 < j <= t <= blocks.len(),
        forall|k: int| j <= k < t ==> #[trigger] blocks[k] is Thinking,
        t == blocks.len() || !(blocks[t] is Thinking),
    ensures
        thinking_end(blocks, j) == t,
    decreases t - j,
{
    if j < t {
        lemma_thinking_end_is(blocks, j + 1, t);
    }
}

/// Scans the explore cluster starting at `i`: its end and its groupable tools.
fn scan_cluster(blocks: &[AssistantBlock], i: usize) -> (res: (usize, Vec<usize>))
    requires
        i <= blocks.len(),
    ensures
        res.0 as int == cluster_end(blocks@, i as int),
        res.1@ == tools_in(blocks@, i as int, res.0 as int),
{
    let mut j = i;
    let mut tools: Vec<usize> = Vec::new();
    loop
        invariant
            i <= j <= blocks.len(),
            cluster_end(blocks@, i as int) == cluster_end(blocks@, j as int),
            tools@ == tools_in(blocks@, i as int, j as int),
        ensures
            i <= j <= blocks.len(),
            cluster_end(blocks@, i as int) == j as int,
            tools@ == tools_in(blocks@, i as int, j as int),
        decreases blocks.len() - j,
    {
        if j >= blocks.len() {
            break;
        }
        let member = match &blocks[j] {
            AssistantBlock::Thinking(_) => true,
            AssistantBlock::Tool { .. } => is_explore_groupable_tool(&blocks[j]),
            AssistantBlock::Answer(t) => is_blank_exec(&chars_of(t.as_str())),
        };
        assert(member == cluster_member(blocks@[j as int]));
        if !member {
            break;
        }
        if is_explore_groupable_tool(&blocks[j]) {
            tools.push(j);
        }
        j = j + 1;
    }
    (j, tools)
}

/// Group assistant blocks for rendering: merges 3+ consecutive explore tools (possibly
/// separated by thinking segments or empty answers) into an explore group.
pub fn build_assistant_block_groups(blocks: &[AssistantBlock]) -> (res: Vec<AssistantBlockGroup>)
    ensures
        groups_view(res@) == groups_from(blocks@, 0),
{
    let mut i: usize = 0;
    let mut out: Vec<AssistantBlockGroup> = Vec::new();
    while i < blocks.len()
        invariant
            i <= blocks.len(),
            groups_from(blocks@, 0) == groups_view(out@) + groups_from(blocks@, i as int),
        decreases blocks.len() - i,
    {
        let ghost prev = out@;
        let starts_cluster = match &blocks[i] {
            AssistantBlock::Thinking(_) => true,
            AssistantBlock::Tool { .. } => true,
            AssistantBlock::Answer(_) => false,
        };
        if starts_cluster {
            let (j, tools) = scan_cluster(blocks, i);
            if tools.len() >= 3 {
                proof {
                    lemma_cluster_end_bounds(blocks@, i as int);
                }
                let g = AssistantBlockGroup::ExploringTools {
                    range_start: i,
                    range_end: j,
                    tool_indices: tools,
                };
                out.push(g);
                proof {
                    assert(groups_view(out@) == groups_view(prev).push(g@));
                }
                i = j;
                continue;
            }
        }
        match &blocks[i] {
            AssistantBlock::Thinking(_) => {
                let start = i;
                let mut idx: Vec<usize> = Vec::new();
                idx.push(i);
                i = i + 1;
                while i < blocks.len() && matches!(blocks[i], AssistantBlock::Thinking(_))
                    invariant
                        start < i <= blocks.len(),
                        thinking_end(blocks@, start + 1) == thinking_end(blocks@, i as int),
                        idx@ == index_range(start as int, i as int),
                    decreases blocks.len() - i,
                {
                    idx.push(i);
                    assert(idx@ =~= index_range(start as int, i + 1));
                    i = i + 1;
                }
                let g = AssistantBlockGroup::Thinking(idx);
                out.push(g);
                proof {
                    assert(groups_view(out@) == groups_view(prev).push(g@));
                }
            },
            AssistantBlock::Answer(_) => {
                let g = AssistantBlockGroup::Answer(i);
                out.push(g);
                proof {
                    assert(groups_view(out@) == groups_view(prev).push(g@));
                }
                i = i + 1;
            },
            AssistantBlock::Tool { .. } => {
                let g = AssistantBlockGroup::Tool(i);
                out.push(g);
                proof {
                    assert(groups_view(out@) == groups_view(prev).push(g@));
                }
                i = i + 1;
            },
        }
    }
    assert(groups_from(blocks@, i as int) == Seq::<GroupView>::empty());
    assert(groups_view(out@) + Seq::<GroupView>::empty() == groups_view(out@));
    out
}


// ---------------------------------------------------------------------------
// Thinking, tool output and headers
// ---------------------------------------------------------------------------

/// Estimated seconds of "thinking" for `total_chars` characters of reasoning: one second
/// per started 400 characters, between 1 and 999.
pub open spec fn thought_seconds(total_chars: nat) -> nat {
    let q = if total_chars % 400 == 0 {
        total_chars / 400
    } else {
        total_chars / 400 + 1
    };
    if q < 1 {
        1
    } else if q > 999 {
        999
    } else {
        q
    }
}

/// Estimated thinking duration in seconds for a reasoning text of `total_chars` characters.
pub fn estimate_thought_seconds(total_chars: usize) -> (res: u32)
    ensures
        res as nat == thought_seconds(total_chars as nat),
{
    if total_chars == 0 {
        return 1;
    }
    let q = total_chars / 400 + if total_chars % 400 == 0 {
        0
    } else {
        1
    };
    if q < 1 {
        1
    } else if q > 999 {
        999
    } else {
        q as u32
    }
}

/// The thinking texts among `blocks[indices[..]]`, in order, separated by a blank line
/// (no separator before the first text or around empty texts).
pub open spec fn thinking_concat(blocks: Seq<AssistantBlock>, indices: Seq<usize>) -> Seq<char>
    decreases indices.len(),
{
    if indices.len() == 0 {
        Seq::empty()
    } else {
        let prev = thinking_concat(blocks, indices.drop_last());
        match blocks[indices.last() as int] {
            AssistantBlock::Thinking(t) => if prev.len() > 0 && t@.len() > 0 {
                prev + "\n\n"@ + t@
            } else {
                prev + t@
            },
            _ => prev,
        }
    }
}

/// Concatenate the thinking blocks at `indices`.
pub fn concat_thinking_blocks(blocks: &[AssistantBlock], indices: &[usize]) -> (res: String)
    requires
        forall|k: int| 0 <= k < indices.len() ==> #[trigger] indices@[k] < blocks.len(),
    ensures
        res@ == thinking_concat(blocks@, indices@),
{
    let mut s = String::new();
    let mut k: usize = 0;
    while k < indices.len()
        invariant
            k <= indices.len(),
            forall|m: int| 0 <= m < indices.len() ==> #[trigger] indices@[m] < blocks.len(),
            s@ == thinking_concat(blocks@, indices@.take(k as int)),
        decreases indices.len() - k,
    {
        let i = indices[k];
        proof {
            let t = indices@.take(k + 1);
            assert(t.drop_last() == indices@.take(k as int));
            assert(t.last() == i);
        }
        match &blocks[i] {
            AssistantBlock::Thinking(t) => {
                if !s.as_str().is_empty() && !t.as_str().is_empty() {
                    push_str(&mut s, "\n\n");
                }
                push_str(&mut s, t.as_str());
            },
            _ => {},
        }
        k = k + 1;
    }
    assert(indices@.take(indices@.len() as int) == indices@);
    s
}

/// The string fields of a tool block other than its output are those of `old`.
pub open spec fn same_tool_identity(new: AssistantBlock, old: AssistantBlock) -> bool {
    &&& new is Tool
    &&& old is Tool
    &&& new->tool_call_id == old->tool_call_id
    &&& new->name == old->name
    &&& new->args_summary == old->args_summary
    &&& new->diff == old->diff
    &&& new->is_error == old->is_error
    &&& new->full_output_path == old->full_output_path
}

/// The index of the first tool block whose call id is `id`.
pub open spec fn first_tool_with_id(blocks: Seq<AssistantBlock>, id: Seq<char>, k: int) -> bool {
    &&& 0 <= k < blocks.len()
    &&& blocks[k] is Tool
    &&& blocks[k]->tool_call_id@ == id
    &&& forall|j: int|
        0 <= j < k ==> !(#[trigger] blocks[j] is Tool && blocks[j]->tool_call_id@ == id)
}

/// Some tool block has call id `id`.
pub open spec fn has_tool_with_id(blocks: Seq<AssistantBlock>, id: Seq<char>) -> bool {
    exists|k: int|
        0 <= k < blocks.len() && #[trigger] blocks[k] is Tool && blocks[k]->tool_call_id@ == id
}

/// `new` is `old` with the tool block at `k` given output `text` and truncation flag `t`.
pub open spec fn output_set_at(
    new: Seq<AssistantBlock>,
    old: Seq<AssistantBlock>,
    k: int,
    text: Seq<char>,
    t: bool,
) -> bool {
    &&& new.len() == old.len()
    &&& 0 <= k < old.len()
    &&& forall|j: int| 0 <= j < old.len() && j != k ==> new[j] == old[j]
    &&& same_tool_identity(new[k], old[k])
    &&& new[k]->output@ == text
    &&& new[k]->output_truncated == t
}

/// `new` is `old` after tool output `text` (truncated or not) was applied for the call id
/// `id`: to the first tool with that non-empty id; otherwise to the last block when it is
/// a tool; otherwise as a new tool block.
pub open spec fn tool_output_applied(
    new_b: Seq<AssistantBlock>,
    old_b: Seq<AssistantBlock>,
    id: Option<Seq<char>>,
    text: Seq<char>,
    truncated: bool,
) -> bool {
    let routed = match id {
        Some(i) => i.len() > 0 && has_tool_with_id(old_b, i),
        None => false,
    };
    if routed {
        exists|k: int| first_tool_with_id(old_b, id->0, k) && output_set_at(new_b, old_b, k, text, truncated)
    } else if old_b.len() > 0 && old_b.last() is Tool {
        output_set_at(new_b, old_b, old_b.len() - 1, text, truncated)
    } else {
        &&& new_b.len() == old_b.len() + 1
        &&& new_b.take(old_b.len() as int) == old_b
        &&& new_b.last() is Tool
        &&& new_b.last()->tool_call_id@ == match id {
            Some(i) => i,
            None => Seq::<char>::empty(),
        }
        &&& new_b.last()->name@ == "tool"@
        &&& new_b.last()->args_summary is None
        &&& new_b.last()->output@ == text
        &&& new_b.last()->diff is None
        &&& new_b.last()->is_error is None
        &&& new_b.last()->full_output_path is None
        &&& new_b.last()->output_truncated == truncated
    }
}

/// Law: applying the same tool output twice leaves the blocks as applying it once: the
/// second call finds the block the first one wrote and writes the same values again.
pub proof fn law_tool_output_applied_twice_is_once(
    b0: Seq<AssistantBlock>,
    b1: Seq<AssistantBlock>,
    b2: Seq<AssistantBlock>,
    id: Option<Seq<char>>,
    text: Seq<char>,
    truncated: bool,
)
    requires
        tool_output_applied(b1, b0, id, text, truncated),
        tool_output_applied(b2, b1, id, text, truncated),
    ensures
        crate::hydrate::blocks_v(b2) == crate::hydrate::blocks_v(b1),
{
    let routed0 = match id {
        Some(i) => i.len() > 0 && has_tool_with_id(b0, i),
        None => false,
    };
    // the position the first call wrote, which the second call writes again
    let k: int = if routed0 {
        choose|k: int| first_tool_with_id(b0, id->0, k) && output_set_at(b1, b0, k, text, truncated)
    } else if b0.len() > 0 && b0.last() is Tool {
        b0.len() - 1
    } else {
        b0.len() as int
    };
    assert(b1[k] is Tool && b1[k]->output@ == text && b1[k]->output_truncated == truncated);
    if routed0 {
        let i = id->0;
        assert(first_tool_with_id(b1, i, k)) by {
            assert forall|j: int| 0 <= j < k implies !(#[trigger] b1[j] is Tool && b1[j]->tool_call_id@ == i) by {
                assert(b1[j] == b0[j]);
            }
        }
    } else if b0.len() > 0 && b0.last() is Tool {
        if let Some(i) = id {
            if i.len() > 0 {
                if has_tool_with_id(b1, i) {
                    let m = choose|m: int| 0 <= m < b1.len() && #[trigger] b1[m] is Tool && b1[m]->tool_call_id@ == i;
                    if m == k {
                        assert(b0[m] is Tool && b0[m]->tool_call_id@ == i);
                    } else {
                        assert(b0[m] == b1[m]);
                    }
                    assert(has_tool_with_id(b0, i));
                }
            }
        }
        assert(b1.last() == b1[k]);
    } else {
        assert(b1.last() == b1[k]);
        if let Some(i) = id {
            if i.len() > 0 {
                assert(has_tool_with_id(b1, i));
                assert(first_tool_with_id(b1, i, k)) by {
                    assert forall|j: int| 0 <= j < k implies !(#[trigger] b1[j] is Tool && b1[j]->tool_call_id@ == i) by {
                        assert(b1.take(b0.len() as int)[j] == b0[j]);
                        if b0[j] is Tool && b0[j]->tool_call_id@ == i {
                            assert(has_tool_with_id(b0, i));
                        }
                    }
                }
            }
        }
    }
    // the second call writes at k
    let routed1 = match id {
        Some(i) => i.len() > 0 && has_tool_with_id(b1, i),
        None => false,
    };
    if routed1 {
        let k2 = choose|k2: int| first_tool_with_id(b1, id->0, k2) && output_set_at(b2, b1, k2, text, truncated);
        if k2 < k {
            assert(!(b1[k2] is Tool && b1[k2]->tool_call_id@ == id->0));
        } else if k2 > k {
            assert(!(b1[k] is Tool && b1[k]->tool_call_id@ == id->0));
        }
        assert(k2 == k);
    } else {
        assert(b1.len() > 0 && b1.last() is Tool);
    }
    assert(output_set_at(b2, b1, k, text, truncated));
    assert(crate::hydrate::block_v(b2[k]) == crate::hydrate::block_v(b1[k]));
    assert(crate::hydrate::blocks_v(b2) =~= crate::hydrate::blocks_v(b1));
}

fn set_output_at(blocks: &mut Vec<AssistantBlock>, k: usize, text: &str, truncated: bool)
    requires
        k < old(blocks).len(),
        old(blocks)@[k as int] is Tool,
    ensures
        output_set_at(final(blocks)@, old(blocks)@, k as int, text@, truncated),
{
    let old_block = blocks.remove(k);
    let new_block = match old_block {
        AssistantBlock::Tool {
            tool_call_id,
            name,
            args_summary,
            output: _,
            diff,
            is_error,
            full_output_path,
            output_truncated: _,
        } => AssistantBlock::Tool {
            tool_call_id,
            name,
            args_summary,
            output: owned(text),
            diff,
            is_error,
            full_output_path,
            output_truncated: truncated,
        },
        other => other,
    };
    blocks.insert(k, new_block);
    assert forall|j: int| 0 <= j < old(blocks)@.len() && j != k implies blocks@[j] == old(
        blocks,
    )@[j] by {
        if j < k {
        } else {
        }
    }
}

/// Apply tool output to assistant blocks: to the first tool with the given non-empty call
/// id; otherwise to the last block when it is a tool; otherwise as a new tool block.
pub fn set_tool_output_on_blocks(
    blocks: &mut Vec<AssistantBlock>,
    tool_call_id: Option<&str>,
    text: &str,
    truncated: bool,
)
    ensures
        tool_output_applied(
            final(blocks)@,
            old(blocks)@,
            crate::compute::str_opt(tool_call_id),
            text@,
            truncated,
        ),
{
    if let Some(id) = tool_call_id {
        if !id.is_empty() {
            let idc = chars_of(id);
            let mut k: usize = 0;
            while k < blocks.len()
                invariant
                    k <= blocks.len(),
                    blocks@ == old(blocks)@,
                    tool_call_id == Some(id),
                    id@.len() > 0,
                    idc@ == id@,
                    forall|j: int|
                        0 <= j < k ==> !(#[trigger] blocks@[j] is Tool && blocks@[j]->tool_call_id@
                            == id@),
                decreases blocks.len() - k,
            {
                let hit = match &blocks[k] {
                    AssistantBlock::Tool { tool_call_id: tid, .. } => chars_eq(
                        &chars_of(tid.as_str()),
                        &idc,
                    ),
                    _ => false,
                };
                if hit {
                    proof {
                        assert(id@.len() > 0);
                        assert(first_tool_with_id(old(blocks)@, id@, k as int));
                    }
                    set_output_at(blocks, k, text, truncated);
                    return;
                }
                k = k + 1;
            }
            assert(!has_tool_with_id(old(blocks)@, id@));
        }
    }
    let n = blocks.len();
    if n > 0 {
        let last_is_tool = match &blocks[n - 1] {
            AssistantBlock::Tool { .. } => true,
            _ => false,
        };
        if last_is_tool {
            set_output_at(blocks, n - 1, text, truncated);
            return;
        }
    }
    let id_str = match tool_call_id {
        Some(id) => owned(id),
        None => String::new(),
    };
    blocks.push(
        AssistantBlock::Tool {
            tool_call_id: id_str,
            name: owned("tool"),
            args_summary: None,
            output: owned(text),
            diff: None,
            is_error: None,
            full_output_path: None,
            output_truncated: truncated,
        },
    );
    assert(blocks@.take(old(blocks)@.len() as int) == old(blocks)@);
}

/// The first line of `s` (split at `'\n'`) that is not blank, or empty when every line is.
pub open spec fn first_nonblank_line(s: Seq<char>) -> Seq<char>
    decreases s.len(),
{
    if s.len() == 0 {
        Seq::empty()
    } else {
        let k = line_len(s);
        let line = s.take(k);
        if !is_blank(line) {
            line
        } else if k >= s.len() {
            Seq::empty()
        } else {
            proof {
                lemma_line_len_bounds(s);
            }
            first_nonblank_line(s.skip(k + 1))
        }
    }
}

/// Maximum number of preview characters in a compact tool header.
pub const HEADER_PREVIEW_CHARS: usize = 56;

/// The compact header of a tool run: `name · preview`, where the preview is the first
/// non-blank output line, trimmed and cut to 56 characters with an ellipsis when longer;
/// `name · …` when there is no such line.
pub open spec fn compact_header(name: Seq<char>, output: Seq<char>) -> Seq<char> {
    let preview = trim(first_nonblank_line(output));
    let p = if preview.len() > HEADER_PREVIEW_CHARS {
        preview.take(HEADER_PREVIEW_CHARS as int).push('\u{2026}')
    } else {
        preview
    };
    if p.len() == 0 {
        name + " \u{b7} \u{2026}"@
    } else {
        name + " \u{b7} "@ + p
    }
}

fn first_nonblank_line_exec(s: &[char]) -> (res: Vec<char>)
    ensures
        res@ == first_nonblank_line(s@),
{
    let mut from: usize = 0;
    assert(s@.skip(0) == s@);
    loop
        invariant
            from <= s.len(),
            first_nonblank_line(s@) == first_nonblank_line(s@.skip(from as int)),
        decreases s.len() - from,
    {
        if from == s.len() {
            assert(s@.skip(from as int).len() == 0);
            return Vec::new();
        }
        let e = line_end(s, from);
        let line = slice_chars(s, from, e);
        proof {
            let t = s@.skip(from as int);
            lemma_line_len(t, e - from);
            assert(t.take(e - from) == s@.subrange(from as int, e as int));
            if e < s.len() {
                assert(t.skip(e - from + 1) == s@.skip(e + 1));
            }
        }
        if !is_blank_exec(&line) {
            return line;
        }
        if e >= s.len() {
            return Vec::new();
        }
        from = e + 1;
    }
}

/// A one-line header for a tool run: its name and the first non-blank output line.
pub fn tool_compact_header(name: &str, output: &str) -> (res: String)
    ensures
        res@ == compact_header(name@, output@),
{
    let line = first_nonblank_line_exec(&chars_of(output));
    let preview = trim_chars(&line);
    let p = if preview.len() > HEADER_PREVIEW_CHARS {
        let mut t = slice_chars(&preview, 0, HEADER_PREVIEW_CHARS);
        t.push('\u{2026}');
        t
    } else {
        preview
    };
    let mut res = owned(name);
    if p.len() == 0 {
        push_str(&mut res, " \u{b7} \u{2026}");
    } else {
        push_str(&mut res, " \u{b7} ");
        push_chars(&mut res, &p);
    }
    res
}


// ---------------------------------------------------------------------------
// Command summaries of explore groups
// ---------------------------------------------------------------------------

/// Maximum number of characters kept of a command's first word.
pub const COMMAND_TOKEN_CHARS: usize = 16;

/// The first word of a command (the command itself when it has no word), cut to 16
/// characters.
pub open spec fn command_token(cmd: Seq<char>) -> Seq<char> {
    let ws = words(cmd);
    let w = if ws.len() > 0 {
        ws[0]
    } else {
        cmd
    };
    if w.len() > COMMAND_TOKEN_CHARS {
        w.take(COMMAND_TOKEN_CHARS as int)
    } else {
        w
    }
}

/// The command token of a tool block whose arguments name a command.
pub open spec fn tool_command_token(b: AssistantBlock) -> Option<Seq<char>> {
    match b {
        AssistantBlock::Tool { args_summary: Some(raw), .. } => match raw_command(raw@) {
            Some(c) => Some(command_token(c)),
            None => None,
        },
        _ => None,
    }
}

/// The distinct non-empty command tokens of the blocks at the first `k` indices, in order
/// of first appearance.
pub open spec fn command_tokens_upto(
    blocks: Seq<AssistantBlock>,
    indices: Seq<usize>,
    k: int,
) -> Seq<Seq<char>>
    decreases k,
{
    if k <= 0 {
        Seq::empty()
    } else {
        let p = command_tokens_upto(blocks, indices, k - 1);
        match tool_command_token(blocks[indices[k - 1] as int]) {
            Some(t) => if t.len() > 0 && !p.contains(t) {
                p.push(t)
            } else {
                p
            },
            None => p,
        }
    }
}

/// Maximum number of tools whose commands are summarized.
pub const COMMAND_SUMMARY_TOOLS: usize = 4;

/// The summary of the commands run by the first four tools at `indices`: their distinct
/// first words joined by ", ".
pub open spec fn command_summary(blocks: Seq<AssistantBlock>, indices: Seq<usize>) -> Seq<char> {
    let n = if indices.len() < COMMAND_SUMMARY_TOOLS {
        indices.len() as int
    } else {
        COMMAND_SUMMARY_TOOLS as int
    };
    join(command_tokens_upto(blocks, indices, n), ", "@)
}

fn command_token_exec(cmd: &str) -> (res: Vec<char>)
    ensures
        res@ == command_token(cmd@),
{
    let cs = chars_of(cmd);
    let ws = split_words(&cs);
    let w = if ws.len() > 0 {
        slice_chars(&ws[0], 0, ws[0].len())
    } else {
        cs
    };
    if w.len() > COMMAND_TOKEN_CHARS {
        slice_chars(&w, 0, COMMAND_TOKEN_CHARS)
    } else {
        w
    }
}

fn contains_chars(parts: &Vec<Vec<char>>, t: &Vec<char>) -> (res: bool)
    ensures
        res == parts@.map_values(|w: Vec<char>| w@).contains(t@),
{
    let ghost pv = parts@.map_values(|w: Vec<char>| w@);
    let mut i: usize = 0;
    while i < parts.len()
        invariant
            i <= parts.len(),
            pv == parts@.map_values(|w: Vec<char>| w@),
            forall|j: int| 0 <= j < i ==> pv[j] != t@,
        decreases parts.len() - i,
    {
        if chars_eq(&parts[i], t) {
            assert(pv[i as int] == t@);
            return true;
        }
        i = i + 1;
    }
    false
}

/// Comma-separated distinct first words of the commands run by (up to) the first four
/// tools at `indices`.
pub fn bash_command_tokens(blocks: &[AssistantBlock], indices: &[usize]) -> (res: String)
    requires
        forall|k: int|
            0 <= k < indices.len() && k < COMMAND_SUMMARY_TOOLS ==> #[trigger] indices@[k]
                < blocks.len(),
    ensures
        res@ == command_summary(blocks@, indices@),
{
    let n = if indices.len() < COMMAND_SUMMARY_TOOLS {
        indices.len()
    } else {
        COMMAND_SUMMARY_TOOLS
    };
    let mut parts: Vec<Vec<char>> = Vec::new();
    let mut k: usize = 0;
    while k < n
        invariant
            k <= n <= indices.len(),
            n <= COMMAND_SUMMARY_TOOLS,
            forall|m: int|
                0 <= m < indices.len() && m < COMMAND_SUMMARY_TOOLS ==> #[trigger] indices@[m]
                    < blocks.len(),
            parts@.map_values(|w: Vec<char>| w@) == command_tokens_upto(
                blocks@,
                indices@,
                k as int,
            ),
        decreases n - k,
    {
        let ghost before = parts@.map_values(|w: Vec<char>| w@);
        let tok: Option<Vec<char>> = match &blocks[indices[k]] {
            AssistantBlock::Tool { args_summary: Some(raw), .. } => match command_of_json(
                raw.as_str(),
            ) {
                Some(c) => Some(command_token_exec(c.as_str())),
                None => None,
            },
            _ => None,
        };
        assert(match tok {
            Some(t) => tool_command_token(blocks@[indices@[k as int] as int]) == Some(t@),
            None => tool_command_token(blocks@[indices@[k as int] as int]) is None,
        });
        if let Some(t) = tok {
            if t.len() > 0 && !contains_chars(&parts, &t) {
                parts.push(t);
                assert(parts@.map_values(|w: Vec<char>| w@) == before.push(t@));
            }
        }
        k = k + 1;
    }
    let mut out = String::new();
    let ghost pv = parts@.map_values(|w: Vec<char>| w@);
    let mut i: usize = 0;
    while i < parts.len()
        invariant
            i <= parts.len(),
            pv == parts@.map_values(|w: Vec<char>| w@),
            out@ == join(pv.take(i as int), ", "@),
        decreases parts.len() - i,
    {
        let ghost before = out@;
        if i > 0 {
            push_str(&mut out, ", ");
        }
        push_chars(&mut out, parts[i].as_slice());
        proof {
            let t = pv.take(i + 1);
            assert(t.drop_last() == pv.take(i as int));
            assert(t.last() == pv[i as int]);
            if i == 0 {
                assert(t.len() == 1);
                assert(out@ == t[0]);
            }
        }
        i = i + 1;
    }
    assert(pv.take(pv.len() as int) == pv);
    out
}

} // verus!
