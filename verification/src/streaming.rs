//! How streamed agent events edit the assistant message of a running turn.

use vstd::prelude::*;

use crate::model::{
    AssistantBlock, ChatMessage, MsgRole, Session, UserAttachment, make_session_title, session_title,
};
use crate::text::{chars_eq, chars_of, owned, push_str, slice_chars, string_of};

verus! {

/// The views of an optional string.
pub open spec fn opt_view(o: Option<String>) -> Option<Seq<char>> {
    match o {
        Some(s) => Some(s@),
        None => None,
    }
}

/// The text of a thinking or answer block (empty for a tool block).
pub open spec fn block_text(b: AssistantBlock) -> Seq<char> {
    match b {
        AssistantBlock::Thinking(s) => s@,
        AssistantBlock::Answer(s) => s@,
        AssistantBlock::Tool { .. } => Seq::empty(),
    }
}

/// `a` and `b` are the same block, their strings compared by view.
pub open spec fn same_block(a: AssistantBlock, b: AssistantBlock) -> bool {
    match (a, b) {
        (AssistantBlock::Thinking(x), AssistantBlock::Thinking(y)) => x@ == y@,
        (AssistantBlock::Answer(x), AssistantBlock::Answer(y)) => x@ == y@,
        (
            AssistantBlock::Tool {
                tool_call_id: i1,
                name: n1,
                args_summary: a1,
                output: o1,
                diff: d1,
                is_error: e1,
                full_output_path: p1,
                output_truncated: t1,
            },
            AssistantBlock::Tool {
                tool_call_id: i2,
                name: n2,
                args_summary: a2,
                output: o2,
                diff: d2,
                is_error: e2,
                full_output_path: p2,
                output_truncated: t2,
            },
        ) => {
            &&& i1@ == i2@
            &&& n1@ == n2@
            &&& opt_view(a1) == opt_view(a2)
            &&& o1@ == o2@
            &&& opt_view(d1) == opt_view(d2)
            &&& e1 == e2
            &&& opt_view(p1) == opt_view(p2)
            &&& t1 == t2
        },
        _ => false,
    }
}

/// Two block lists hold the same blocks, position by position.
pub open spec fn same_blocks(a: Seq<AssistantBlock>, b: Seq<AssistantBlock>) -> bool {
    a.len() == b.len() && forall|i: int| 0 <= i < a.len() ==> same_block(#[trigger] a[i], b[i])
}

// ---------------------------------------------------------------------------
// Finding the running assistant message
// ---------------------------------------------------------------------------

/// `i` is the index of the last assistant message of `msgs`.
pub open spec fn last_assistant_at(msgs: Seq<ChatMessage>, i: int) -> bool {
    &&& 0 <= i < msgs.len()
    &&& msgs[i].role == MsgRole::Assistant
    &&& forall|j: int| i < j < msgs.len() ==> #[trigger] msgs[j].role != MsgRole::Assistant
}

/// The position of the last assistant message, which streamed events edit.
pub fn last_assistant_index(messages: &[ChatMessage]) -> (res: Option<usize>)
    ensures
        match res {
            Some(i) => last_assistant_at(messages@, i as int),
            None => forall|j: int|
                0 <= j < messages@.len() ==> #[trigger] messages@[j].role != MsgRole::Assistant,
        },
{
    let mut k = messages.len();
    while k > 0
        invariant
            k <= messages.len(),
            forall|j: int| k <= j < messages@.len() ==> #[trigger] messages@[j].role != MsgRole::Assistant,
        decreases k,
    {
        if messages[k - 1].role == MsgRole::Assistant {
            return Some(k - 1);
        }
        k = k - 1;
    }
    None
}

// ---------------------------------------------------------------------------
// Answer and thinking text
// ---------------------------------------------------------------------------

/// `new` is `old` after a text block starts: unchanged when the last block is already an
/// empty answer, else with an empty answer block appended.
pub open spec fn text_block_started(new: Seq<AssistantBlock>, old: Seq<AssistantBlock>) -> bool {
    if old.len() > 0 && old.last() is Answer && block_text(old.last()).len() == 0 {
        new == old
    } else {
        &&& new.len() == old.len() + 1
        &&& new.drop_last() == old
        &&& new.last() is Answer
        &&& block_text(new.last()).len() == 0
    }
}

/// Opens an empty answer block unless one is already open.
pub fn on_text_block_start(blocks: &mut Vec<AssistantBlock>)
    ensures
        text_block_started(final(blocks)@, old(blocks)@),
{
    let n = blocks.len();
    if n > 0 {
        let open = match &blocks[n - 1] {
            AssistantBlock::Answer(s) => s.as_str().is_empty(),
            _ => false,
        };
        if open {
            return;
        }
    }
    blocks.push(AssistantBlock::Answer(String::new()));
    assert(blocks@.drop_last() =~= old(blocks)@);
}

/// `new` is `old` after the answer text `delta` streamed in: appended to a trailing answer
/// block, or as a new answer block.
pub open spec fn text_delta_applied(
    new: Seq<AssistantBlock>,
    old: Seq<AssistantBlock>,
    delta: Seq<char>,
) -> bool {
    if old.len() > 0 && old.last() is Answer {
        &&& new.len() == old.len()
        &&& new.drop_last() == old.drop_last()
        &&& new.last() is Answer
        &&& block_text(new.last()) == block_text(old.last()) + delta
    } else {
        &&& new.len() == old.len() + 1
        &&& new.drop_last() == old
        &&& new.last() is Answer
        &&& block_text(new.last()) == delta
    }
}

/// Streams answer text into the blocks (also used for whole answers appended at once).
pub fn append_text_delta(blocks: &mut Vec<AssistantBlock>, delta: &str)
    ensures
        text_delta_applied(final(blocks)@, old(blocks)@, delta@),
{
    let n = blocks.len();
    if n > 0 {
        let is_answer = match &blocks[n - 1] {
            AssistantBlock::Answer(_) => true,
            _ => false,
        };
        if is_answer {
            match blocks.pop() {
                Some(AssistantBlock::Answer(s)) => {
                    let mut s = s;
                    push_str(&mut s, delta);
                    blocks.push(AssistantBlock::Answer(s));
                },
                Some(other) => blocks.push(other),
                None => {},
            }
            assert(blocks@.drop_last() =~= old(blocks)@.drop_last());
            return;
        }
    }
    blocks.push(AssistantBlock::Answer(owned(delta)));
    assert(blocks@.drop_last() =~= old(blocks)@);
}

/// Streaming answer text in two pieces leaves the same blocks as streaming it at once.
pub proof fn law_text_deltas_concatenate(
    b0: Seq<AssistantBlock>,
    b1: Seq<AssistantBlock>,
    b2: Seq<AssistantBlock>,
    c: Seq<AssistantBlock>,
    d1: Seq<char>,
    d2: Seq<char>,
)
    requires
        text_delta_applied(b1, b0, d1),
        text_delta_applied(b2, b1, d2),
        text_delta_applied(c, b0, d1 + d2),
    ensures
        same_blocks(b2, c),
{
    assert forall|i: int| 0 <= i < b2.len() implies same_block(#[trigger] b2[i], c[i]) by {
        if i < b2.len() - 1 {
            assert(b2[i] == b2.drop_last()[i]);
            assert(c[i] == c.drop_last()[i]);
            if b0.len() > 0 && b0.last() is Answer {
                assert(b1.drop_last()[i] == b1[i]);
            } else {
                assert(b1[i] == b0[i]);
            }
            lemma_same_block_refl(b2[i]);
        } else {
            let x = block_text(b0.last());
            assert((x + d1) + d2 =~= x + (d1 + d2));
            assert(d1 + d2 =~= d1 + d2);
            lemma_answer_same(b2.last(), c.last());
        }
    }
}

proof fn lemma_same_block_refl(b: AssistantBlock)
    ensures
        same_block(b, b),
{
}

proof fn lemma_answer_same(a: AssistantBlock, b: AssistantBlock)
    requires
        a is Answer,
        b is Answer,
        block_text(a) == block_text(b),
    ensures
        same_block(a, b),
{
}

/// `new` is `old` after the reasoning text `delta` streamed in. Reasoning joins a trailing
/// thinking block; when the last block is the empty answer opened by a text start, it joins
/// the thinking block just before it, or a new thinking block is put in front of it.
pub open spec fn thinking_delta_applied(
    new: Seq<AssistantBlock>,
    old: Seq<AssistantBlock>,
    delta: Seq<char>,
) -> bool {
    let n = old.len() as int;
    if n > 0 && old.last() is Thinking {
        &&& new.len() == n
        &&& new.drop_last() == old.drop_last()
        &&& new.last() is Thinking
        &&& block_text(new.last()) == block_text(old.last()) + delta
    } else if n > 0 && old.last() is Answer && block_text(old.last()).len() == 0 {
        if n >= 2 && old[n - 2] is Thinking {
            &&& new.len() == n
            &&& new.take(n - 2) == old.take(n - 2)
            &&& new[n - 1] == old[n - 1]
            &&& new[n - 2] is Thinking
            &&& block_text(new[n - 2]) == block_text(old[n - 2]) + delta
        } else {
            &&& new.len() == n + 1
            &&& new.take(n - 1) == old.take(n - 1)
            &&& new[n - 1] is Thinking
            &&& block_text(new[n - 1]) == delta
            &&& new[n] == old[n - 1]
        }
    } else {
        &&& new.len() == n + 1
        &&& new.drop_last() == old
        &&& new.last() is Thinking
        &&& block_text(new.last()) == delta
    }
}

/// Streams reasoning text into the blocks, keeping it ahead of an empty answer placeholder.
pub fn append_thinking_delta(blocks: &mut Vec<AssistantBlock>, delta: &str)
    ensures
        thinking_delta_applied(final(blocks)@, old(blocks)@, delta@),
{
    let n = blocks.len();
    if n > 0 {
        let (last_thinking, last_open_answer) = match &blocks[n - 1] {
            AssistantBlock::Thinking(_) => (true, false),
            AssistantBlock::Answer(s) => (false, s.as_str().is_empty()),
            _ => (false, false),
        };
        if last_thinking {
            match blocks.pop() {
                Some(AssistantBlock::Thinking(s)) => {
                    let mut s = s;
                    push_str(&mut s, delta);
                    blocks.push(AssistantBlock::Thinking(s));
                },
                Some(other) => blocks.push(other),
                None => {},
            }
            assert(blocks@.drop_last() =~= old(blocks)@.drop_last());
            return;
        }
        if last_open_answer {
            let before_thinking = n >= 2 && match &blocks[n - 2] {
                AssistantBlock::Thinking(_) => true,
                _ => false,
            };
            let ghost b0 = blocks@;
            let empty = match blocks.pop() {
                Some(e) => e,
                None => AssistantBlock::Answer(String::new()),
            };
            if before_thinking {
                match blocks.pop() {
                    Some(AssistantBlock::Thinking(s)) => {
                        let mut s = s;
                        push_str(&mut s, delta);
                        blocks.push(AssistantBlock::Thinking(s));
                    },
                    Some(other) => blocks.push(other),
                    None => {},
                }
                blocks.push(empty);
                assert(blocks@.take(n - 2) =~= b0.take(n - 2));
            } else {
                blocks.push(AssistantBlock::Thinking(owned(delta)));
                blocks.push(empty);
                assert(blocks@.take(n - 1) =~= b0.take(n - 1));
            }
            return;
        }
    }
    blocks.push(AssistantBlock::Thinking(owned(delta)));
    assert(blocks@.drop_last() =~= old(blocks)@);
}

/// Streaming reasoning in two pieces leaves the same blocks as streaming it at once.
pub proof fn law_thinking_deltas_concatenate(
    b0: Seq<AssistantBlock>,
    b1: Seq<AssistantBlock>,
    b2: Seq<AssistantBlock>,
    c: Seq<AssistantBlock>,
    d1: Seq<char>,
    d2: Seq<char>,
)
    requires
        thinking_delta_applied(b1, b0, d1),
        thinking_delta_applied(b2, b1, d2),
        thinking_delta_applied(c, b0, d1 + d2),
    ensures
        same_blocks(b2, c),
{
    let n = b0.len() as int;
    assert forall|i: int| 0 <= i < b2.len() implies same_block(#[trigger] b2[i], c[i]) by {
        if n > 0 && b0.last() is Thinking {
            if i < n - 1 {
                assert(b2[i] == b2.drop_last()[i]);
                assert(c[i] == c.drop_last()[i]);
                assert(b1[i] == b1.drop_last()[i]);
                lemma_same_block_refl(b2[i]);
            } else {
                let x = block_text(b0.last());
                assert((x + d1) + d2 =~= x + (d1 + d2));
            }
        } else if n > 0 && b0.last() is Answer && block_text(b0.last()).len() == 0 {
            if n >= 2 && b0[n - 2] is Thinking {
                if i < n - 2 {
                    assert(b2[i] == b2.take(n - 2)[i]);
                    assert(c[i] == c.take(n - 2)[i]);
                    assert(b1[i] == b1.take(n - 2)[i]);
                    lemma_same_block_refl(b2[i]);
                } else if i == n - 2 {
                    let x = block_text(b0[n - 2]);
                    assert((x + d1) + d2 =~= x + (d1 + d2));
                } else {
                    lemma_same_block_refl(b2[i]);
                }
            } else {
                assert(b1[n - 2 + 1] == b1[n - 1]);
                if i < n - 1 {
                    assert(b2[i] == b2.take(n - 1)[i]);
                    assert(c[i] == c.take(n - 1)[i]);
                    assert(b1[i] == b1.take(n - 1)[i]);
                    lemma_same_block_refl(b2[i]);
                } else if i == n - 1 {
                    assert(d1 + d2 =~= d1 + d2);
                } else {
                    lemma_same_block_refl(b2[i]);
                }
            }
        } else {
            if i < n {
                assert(b2[i] == b2.drop_last()[i]);
                assert(c[i] == c.drop_last()[i]);
                assert(b1[i] == b1.drop_last()[i]);
                lemma_same_block_refl(b2[i]);
            } else {
                assert(d1 + d2 =~= d1 + d2);
            }
        }
    }
}

// ---------------------------------------------------------------------------
// Retrying a round
// ---------------------------------------------------------------------------

/// A block of the round in flight: answer or reasoning text, or a tool that has not
/// finished.
pub open spec fn in_flight(b: AssistantBlock) -> bool {
    ||| b is Answer
    ||| b is Thinking
    ||| (b is Tool && b->is_error is None)
}

/// How many leading blocks remain once the trailing in-flight blocks are dropped.
pub open spec fn settled_len(blocks: Seq<AssistantBlock>) -> nat
    decreases blocks.len(),
{
    if blocks.len() > 0 && in_flight(blocks.last()) {
        settled_len(blocks.drop_last())
    } else {
        blocks.len()
    }
}

proof fn lemma_settled_len(blocks: Seq<AssistantBlock>)
    ensures
        settled_len(blocks) <= blocks.len(),
        settled_len(blocks) > 0 ==> !in_flight(blocks[settled_len(blocks) - 1]),
    decreases blocks.len(),
{
    if blocks.len() > 0 && in_flight(blocks.last()) {
        lemma_settled_len(blocks.drop_last());
    }
}

/// Drops the partial text, reasoning and unfinished tools of the round being retried from a
/// streaming message; finished tools of earlier rounds stay.
pub fn reset_streaming_tail(msg: &mut ChatMessage)
    ensures
        final(msg).role == old(msg).role,
        final(msg).text == old(msg).text,
        final(msg).attachments == old(msg).attachments,
        final(msg).streaming == old(msg).streaming,
        final(msg).blocks@ == if old(msg).streaming {
            old(msg).blocks@.take(settled_len(old(msg).blocks@) as int)
        } else {
            old(msg).blocks@
        },
        old(msg).streaming ==> (final(msg).blocks@.len() == 0 || !in_flight(
            final(msg).blocks@.last(),
        )),
{
    if !msg.streaming {
        return;
    }
    let ghost b0 = msg.blocks@;
    proof {
        lemma_settled_len(b0);
    }
    loop
        invariant
            msg.streaming,
            msg.role == old(msg).role,
            msg.text == old(msg).text,
            msg.attachments == old(msg).attachments,
            msg.blocks@.len() <= b0.len(),
            msg.blocks@ == b0.take(msg.blocks@.len() as int),
            settled_len(msg.blocks@) == settled_len(b0),
            settled_len(b0) <= msg.blocks@.len(),
            settled_len(b0) > 0 ==> !in_flight(b0[settled_len(b0) - 1]),
        ensures
            msg.blocks@ == b0.take(settled_len(b0) as int),
        decreases msg.blocks@.len(),
    {
        let n = msg.blocks.len();
        if n == 0 {
            break;
        }
        let drop = match &msg.blocks[n - 1] {
            AssistantBlock::Answer(_) => true,
            AssistantBlock::Thinking(_) => true,
            AssistantBlock::Tool { is_error, .. } => is_error.is_none(),
        };
        if !drop {
            assert(msg.blocks@.len() == settled_len(msg.blocks@));
            break;
        }
        let ghost before = msg.blocks@;
        msg.blocks.pop();
        assert(msg.blocks@ == before.drop_last());
        assert(msg.blocks@ =~= b0.take(msg.blocks@.len() as int));
    }
    proof {
        if msg.blocks@.len() > 0 {
            assert(msg.blocks@.last() == b0[settled_len(b0) - 1]);
        }
    }
}

// ---------------------------------------------------------------------------
// Tool blocks
// ---------------------------------------------------------------------------

/// Longest prefix of an argument summary shown on a tool pill.
pub const ARGS_SUMMARY_MAX_CHARS: usize = 800;

/// The summary kept for tool arguments serialized as `args`: its first 800 characters.
pub open spec fn args_summary_of(args: Option<Seq<char>>) -> Option<Seq<char>> {
    match args {
        Some(a) => Some(
            if a.len() > ARGS_SUMMARY_MAX_CHARS {
                a.take(ARGS_SUMMARY_MAX_CHARS as int)
            } else {
                a
            },
        ),
        None => None,
    }
}

/// `k` is the last tool block whose call id is `id`.
pub open spec fn last_tool_with_id(blocks: Seq<AssistantBlock>, id: Seq<char>, k: int) -> bool {
    &&& 0 <= k < blocks.len()
    &&& blocks[k] is Tool
    &&& blocks[k]->tool_call_id@ == id
    &&& forall|j: int|
        k < j < blocks.len() ==> !(#[trigger] blocks[j] is Tool && blocks[j]->tool_call_id@ == id)
}

/// `new` is `old` with the argument summary of the tool block at `k` replaced by `summary`
/// when one is given.
pub open spec fn summary_updated_at(
    new: Seq<AssistantBlock>,
    old: Seq<AssistantBlock>,
    k: int,
    summary: Option<Seq<char>>,
) -> bool {
    &&& new.len() == old.len()
    &&& 0 <= k < old.len()
    &&& forall|j: int| 0 <= j < old.len() && j != k ==> new[j] == old[j]
    &&& match summary {
        None => new[k] == old[k],
        Some(s) => {
            &&& new[k] is Tool
            &&& old[k] is Tool
            &&& new[k]->tool_call_id == old[k]->tool_call_id
            &&& new[k]->name == old[k]->name
            &&& opt_view(new[k]->args_summary) == Some(s)
            &&& new[k]->output == old[k]->output
            &&& new[k]->diff == old[k]->diff
            &&& new[k]->is_error == old[k]->is_error
            &&& new[k]->full_output_path == old[k]->full_output_path
            &&& new[k]->output_truncated == old[k]->output_truncated
        },
    }
}

/// `new` is `old` after a tool start event for `name` with call id `id` (empty when the
/// provider sent none) and argument summary `summary`. A repeated start for a known call id,
/// or an id-less start right after a same-named tool with no output yet, only refreshes the
/// summary; any other start appends a fresh tool block.
pub open spec fn tool_started(
    new: Seq<AssistantBlock>,
    old: Seq<AssistantBlock>,
    name: Seq<char>,
    id: Seq<char>,
    summary: Option<Seq<char>>,
) -> bool {
    if id.len() > 0 && crate::model::has_tool_with_id(old, id) {
        exists|k: int| last_tool_with_id(old, id, k) && summary_updated_at(new, old, k, summary)
    } else if id.len() == 0 && old.len() > 0 && old.last() is Tool && old.last()->name@ == name
        && old.last()->output@.len() == 0 {
        summary_updated_at(new, old, old.len() - 1, summary)
    } else {
        &&& new.len() == old.len() + 1
        &&& new.drop_last() == old
        &&& new.last() is Tool
        &&& new.last()->tool_call_id@ == id
        &&& new.last()->name@ == name
        &&& opt_view(new.last()->args_summary) == summary
        &&& new.last()->output@.len() == 0
        &&& new.last()->diff is None
        &&& new.last()->is_error is None
        &&& new.last()->full_output_path is None
        &&& !new.last()->output_truncated
    }
}

fn update_summary_at(blocks: &mut Vec<AssistantBlock>, k: usize, summary: Option<String>)
    requires
        k < old(blocks).len(),
        old(blocks)@[k as int] is Tool,
    ensures
        summary_updated_at(final(blocks)@, old(blocks)@, k as int, opt_view(summary)),
{
    if summary.is_none() {
        return;
    }
    let old_block = blocks.remove(k);
    let new_block = match old_block {
        AssistantBlock::Tool {
            tool_call_id,
            name,
            args_summary: _,
            output,
            diff,
            is_error,
            full_output_path,
            output_truncated,
        } => AssistantBlock::Tool {
            tool_call_id,
            name,
            args_summary: summary,
            output,
            diff,
            is_error,
            full_output_path,
            output_truncated,
        },
        other => other,
    };
    blocks.insert(k, new_block);
    assert forall|j: int| 0 <= j < old(blocks)@.len() && j != k implies blocks@[j] == old(
        blocks,
    )@[j] by {
        if j < k {
        } else {
        }
    }
}

/// Records a tool start event: `args` is the tool's arguments serialized as JSON, when the
/// event carried them.
pub fn start_tool_block(
    blocks: &mut Vec<AssistantBlock>,
    name: &str,
    tool_call_id: Option<&str>,
    args: Option<&str>,
)
    ensures
        tool_started(
            final(blocks)@,
            old(blocks)@,
            name@,
            match tool_call_id {
                Some(id) => id@,
                None => Seq::<char>::empty(),
            },
            args_summary_of(
                match args {
                    Some(a) => Some(a@),
                    None => None,
                },
            ),
        ),
{
    proof {
        reveal_strlit("");
    }
    let id: &str = match tool_call_id {
        Some(id) => id,
        None => "",
    };
    let args_summary: Option<String> = match args {
        Some(a) => {
            let cs = chars_of(a);
            let n = if cs.len() > ARGS_SUMMARY_MAX_CHARS {
                ARGS_SUMMARY_MAX_CHARS
            } else {
                cs.len()
            };
            let s = string_of(&slice_chars(&cs, 0, n));
            proof {
                if cs@.len() <= ARGS_SUMMARY_MAX_CHARS {
                    assert(cs@.subrange(0, n as int) =~= cs@);
                }
            }
            Some(s)
        },
        None => None,
    };
    let ghost args_view = match args {
        Some(a) => Some(a@),
        None => None,
    };
    let ghost id_view = match tool_call_id {
        Some(t) => t@,
        None => Seq::<char>::empty(),
    };
    assert(opt_view(args_summary) == args_summary_of(args_view));
    assert(id@ == id_view);
    let idc = chars_of(id);
    if !id.is_empty() {
        let mut k = blocks.len();
        while k > 0
            invariant
                k <= blocks.len(),
                blocks@ == old(blocks)@,
                idc@ == id@,
                id@.len() > 0,
                opt_view(args_summary) == args_summary_of(args_view),
                id@ == id_view,
                id_view == match tool_call_id {
                    Some(t) => t@,
                    None => Seq::<char>::empty(),
                },
                args_view == match args {
                    Some(a) => Some(a@),
                    None => None,
                },
                forall|j: int|
                    k <= j < blocks@.len() ==> !(#[trigger] blocks@[j] is Tool
                        && blocks@[j]->tool_call_id@ == id@),
            decreases k,
        {
            let hit = match &blocks[k - 1] {
                AssistantBlock::Tool { tool_call_id: tid, .. } => chars_eq(
                    &chars_of(tid.as_str()),
                    &idc,
                ),
                _ => false,
            };
            if hit {
                proof {
                    assert(last_tool_with_id(old(blocks)@, id@, k - 1));
                    assert(crate::model::has_tool_with_id(old(blocks)@, id@));
                }
                update_summary_at(blocks, k - 1, args_summary);
                assert(last_tool_with_id(old(blocks)@, id@, k - 1) && summary_updated_at(
                    blocks@,
                    old(blocks)@,
                    k - 1,
                    args_summary_of(args_view),
                ));
                return;
            }
            k = k - 1;
        }
        proof {
            if crate::model::has_tool_with_id(old(blocks)@, id@) {
                let j = choose|j: int|
                    0 <= j < old(blocks)@.len() && #[trigger] old(blocks)@[j] is Tool && old(
                        blocks,
                    )@[j]->tool_call_id@ == id@;
                assert(!(blocks@[j] is Tool && blocks@[j]->tool_call_id@ == id@));
            }
        }
    } else {
        let n = blocks.len();
        if n > 0 {
            let refresh = match &blocks[n - 1] {
                AssistantBlock::Tool { name: n0, output, .. } => chars_eq(
                    &chars_of(n0.as_str()),
                    &chars_of(name),
                ) && output.as_str().is_empty(),
                _ => false,
            };
            if refresh {
                update_summary_at(blocks, n - 1, args_summary);
                assert(id@.len() == 0);
                return;
            }
        }
    }
    blocks.push(
        AssistantBlock::Tool {
            tool_call_id: owned(id),
            name: owned(name),
            args_summary,
            output: String::new(),
            diff: None,
            is_error: None,
            full_output_path: None,
            output_truncated: false,
        },
    );
    assert(blocks@.drop_last() =~= old(blocks)@);
}

/// Tool block `b` is the one a finished run with call id `tid` (empty: any tool) belongs to.
pub open spec fn run_matches(b: AssistantBlock, tid: Seq<char>) -> bool {
    b is Tool && (tid.len() == 0 || b->tool_call_id@ == tid)
}

/// `new` is `old` after a tool run finished: the last tool block that the run matches gets
/// its diff, error flag and full-output path; without such a block nothing changes.
pub open spec fn tool_run_finalized(
    new: Seq<AssistantBlock>,
    old: Seq<AssistantBlock>,
    tid: Seq<char>,
    is_error: Option<bool>,
    full_output_path: Option<String>,
    diff: Option<String>,
) -> bool {
    if exists|k: int| 0 <= k < old.len() && run_matches(#[trigger] old[k], tid) {
        exists|k: int|
            {
                &&& 0 <= k < old.len()
                &&& run_matches(old[k], tid)
                &&& forall|j: int| k < j < old.len() ==> !run_matches(#[trigger] old[j], tid)
                &&& new.len() == old.len()
                &&& forall|j: int| 0 <= j < old.len() && j != k ==> new[j] == old[j]
                &&& new[k] is Tool
                &&& new[k]->tool_call_id == old[k]->tool_call_id
                &&& new[k]->name == old[k]->name
                &&& new[k]->args_summary == old[k]->args_summary
                &&& new[k]->output == old[k]->output
                &&& new[k]->output_truncated == old[k]->output_truncated
                &&& new[k]->diff == diff
                &&& new[k]->is_error == is_error
                &&& new[k]->full_output_path == full_output_path
            }
    } else {
        new == old
    }
}

/// Records the end of a tool run on its tool block.
pub fn finalize_tool_run(
    blocks: &mut Vec<AssistantBlock>,
    tool_call_id: Option<&str>,
    is_error: Option<bool>,
    full_output_path: Option<String>,
    diff: Option<String>,
)
    ensures
        tool_run_finalized(
            final(blocks)@,
            old(blocks)@,
            match tool_call_id {
                Some(id) => id@,
                None => Seq::<char>::empty(),
            },
            is_error,
            full_output_path,
            diff,
        ),
{
    proof {
        reveal_strlit("");
    }
    let tid: &str = match tool_call_id {
        Some(id) => id,
        None => "",
    };
    let tidc = chars_of(tid);
    let any = tid.is_empty();
    let mut k = blocks.len();
    while k > 0
        invariant
            k <= blocks.len(),
            blocks@ == old(blocks)@,
            tidc@ == tid@,
            any == (tid@.len() == 0),
            tid@ == match tool_call_id {
                Some(id) => id@,
                None => Seq::<char>::empty(),
            },
            forall|j: int| k <= j < blocks@.len() ==> !run_matches(#[trigger] blocks@[j], tid@),
        decreases k,
    {
        let hit = match &blocks[k - 1] {
            AssistantBlock::Tool { tool_call_id: id, .. } => any || chars_eq(
                &chars_of(id.as_str()),
                &tidc,
            ),
            _ => false,
        };
        if hit {
            let ghost kk = (k - 1) as int;
            assert(run_matches(old(blocks)@[kk], tid@));
            finalize_at(blocks, k - 1, is_error, full_output_path, diff);
            assert(run_matches(old(blocks)@[kk], tid@) && forall|j: int|
                kk < j < old(blocks)@.len() ==> !run_matches(#[trigger] old(blocks)@[j], tid@));
            return;
        }
        k = k - 1;
    }
}

fn finalize_at(
    blocks: &mut Vec<AssistantBlock>,
    i: usize,
    is_error: Option<bool>,
    full_output_path: Option<String>,
    diff: Option<String>,
)
    requires
        i < old(blocks).len(),
        old(blocks)@[i as int] is Tool,
    ensures
        final(blocks)@.len() == old(blocks)@.len(),
        forall|j: int| 0 <= j < old(blocks)@.len() && j != i ==> final(blocks)@[j] == old(blocks)@[j],
        final(blocks)@[i as int] is Tool,
        final(blocks)@[i as int]->tool_call_id == old(blocks)@[i as int]->tool_call_id,
        final(blocks)@[i as int]->name == old(blocks)@[i as int]->name,
        final(blocks)@[i as int]->args_summary == old(blocks)@[i as int]->args_summary,
        final(blocks)@[i as int]->output == old(blocks)@[i as int]->output,
        final(blocks)@[i as int]->output_truncated == old(blocks)@[i as int]->output_truncated,
        final(blocks)@[i as int]->diff == diff,
        final(blocks)@[i as int]->is_error == is_error,
        final(blocks)@[i as int]->full_output_path == full_output_path,
{
    let old_block = blocks.remove(i);
    let new_block = match old_block {
        AssistantBlock::Tool {
            tool_call_id,
            name,
            args_summary,
            output,
            diff: _,
            is_error: _,
            full_output_path: _,
            output_truncated,
        } => AssistantBlock::Tool {
            tool_call_id,
            name,
            args_summary,
            output,
            diff,
            is_error,
            full_output_path,
            output_truncated,
        },
        other => other,
    };
    blocks.insert(i, new_block);
    assert forall|j: int| 0 <= j < old(blocks)@.len() && j != i implies blocks@[j] == old(
        blocks,
    )@[j] by {
        if j < i {
        } else {
        }
    }
}

// ---------------------------------------------------------------------------
// Sending a prompt
// ---------------------------------------------------------------------------

/// The title a session gets when the prompt `text` (already trimmed) is its first: derived
/// from the text, or "Image" for a prompt of images only. A session that has messages or a
/// file keeps its title.
pub open spec fn first_prompt_title(session: Session, text: Seq<char>) -> Seq<char> {
    if session.messages@.len() == 0 && session.session_file is None {
        if text.len() > 0 {
            session_title(text)
        } else {
            "Image"@
        }
    } else {
        session.title@
    }
}

/// Names a fresh, unsaved session after its first prompt.
pub fn title_session_for_prompt(session: &mut Session, text: &str)
    ensures
        final(session).title@ == first_prompt_title(*old(session), text@),
        final(session).messages == old(session).messages,
        final(session).session_file == old(session).session_file,
        final(session).messages_loaded == old(session).messages_loaded,
{
    if session.messages.len() == 0 && session.session_file.is_none() {
        session.title = if !text.is_empty() {
            make_session_title(text)
        } else {
            owned("Image")
        };
    }
}

/// Adds the user's prompt and the streaming assistant reply it awaits to a session.
pub fn materialize_prompt(session: &mut Session, text: &str, attachments: Vec<UserAttachment>)
    ensures
        final(session).title == old(session).title,
        final(session).session_file == old(session).session_file,
        final(session).messages_loaded,
        final(session).messages@.len() == old(session).messages@.len() + 2,
        final(session).messages@.take(old(session).messages@.len() as int) == old(
            session,
        ).messages@,
        ({
            let u = final(session).messages@[old(session).messages@.len() as int];
            &&& u.role == MsgRole::User
            &&& u.text@ == text@
            &&& u.attachments == attachments
            &&& u.blocks@.len() == 0
            &&& !u.streaming
        }),
        ({
            let a = final(session).messages@.last();
            &&& a.role == MsgRole::Assistant
            &&& a.text@.len() == 0
            &&& a.attachments@.len() == 0
            &&& a.blocks@.len() == 0
            &&& a.streaming
        }),
{
    session.messages_loaded = true;
    session.messages.push(
        ChatMessage {
            role: MsgRole::User,
            text: owned(text),
            attachments,
            blocks: Vec::new(),
            streaming: false,
        },
    );
    session.messages.push(
        ChatMessage {
            role: MsgRole::Assistant,
            text: String::new(),
            attachments: Vec::new(),
            blocks: Vec::new(),
            streaming: true,
        },
    );
    assert(session.messages@.take(old(session).messages@.len() as int) =~= old(
        session,
    ).messages@);
}

} // verus!
