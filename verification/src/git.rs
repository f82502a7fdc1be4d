//! The source-control panel's state and the decisions taken around repository operations:
//! how file statuses are listed, which lines changed, how diffs are cut, which credential is
//! offered to a remote and how failures are explained.

use std::collections::HashMap;
use std::sync::mpsc::{Receiver, Sender};

use vstd::prelude::*;

use crate::composer::strings_view;
use crate::text::{
    lemma_lex_total, lemma_lex_trans, lex_le, lex_le_exec,
};
use crate::text::{
    chars_of, contains_exec, contains_seq, is_blank, is_blank_exec, owned, push_chars, push_str,
    slice_chars, starts_with, starts_with_exec, string_of, trim, trim_chars,
};

verus! {

/// Longest diff text, in characters, shown in the panel.
pub const MAX_DIFF_CHARS: usize = 200_000;

/// One changed file in the status list.
#[derive(Debug, Clone)]
pub struct GitEntry {
    pub path: String,
    /// Two-column status code as `git status --short` prints it.
    pub code: String,
    pub status: char,
    pub conflict: bool,
}

/// One commit of the log.
#[derive(Debug, Clone)]
pub struct GitCommit {
    pub hash: String,
    pub date: String,
    pub author: String,
    pub message: String,
}

/// How a line of the working tree differs from `HEAD`.
#[derive(Debug, Clone, Copy, PartialEq, Eq, Structural)]
pub enum GitLineKind {
    Added,
    Modified,
}

/// A changed line of a file (zero-based).
#[derive(Debug, Clone, Copy, PartialEq, Eq, Structural)]
pub struct GitLineChange {
    pub line: usize,
    pub kind: GitLineKind,
}

/// A snapshot of the repository for the panel.
#[derive(Debug, Clone)]
pub struct GitState {
    pub repo: bool,
    pub branch: String,
    pub branches: Vec<String>,
    pub ahead: usize,
    pub behind: usize,
    pub staged: Vec<GitEntry>,
    pub unstaged: Vec<GitEntry>,
    pub line_changes: HashMap<String, Vec<GitLineChange>>,
    pub log: Vec<GitCommit>,
    pub diff: Option<(String, String)>,
    pub error: Option<String>,
    pub busy: bool,
    pub last_op: Option<String>,
    pub current_diff_path: Option<String>,
    pub current_diff_staged: Option<bool>,
    pub commit_diff: Option<String>,
}

/// Nothing of a repository is listed in `s`.
pub open spec fn nothing_listed(s: GitState) -> bool {
    &&& !s.repo
    &&& s.branch@.len() == 0
    &&& s.branches@.len() == 0
    &&& s.ahead == 0
    &&& s.behind == 0
    &&& s.staged@.len() == 0
    &&& s.unstaged@.len() == 0
    &&& s.line_changes@.len() == 0
    &&& s.log@.len() == 0
    &&& s.diff is None
    &&& s.current_diff_path is None
    &&& s.current_diff_staged is None
    &&& s.commit_diff is None
}

/// The state of a folder that is not a repository: nothing listed, no operation running.
pub open spec fn empty_state(s: GitState) -> bool {
    &&& nothing_listed(s)
    &&& !s.busy
    &&& s.last_op is None
}

impl Default for GitState {
    fn default() -> (res: GitState)
        ensures
            empty_state(res),
            res.error is None,
    {
        GitState {
            repo: false,
            branch: String::new(),
            branches: Vec::new(),
            ahead: 0,
            behind: 0,
            staged: Vec::new(),
            unstaged: Vec::new(),
            line_changes: HashMap::new(),
            log: Vec::new(),
            diff: None,
            error: None,
            busy: false,
            last_op: None,
            current_diff_path: None,
            current_diff_staged: None,
            commit_diff: None,
        }
    }
}

/// The state shown for a folder that is not a (usable) repository.
pub fn non_repo(error: Option<String>) -> (res: GitState)
    ensures
        empty_state(res),
        res.error == error,
{
    let mut s = GitState::default();
    s.error = error;
    s
}

/// What the repository worker read of a repository: branches, status, changed lines and
/// log.
pub struct RepoListing {
    pub branch: String,
    pub branches: Vec<String>,
    pub ahead: usize,
    pub behind: usize,
    pub staged: Vec<GitEntry>,
    pub unstaged: Vec<GitEntry>,
    pub line_changes: HashMap<String, Vec<GitLineChange>>,
    pub log: Vec<GitCommit>,
}

/// The diff a snapshot shows, by value: a diff handed in ready-made wins; else the diff of
/// the file the panel had open (path, whether staged, its text), titled for that file.
pub open spec fn snapshot_diff(
    preset: Option<(String, String)>,
    open_diff: Option<(String, bool, String)>,
) -> Option<(Seq<char>, Seq<char>)> {
    match preset {
        Some((t, d)) => Some((t@, d@)),
        None => match open_diff {
            Some((p, staged, d)) => Some((diff_title(p@, staged), d@)),
            None => None,
        },
    }
}

/// The value of an optional diff.
pub open spec fn diff_view(d: Option<(String, String)>) -> Option<(Seq<char>, Seq<char>)> {
    match d {
        Some((t, x)) => Some((t@, x@)),
        None => None,
    }
}

/// The panel state of a repository after an operation: what was read of it, the diff to
/// show, and the operation's error; not busy.
pub fn repo_snapshot(
    listing: RepoListing,
    open_diff: Option<(String, bool, String)>,
    preset: Option<(String, String)>,
    error: Option<String>,
) -> (res: GitState)
    ensures
        res.repo,
        !res.busy,
        res.last_op is None,
        res.commit_diff is None,
        res.error == error,
        res.branch == listing.branch,
        res.branches == listing.branches,
        res.ahead == listing.ahead,
        res.behind == listing.behind,
        res.staged == listing.staged,
        res.unstaged == listing.unstaged,
        res.line_changes == listing.line_changes,
        res.log == listing.log,
        diff_view(res.diff) == snapshot_diff(preset, open_diff),
        opt_seq(res.current_diff_path) == match open_diff {
            Some((p, _, _)) => Some(p@),
            None => None,
        },
        res.current_diff_staged == match open_diff {
            Some((_, staged, _)) => Some(staged),
            None => None,
        },
{
    let (diff, current_diff_path, current_diff_staged) = match open_diff {
        Some((p, staged, text)) => {
            let shown = match preset {
                Some(x) => Some(x),
                None => Some((diff_title_for(p.as_str(), staged), text)),
            };
            (shown, Some(p), Some(staged))
        },
        None => (preset, None, None),
    };
    GitState {
        repo: true,
        branch: listing.branch,
        branches: listing.branches,
        ahead: listing.ahead,
        behind: listing.behind,
        staged: listing.staged,
        unstaged: listing.unstaged,
        line_changes: listing.line_changes,
        log: listing.log,
        diff,
        error,
        busy: false,
        last_op: None,
        current_diff_path,
        current_diff_staged,
        commit_diff: None,
    }
}

/// The state sent while an operation runs: busy, with the operation's label.
pub fn busy_state(label: &str) -> (res: GitState)
    ensures
        nothing_listed(res),
        res.error is None,
        res.busy,
        res.last_op matches Some(l) && l@ == label@,
{
    let mut s = GitState::default();
    s.busy = true;
    s.last_op = Some(owned(label));
    s
}

/// A request to the repository worker.
#[derive(Debug, Clone)]
pub enum GitOp {
    Refresh,
    Stage(Vec<String>),
    Unstage(Vec<String>),
    Discard(Vec<String>),
    Commit(String),
    Checkout(String),
    NewBranch(String),
    ShowCommit(String),
    ShowDiff { path: String, staged: bool },
    ClearDiff,
    Pull,
    Push,
    Fetch,
    SetCwd(String),
    CollectCommitDiff,
}

/// The channels between the panel and the repository worker.
pub struct GitChannels {
    pub tx: Sender<GitOp>,
    pub rx: Receiver<GitState>,
}

/// The label shown while an operation runs.
pub open spec fn op_label(op: GitOp) -> Seq<char> {
    match op {
        GitOp::Refresh => "refresh"@,
        GitOp::Stage(_) => "stage"@,
        GitOp::Unstage(_) => "unstage"@,
        GitOp::Discard(_) => "discard"@,
        GitOp::Commit(_) => "commit"@,
        GitOp::Checkout(_) => "checkout"@,
        GitOp::NewBranch(_) => "new branch"@,
        GitOp::ShowCommit(_) => "show"@,
        GitOp::ShowDiff { .. } => "diff"@,
        GitOp::ClearDiff => "diff"@,
        GitOp::CollectCommitDiff => "diff"@,
        GitOp::Pull => "pull"@,
        GitOp::Push => "push"@,
        GitOp::Fetch => "fetch"@,
        GitOp::SetCwd(_) => "switch"@,
    }
}

/// The label of an operation.
pub fn label_op(op: &GitOp) -> (res: &'static str)
    ensures
        res@ == op_label(*op),
{
    match op {
        GitOp::Refresh => "refresh",
        GitOp::Stage(_) => "stage",
        GitOp::Unstage(_) => "unstage",
        GitOp::Discard(_) => "discard",
        GitOp::Commit(_) => "commit",
        GitOp::Checkout(_) => "checkout",
        GitOp::NewBranch(_) => "new branch",
        GitOp::ShowCommit(_) => "show",
        GitOp::ShowDiff { .. } => "diff",
        GitOp::ClearDiff => "diff",
        GitOp::CollectCommitDiff => "diff",
        GitOp::Pull => "pull",
        GitOp::Push => "push",
        GitOp::Fetch => "fetch",
        GitOp::SetCwd(_) => "switch",
    }
}

// ---------------------------------------------------------------------------
// File statuses
// ---------------------------------------------------------------------------

/// The status flags of one file, as the repository reports them.
#[derive(Debug, Clone, Copy)]
pub struct FileStatus {
    pub index_new: bool,
    pub index_modified: bool,
    pub index_deleted: bool,
    pub index_renamed: bool,
    pub index_typechange: bool,
    pub wt_new: bool,
    pub wt_modified: bool,
    pub wt_deleted: bool,
    pub wt_renamed: bool,
    pub wt_typechange: bool,
    pub conflicted: bool,
}

/// The staged status letter of a file, if it has staged changes.
pub open spec fn index_letter(st: FileStatus) -> Option<char> {
    if st.index_new {
        Some('A')
    } else if st.index_modified {
        Some('M')
    } else if st.index_deleted {
        Some('D')
    } else if st.index_renamed {
        Some('R')
    } else if st.index_typechange {
        Some('T')
    } else {
        None
    }
}

/// The unstaged status letter of a file, if it has unstaged changes (`?` for untracked, `U`
/// for an unresolved conflict).
pub open spec fn worktree_letter(st: FileStatus) -> Option<char> {
    if st.wt_new {
        Some('?')
    } else if st.wt_modified {
        Some('M')
    } else if st.wt_deleted {
        Some('D')
    } else if st.wt_renamed {
        Some('R')
    } else if st.wt_typechange {
        Some('T')
    } else if st.conflicted {
        Some('U')
    } else {
        None
    }
}

fn index_status(st: &FileStatus) -> (res: Option<char>)
    ensures
        res == index_letter(*st),
{
    if st.index_new {
        Some('A')
    } else if st.index_modified {
        Some('M')
    } else if st.index_deleted {
        Some('D')
    } else if st.index_renamed {
        Some('R')
    } else if st.index_typechange {
        Some('T')
    } else {
        None
    }
}

fn worktree_status(st: &FileStatus) -> (res: Option<char>)
    ensures
        res == worktree_letter(*st),
{
    if st.wt_new {
        Some('?')
    } else if st.wt_modified {
        Some('M')
    } else if st.wt_deleted {
        Some('D')
    } else if st.wt_renamed {
        Some('R')
    } else if st.wt_typechange {
        Some('T')
    } else if st.conflicted {
        Some('U')
    } else {
        None
    }
}

/// The view of a status entry: path, code, letter and conflict flag.
pub open spec fn entry_view(e: GitEntry) -> (Seq<char>, Seq<char>, char, bool) {
    (e.path@, e.code@, e.status, e.conflict)
}

/// The views of status entries.
pub open spec fn entries_view(v: Seq<GitEntry>) -> Seq<(Seq<char>, Seq<char>, char, bool)> {
    v.map_values(|e: GitEntry| entry_view(e))
}

/// The staged entries of the listed files, in order: one for each file with a staged letter,
/// coded `X ` (letter, space).
pub open spec fn staged_entries(files: Seq<(Seq<char>, FileStatus)>) -> Seq<
    (Seq<char>, Seq<char>, char, bool),
>
    decreases files.len(),
{
    if files.len() == 0 {
        Seq::empty()
    } else {
        let r = staged_entries(files.drop_last());
        let (p, st) = files.last();
        match index_letter(st) {
            Some(c) => r.push((p, seq![c, ' '], c, st.conflicted)),
            None => r,
        }
    }
}

/// The unstaged entries of the listed files, in order: one for each file with an unstaged
/// letter, coded ` Y` (space, letter).
pub open spec fn unstaged_entries(files: Seq<(Seq<char>, FileStatus)>) -> Seq<
    (Seq<char>, Seq<char>, char, bool),
>
    decreases files.len(),
{
    if files.len() == 0 {
        Seq::empty()
    } else {
        let r = unstaged_entries(files.drop_last());
        let (p, st) = files.last();
        match worktree_letter(st) {
            Some(c) => r.push((p, seq![' ', c], c, st.conflicted)),
            None => r,
        }
    }
}

/// Law: the panel lists files one by one: the entries of a list with one more file are
/// those of the list followed by the new file's own entries.
pub proof fn law_status_entries_are_per_file(files: Seq<(Seq<char>, FileStatus)>, p: Seq<char>, st: FileStatus)
    ensures
        staged_entries(files.push((p, st))) == staged_entries(files) + staged_entries(seq![(p, st)]),
        unstaged_entries(files.push((p, st))) == unstaged_entries(files) + unstaged_entries(
            seq![(p, st)],
        ),
{
    assert(files.push((p, st)).drop_last() =~= files);
    assert(seq![(p, st)].drop_last() =~= Seq::<(Seq<char>, FileStatus)>::empty());
    assert(staged_entries(Seq::<(Seq<char>, FileStatus)>::empty()) =~= Seq::empty());
    assert(unstaged_entries(Seq::<(Seq<char>, FileStatus)>::empty()) =~= Seq::empty());
    assert(staged_entries(files) + Seq::empty() =~= staged_entries(files));
    assert(unstaged_entries(files) + Seq::empty() =~= unstaged_entries(files));
}

/// Law: what one file shows in the unstaged list. Each worktree state has its own letter,
/// coded after a space: untracked `?`, modified `M`, deleted `D`, renamed `R`, type
/// changed `T`; an unresolved conflict with no other worktree change shows `U`; a clean
/// worktree shows nothing. When several flags are set, the first in that order wins.
pub proof fn law_worktree_letters(p: Seq<char>, st: FileStatus)
    ensures
        st.wt_new ==> unstaged_entries(seq![(p, st)]) == seq![(p, seq![' ', '?'], '?', st.conflicted)],
        !st.wt_new && st.wt_modified ==> unstaged_entries(seq![(p, st)]) == seq![
            (p, seq![' ', 'M'], 'M', st.conflicted),
        ],
        !st.wt_new && !st.wt_modified && st.wt_deleted ==> unstaged_entries(seq![(p, st)]) == seq![
            (p, seq![' ', 'D'], 'D', st.conflicted),
        ],
        !st.wt_new && !st.wt_modified && !st.wt_deleted && st.wt_renamed ==> unstaged_entries(
            seq![(p, st)],
        ) == seq![(p, seq![' ', 'R'], 'R', st.conflicted)],
        !st.wt_new && !st.wt_modified && !st.wt_deleted && !st.wt_renamed && st.wt_typechange
            ==> unstaged_entries(seq![(p, st)]) == seq![(p, seq![' ', 'T'], 'T', st.conflicted)],
        !st.wt_new && !st.wt_modified && !st.wt_deleted && !st.wt_renamed && !st.wt_typechange
            && st.conflicted ==> unstaged_entries(seq![(p, st)]) == seq![
            (p, seq![' ', 'U'], 'U', true),
        ],
        !st.wt_new && !st.wt_modified && !st.wt_deleted && !st.wt_renamed && !st.wt_typechange
            && !st.conflicted ==> unstaged_entries(seq![(p, st)]).len() == 0,
{
    let one = seq![(p, st)];
    assert(one.drop_last() =~= Seq::<(Seq<char>, FileStatus)>::empty());
    assert(one.last() == (p, st));
    assert(unstaged_entries(one.drop_last()) =~= Seq::empty());
    assert(staged_entries(one.drop_last()) =~= Seq::empty());
    assert(Seq::<(Seq<char>, Seq<char>, char, bool)>::empty().push((p, seq![' ', '?'], '?', st.conflicted))
        =~= seq![(p, seq![' ', '?'], '?', st.conflicted)]);
    assert(Seq::<(Seq<char>, Seq<char>, char, bool)>::empty().push((p, seq!['A', ' '], 'A', st.conflicted))
        =~= seq![(p, seq!['A', ' '], 'A', st.conflicted)]);
}

/// Law: what one file shows in the staged list: added `A`, modified `M`, deleted `D`,
/// renamed `R`, type changed `T`, coded before a space; nothing when nothing is staged.
/// When several flags are set, the first in that order wins.
pub proof fn law_index_letters(p: Seq<char>, st: FileStatus)
    ensures
        st.index_new ==> staged_entries(seq![(p, st)]) == seq![(p, seq!['A', ' '], 'A', st.conflicted)],
        !st.index_new && st.index_modified ==> staged_entries(seq![(p, st)]) == seq![
            (p, seq!['M', ' '], 'M', st.conflicted),
        ],
        !st.index_new && !st.index_modified && st.index_deleted ==> staged_entries(seq![(p, st)])
            == seq![(p, seq!['D', ' '], 'D', st.conflicted)],
        !st.index_new && !st.index_modified && !st.index_deleted && st.index_renamed
            ==> staged_entries(seq![(p, st)]) == seq![(p, seq!['R', ' '], 'R', st.conflicted)],
        !st.index_new && !st.index_modified && !st.index_deleted && !st.index_renamed
            && st.index_typechange ==> staged_entries(seq![(p, st)]) == seq![
            (p, seq!['T', ' '], 'T', st.conflicted),
        ],
        !st.index_new && !st.index_modified && !st.index_deleted && !st.index_renamed
            && !st.index_typechange ==> staged_entries(seq![(p, st)]).len() == 0,
{
    let one = seq![(p, st)];
    assert(one.drop_last() =~= Seq::<(Seq<char>, FileStatus)>::empty());
    assert(one.last() == (p, st));
    assert(unstaged_entries(one.drop_last()) =~= Seq::empty());
    assert(staged_entries(one.drop_last()) =~= Seq::empty());
    assert(Seq::<(Seq<char>, Seq<char>, char, bool)>::empty().push((p, seq![' ', '?'], '?', st.conflicted))
        =~= seq![(p, seq![' ', '?'], '?', st.conflicted)]);
    assert(Seq::<(Seq<char>, Seq<char>, char, bool)>::empty().push((p, seq!['A', ' '], 'A', st.conflicted))
        =~= seq![(p, seq!['A', ' '], 'A', st.conflicted)]);
}

/// One file reported by a status query.
pub struct StatusItem {
    pub path: String,
    pub status: FileStatus,
}

/// The views of status items.
pub open spec fn items_view(v: Seq<StatusItem>) -> Seq<(Seq<char>, FileStatus)> {
    v.map_values(|i: StatusItem| (i.path@, i.status))
}

/// Splits the reported files into the staged and unstaged lists of the panel.
pub fn entries_from_statuses(files: &[StatusItem]) -> (res: (Vec<GitEntry>, Vec<GitEntry>))
    ensures
        entries_view(res.0@) == staged_entries(items_view(files@)),
        entries_view(res.1@) == unstaged_entries(items_view(files@)),
{
    let ghost fv = items_view(files@);
    let mut staged: Vec<GitEntry> = Vec::new();
    let mut unstaged: Vec<GitEntry> = Vec::new();
    let mut i: usize = 0;
    while i < files.len()
        invariant
            i <= files.len(),
            fv == items_view(files@),
            entries_view(staged@) == staged_entries(fv.take(i as int)),
            entries_view(unstaged@) == unstaged_entries(fv.take(i as int)),
        decreases files.len() - i,
    {
        let item = &files[i];
        proof {
            let t = fv.take(i + 1);
            assert(t.drop_last() == fv.take(i as int));
            assert(t.last() == (item.path@, item.status));
        }
        let conflict = item.status.conflicted;
        match index_status(&item.status) {
            Some(c) => {
                let ghost before = entries_view(staged@);
                let mut code = String::new();
                crate::text::push_char(&mut code, c);
                crate::text::push_char(&mut code, ' ');
                assert(code@ =~= seq![c, ' ']);
                staged.push(
                    GitEntry { path: owned(item.path.as_str()), code, status: c, conflict },
                );
                assert(entries_view(staged@) =~= before.push(
                    (item.path@, seq![c, ' '], c, conflict),
                ));
            },
            None => {},
        }
        match worktree_status(&item.status) {
            Some(c) => {
                let ghost before = entries_view(unstaged@);
                let mut code = String::new();
                crate::text::push_char(&mut code, ' ');
                crate::text::push_char(&mut code, c);
                assert(code@ =~= seq![' ', c]);
                unstaged.push(
                    GitEntry { path: owned(item.path.as_str()), code, status: c, conflict },
                );
                assert(entries_view(unstaged@) =~= before.push(
                    (item.path@, seq![' ', c], c, conflict),
                ));
            },
            None => {},
        }
        i = i + 1;
    }
    assert(fv.take(files.len() as int) == fv);
    (staged, unstaged)
}

// ---------------------------------------------------------------------------
// Changed lines
// ---------------------------------------------------------------------------

/// The changed lines of a diff hunk that replaced `old_lines` lines with the `new_lines`
/// lines starting at line `new_start` (one-based): all added when the hunk removed nothing,
/// else all modified.
pub open spec fn hunk_lines(old_lines: u32, new_start: u32, new_lines: u32) -> Seq<GitLineChange> {
    let end = if new_start + new_lines > u32::MAX {
        u32::MAX as int
    } else {
        new_start + new_lines
    };
    let kind = if old_lines == 0 {
        GitLineKind::Added
    } else {
        GitLineKind::Modified
    };
    Seq::new(
        (if end > new_start {
            end - new_start
        } else {
            0
        }) as nat,
        |k: int|
            GitLineChange {
                line: (if new_start + k >= 1 {
                    new_start + k - 1
                } else {
                    0
                }) as usize,
                kind,
            },
    )
}

/// The changed lines of one diff hunk.
pub fn hunk_line_changes(old_lines: u32, new_start: u32, new_lines: u32) -> (res: Vec<
    GitLineChange,
>)
    ensures
        res@ == hunk_lines(old_lines, new_start, new_lines),
{
    let kind = if old_lines == 0 {
        GitLineKind::Added
    } else {
        GitLineKind::Modified
    };
    let end = new_start.saturating_add(new_lines);
    let mut out: Vec<GitLineChange> = Vec::new();
    let mut n = new_start;
    while n < end
        invariant
            new_start <= n <= end || (n == new_start && end <= new_start),
            end == (if new_start + new_lines > u32::MAX {
                u32::MAX as int
            } else {
                new_start + new_lines
            }),
            out@.len() == n - new_start,
            forall|k: int|
                0 <= k < out@.len() ==> #[trigger] out@[k] == (GitLineChange {
                    line: (if new_start + k >= 1 {
                        new_start + k - 1
                    } else {
                        0
                    }) as usize,
                    kind,
                }),
        decreases end - n,
    {
        let line: usize = if n >= 1 {
            (n - 1) as usize
        } else {
            0
        };
        out.push(GitLineChange { line, kind });
        n = n + 1;
    }
    assert(out@ =~= hunk_lines(old_lines, new_start, new_lines));
    out
}

/// The number of line breaks in `s`.
pub open spec fn newline_count(s: Seq<char>) -> nat
    decreases s.len(),
{
    if s.len() == 0 {
        0
    } else {
        newline_count(s.drop_last()) + if s.last() == '\n' {
            1nat
        } else {
            0nat
        }
    }
}

/// Every line of a new, untracked file with contents `content` is added: one entry per
/// `\n`-separated piece.
pub open spec fn untracked_lines(content: Seq<char>) -> Seq<GitLineChange> {
    Seq::new(
        newline_count(content) + 1,
        |k: int| GitLineChange { line: k as usize, kind: GitLineKind::Added },
    )
}

/// The changed lines of an untracked file.
pub fn untracked_line_changes(content: &str) -> (res: Vec<GitLineChange>)
    requires
        content@.len() < usize::MAX,
    ensures
        res@ == untracked_lines(content@),
{
    let cs = chars_of(content);
    let mut pieces: usize = 1;
    let mut i: usize = 0;
    while i < cs.len()
        invariant
            i <= cs.len(),
            cs@ == content@,
            cs@.len() < usize::MAX,
            pieces == newline_count(cs@.take(i as int)) + 1,
            pieces <= i + 1,
        decreases cs.len() - i,
    {
        proof {
            let t = cs@.take(i + 1);
            assert(t.drop_last() == cs@.take(i as int));
        }
        if cs[i] == '\n' {
            pieces = pieces + 1;
        }
        i = i + 1;
    }
    assert(cs@.take(cs.len() as int) == cs@);
    let mut out: Vec<GitLineChange> = Vec::new();
    let mut k: usize = 0;
    while k < pieces
        invariant
            k <= pieces,
            out@.len() == k,
            forall|j: int|
                0 <= j < k ==> #[trigger] out@[j] == (GitLineChange {
                    line: j as usize,
                    kind: GitLineKind::Added,
                }),
        decreases pieces - k,
    {
        out.push(GitLineChange { line: k, kind: GitLineKind::Added });
        k = k + 1;
    }
    assert(out@ =~= untracked_lines(content@));
    out
}

// ---------------------------------------------------------------------------
// Diff text
// ---------------------------------------------------------------------------

/// `s` cut to `max` characters, with a truncation note, when longer.
pub open spec fn truncated(s: Seq<char>, max: nat) -> Seq<char> {
    if s.len() <= max {
        s
    } else {
        s.take(max as int) + "\n\u{2026} [truncated]\n"@
    }
}

/// Cuts a diff text to `max` characters.
pub fn truncate(s: &str, max: usize) -> (res: String)
    ensures
        res@ == truncated(s@, max as nat),
{
    let cs = chars_of(s);
    if cs.len() <= max {
        owned(s)
    } else {
        let mut out = string_of(&slice_chars(&cs, 0, max));
        push_str(&mut out, "\n\u{2026} [truncated]\n");
        assert(cs@.subrange(0, max as int) =~= cs@.take(max as int));
        out
    }
}

/// The marker byte a patch line starts with: its origin, for an added, removed or context
/// line; none for the other lines git reports (file and hunk headers already carry their
/// text).
pub open spec fn origin_marker(origin: char) -> Seq<u8> {
    if origin == '+' {
        seq![43u8]
    } else if origin == '-' {
        seq![45u8]
    } else if origin == ' ' {
        seq![32u8]
    } else {
        Seq::empty()
    }
}

/// Appends one line of a patch to `out`: its origin marker, then its content.
pub fn push_patch_line(out: &mut Vec<u8>, origin: char, content: &[u8])
    ensures
        final(out)@ == old(out)@ + origin_marker(origin) + content@,
{
    let ghost start = out@;
    if origin == '+' {
        out.push(43u8);
    } else if origin == '-' {
        out.push(45u8);
    } else if origin == ' ' {
        out.push(32u8);
    }
    let ghost mid = out@;
    assert(mid == start + origin_marker(origin));
    let mut i: usize = 0;
    while i < content.len()
        invariant
            i <= content@.len(),
            out@ == mid + content@.take(i as int),
        decreases content.len() - i,
    {
        out.push(content[i]);
        assert(content@.take(i + 1) =~= content@.take(i as int).push(content@[i as int]));
        i = i + 1;
    }
    assert(content@.take(content@.len() as int) =~= content@);
}

/// The title of the diff shown for `path`.
pub open spec fn diff_title(path: Seq<char>, staged: bool) -> Seq<char> {
    if staged {
        "Staged: "@ + path
    } else {
        path
    }
}

/// The title of a file diff.
pub fn diff_title_for(path: &str, staged: bool) -> (res: String)
    ensures
        res@ == diff_title(path@, staged),
{
    if staged {
        let mut t = owned("Staged: ");
        push_str(&mut t, path);
        t
    } else {
        owned(path)
    }
}

/// The diff offered for a commit message: the staged changes, or the unstaged ones when
/// nothing is staged; nothing when both are blank.
pub open spec fn commit_diff_choice(staged: Seq<char>, unstaged: Option<Seq<char>>) -> Option<
    Seq<char>,
> {
    let combined = if !is_blank(staged) {
        staged
    } else {
        match unstaged {
            Some(u) => u,
            None => Seq::empty(),
        }
    };
    if is_blank(combined) {
        None
    } else {
        Some(combined)
    }
}

/// Whether the unstaged diff is needed to describe a commit (nothing staged).
pub fn commit_needs_unstaged_diff(staged: &str) -> (res: bool)
    ensures
        res == is_blank(staged@),
{
    is_blank_exec(&chars_of(staged))
}

/// Picks the diff that describes the next commit.
pub fn commit_diff_text(staged: String, unstaged: Option<String>) -> (res: Option<String>)
    ensures
        opt_seq(res) == commit_diff_choice(staged@, opt_seq(unstaged)),
{
    let combined = if !is_blank_exec(&chars_of(staged.as_str())) {
        staged
    } else {
        match unstaged {
            Some(u) => u,
            None => String::new(),
        }
    };
    if is_blank_exec(&chars_of(combined.as_str())) {
        None
    } else {
        Some(combined)
    }
}

/// The view of an optional string.
pub open spec fn opt_seq(o: Option<String>) -> Option<Seq<char>> {
    match o {
        Some(s) => Some(s@),
        None => None,
    }
}

// ---------------------------------------------------------------------------
// Commits and branches
// ---------------------------------------------------------------------------

/// The message a commit is made with: the trimmed text, refused when blank.
pub fn commit_message(message: &str) -> (res: Result<String, String>)
    ensures
        match res {
            Ok(m) => trim(message@).len() > 0 && m@ == trim(message@),
            Err(e) => trim(message@).len() == 0 && e@ == "Commit message is empty"@,
        },
{
    let t = trim_chars(&chars_of(message));
    if t.len() == 0 {
        Err(owned("Commit message is empty"))
    } else {
        Ok(string_of(&t))
    }
}

/// How many commits the log lists, newest first.
pub const LOG_LIMIT: usize = 60;

/// A log entry; a commit without an author name is by "Unknown", one without a summary
/// line has an empty message.
pub fn log_commit(hash: String, date: String, author: Option<&str>, summary: Option<&str>) -> (res:
    GitCommit)
    ensures
        res.hash@ == hash@,
        res.date@ == date@,
        res.author@ == match author {
            Some(a) => a@,
            None => "Unknown"@,
        },
        res.message@ == match summary {
            Some(m) => m@,
            None => Seq::empty(),
        },
{
    let author = match author {
        Some(a) => owned(a),
        None => owned("Unknown"),
    };
    let message = match summary {
        Some(m) => owned(m),
        None => String::new(),
    };
    GitCommit { hash, date, author, message }
}

/// The text shown for one commit: a header in the layout of `git show`, then its patch,
/// cut to the diff limit.
pub open spec fn commit_view(
    id: Seq<char>,
    author: Seq<char>,
    date: Seq<char>,
    message: Seq<char>,
    patch: Seq<char>,
) -> Seq<char> {
    truncated(
        "commit "@ + id + "\nAuthor: "@ + author + "\nDate:   "@ + date + "\n\n    "@ + message
            + "\n\n"@ + patch,
        MAX_DIFF_CHARS as nat,
    )
}

/// The text of a commit opened from the log.
pub fn commit_view_text(id: &str, author: &str, date: &str, message: &str, patch: &str) -> (res:
    String)
    ensures
        res@ == commit_view(id@, author@, date@, message@, patch@),
{
    let mut out = owned("commit ");
    push_str(&mut out, id);
    push_str(&mut out, "\nAuthor: ");
    push_str(&mut out, author);
    push_str(&mut out, "\nDate:   ");
    push_str(&mut out, date);
    push_str(&mut out, "\n\n    ");
    push_str(&mut out, message);
    push_str(&mut out, "\n\n");
    push_str(&mut out, patch);
    truncate(out.as_str(), MAX_DIFF_CHARS)
}

/// The author identity set in the settings: both the trimmed name and e-mail, when
/// neither is blank.
pub fn configured_author(name: &str, email: &str) -> (res: Option<(String, String)>)
    ensures
        match res {
            Some((n, e)) => trim(name@).len() > 0 && trim(email@).len() > 0 && n@ == trim(name@)
                && e@ == trim(email@),
            None => trim(name@).len() == 0 || trim(email@).len() == 0,
        },
{
    let n = trim_chars(&chars_of(name));
    let e = trim_chars(&chars_of(email));
    if n.len() > 0 && e.len() > 0 {
        Some((string_of(&n), string_of(&e)))
    } else {
        None
    }
}

/// The error when no author identity is configured in the settings or in git.
pub fn author_identity_error(error: &str) -> (res: String)
    ensures
        res@ == "Git author identity is not configured. Set name and email in Settings \u{2192} GitHub: "@
            + error@,
{
    let mut m = owned("Git author identity is not configured. Set name and email in Settings \u{2192} GitHub: ");
    push_str(&mut m, error);
    m
}

/// The names are in the order of `str` (by code point).
pub open spec fn names_sorted(s: Seq<Seq<char>>) -> bool {
    forall|i: int, j: int| 0 <= i < j < s.len() ==> lex_le(#[trigger] s[i], #[trigger] s[j])
}

/// Inserting `x` into a sequence keeps its other elements and adds one `x`.
proof fn lemma_insert_multiset<A>(s: Seq<A>, k: int, x: A)
    requires
        0 <= k <= s.len(),
    ensures
        s.insert(k, x).to_multiset() == s.to_multiset().insert(x),
{
    broadcast use vstd::seq_lib::group_to_multiset_ensures;

    let t = s.insert(k, x);
    assert(t.remove(k) =~= s);
    assert(t[k] == x);
    assert(t.contains(x));
    assert(t.to_multiset().count(x) > 0);
    assert(t.to_multiset() =~= s.to_multiset().insert(x));
}

/// Inserts `x` into the sorted `out`, after every name not greater than it.
fn insert_name(out: &mut Vec<String>, x: String)
    requires
        names_sorted(strings_view(old(out)@)),
    ensures
        names_sorted(strings_view(final(out)@)),
        strings_view(final(out)@).to_multiset() == strings_view(old(out)@).to_multiset().insert(
            x@,
        ),
{
    let ghost s0 = strings_view(out@);
    let xc = chars_of(x.as_str());
    let mut k = out.len();
    while k > 0 && !lex_le_exec(&chars_of(out[k - 1].as_str()), &xc)
        invariant
            k <= out@.len(),
            strings_view(out@) == s0,
            xc@ == x@,
            forall|m: int| k <= m < s0.len() ==> !lex_le(#[trigger] s0[m], x@),
        decreases k,
    {
        k = k - 1;
    }
    let ghost xv = x@;
    out.insert(k, x);
    let ghost s1 = strings_view(out@);
    assert(s1 =~= s0.insert(k as int, xv));
    proof {
        lemma_insert_multiset(s0, k as int, xv);
        assert forall|i: int, j: int| 0 <= i < j < s1.len() implies lex_le(
            #[trigger] s1[i],
            #[trigger] s1[j],
        ) by {
            if j < k {
                assert(s1[i] == s0[i] && s1[j] == s0[j]);
            } else if j == k {
                assert(s1[i] == s0[i]);
                if i < k - 1 {
                    lemma_lex_trans(s0[i], s0[k - 1], xv);
                }
            } else if i > k {
                assert(s1[i] == s0[i - 1] && s1[j] == s0[j - 1]);
            } else if i == k {
                assert(s1[j] == s0[j - 1]);
                lemma_lex_total(s0[j - 1], xv);
            } else {
                assert(s1[i] == s0[i] && s1[j] == s0[j - 1]);
                if i < k - 1 {
                    lemma_lex_trans(s0[i], s0[k - 1], xv);
                }
                lemma_lex_total(s0[j - 1], xv);
                lemma_lex_trans(s0[i], xv, s0[j - 1]);
            }
        }
    }
}

/// The local branch names in the order the panel lists them.
pub fn sorted_branch_names(names: Vec<String>) -> (res: Vec<String>)
    ensures
        names_sorted(strings_view(res@)),
        strings_view(res@).to_multiset() == strings_view(names@).to_multiset(),
{
    broadcast use vstd::seq_lib::group_to_multiset_ensures;

    let ghost all = strings_view(names@);
    let mut out: Vec<String> = Vec::new();
    let mut i: usize = 0;
    assert(strings_view(out@) =~= Seq::<Seq<char>>::empty());
    while i < names.len()
        invariant
            i <= names@.len(),
            all == strings_view(names@),
            names_sorted(strings_view(out@)),
            strings_view(out@).to_multiset() == all.take(i as int).to_multiset(),
        decreases names.len() - i,
    {
        let x = names[i].clone();
        assert(x@ == all[i as int]);
        assert(all.take(i + 1) =~= all.take(i as int).push(all[i as int]));
        proof {
            vstd::seq_lib::to_multiset_build(all.take(i as int), all[i as int]);
        }
        insert_name(&mut out, x);
        i = i + 1;
    }
    assert(all.take(i as int) =~= all);
    out
}

/// The reference of a branch to check out or create, refused when the name is blank.
pub fn branch_reference(name: &str) -> (res: Result<String, String>)
    ensures
        match res {
            Ok(r) => trim(name@).len() > 0 && r@ == "refs/heads/"@ + name@,
            Err(e) => trim(name@).len() == 0 && e@ == "Branch name is empty"@,
        },
{
    if trim_chars(&chars_of(name)).len() == 0 {
        return Err(owned("Branch name is empty"));
    }
    let mut r = owned("refs/heads/");
    push_str(&mut r, name);
    Ok(r)
}

/// The branch a pull or push works on; refused when `HEAD` is detached (no branch name, or
/// the name `HEAD`).
pub fn branch_for_sync(branch: &str, pushing: bool) -> (res: Result<(), String>)
    ensures
        res is Ok <==> (branch@.len() > 0 && branch@ != "HEAD"@),
        res matches Err(e) ==> e@ == if pushing {
            "Cannot push while HEAD is detached"@
        } else {
            "Cannot pull while HEAD is detached"@
        },
{
    let head = chars_of("HEAD");
    if branch.is_empty() || crate::text::chars_eq(&chars_of(branch), &head) {
        if pushing {
            Err(owned("Cannot push while HEAD is detached"))
        } else {
            Err(owned("Cannot pull while HEAD is detached"))
        }
    } else {
        Ok(())
    }
}

/// The refspec that pushes `branch` to the branch of the same name.
pub fn push_refspec(branch: &str) -> (res: String)
    ensures
        res@ == "refs/heads/"@ + branch@ + ":refs/heads/"@ + branch@,
{
    let mut r = owned("refs/heads/");
    push_str(&mut r, branch);
    push_str(&mut r, ":refs/heads/");
    push_str(&mut r, branch);
    r
}

/// The upstream set for a branch pushed for the first time.
pub fn default_upstream(branch: &str) -> (res: String)
    ensures
        res@ == "origin/"@ + branch@,
{
    let mut r = owned("origin/");
    push_str(&mut r, branch);
    r
}

// ---------------------------------------------------------------------------
// Remotes
// ---------------------------------------------------------------------------

/// The explanation of a failed fetch or push. A rejection by GitHub over HTTPS (an
/// authentication failure, or a message mentioning 403) gets advice on the token; any
/// other failure names the operation, the remote URL and the error.
pub open spec fn remote_error_text(
    url: Seq<char>,
    operation: Seq<char>,
    auth_failed: bool,
    error_message: Seq<char>,
    error_text: Seq<char>,
    token_blank: bool,
) -> Seq<char> {
    let github_https = starts_with(url, "https://github.com/"@) || starts_with(
        url,
        "http://github.com/"@,
    );
    let rejected = auth_failed || contains_seq(error_message, "403"@);
    if github_https && rejected {
        if token_blank {
            "GitHub rejected "@ + operation
                + ": no token is configured. Open Settings \u{2192} GitHub and save a personal access token with repository Contents: Read and write permission."@
        } else {
            "GitHub rejected "@ + operation
                + " with HTTP 403. Authentication reached GitHub, but this token cannot write to the repository. For a fine-grained token, grant access to this repository and Repository permissions \u{2192} Contents: Read and write. For an organization repository, also authorize the token for SSO and check that the organization approved it. Remote: "@
                + url
        }
    } else {
        operation + " failed for "@ + url + ": "@ + error_text
    }
}

/// Explains a failed fetch or push on the remote at `url`. `auth_failed` tells whether the
/// error is an authentication failure, `error_message` is its message and `error_text` its
/// full display; `token` is the configured GitHub token.
pub fn remote_error_message(
    url: &str,
    operation: &str,
    auth_failed: bool,
    error_message: &str,
    error_text: &str,
    token: &str,
) -> (res: String)
    ensures
        res@ == remote_error_text(
            url@,
            operation@,
            auth_failed,
            error_message@,
            error_text@,
            trim(token@).len() == 0,
        ),
{
    let u = chars_of(url);
    let github_https = starts_with_exec(&u, &chars_of("https://github.com/")) || starts_with_exec(
        &u,
        &chars_of("http://github.com/"),
    );
    let rejected = auth_failed || contains_exec(&chars_of(error_message), &chars_of("403"));
    if github_https && rejected {
        let mut m = owned("GitHub rejected ");
        push_str(&mut m, operation);
        if trim_chars(&chars_of(token)).len() == 0 {
            push_str(
                &mut m,
                ": no token is configured. Open Settings \u{2192} GitHub and save a personal access token with repository Contents: Read and write permission.",
            );
        } else {
            push_str(
                &mut m,
                " with HTTP 403. Authentication reached GitHub, but this token cannot write to the repository. For a fine-grained token, grant access to this repository and Repository permissions \u{2192} Contents: Read and write. For an organization repository, also authorize the token for SSO and check that the organization approved it. Remote: ",
            );
            push_str(&mut m, url);
        }
        m
    } else {
        let mut m = owned(operation);
        push_str(&mut m, " failed for ");
        push_str(&mut m, url);
        push_str(&mut m, ": ");
        push_str(&mut m, error_text);
        m
    }
}

/// The credential offered when a remote asks for one.
pub enum RemoteCredential {
    /// The token as the HTTP password of `username`.
    UserPass { username: String, token: String },
    /// A key from the SSH agent for `username`.
    SshAgent { username: String },
    /// Only a user name.
    Username { username: String },
    /// The transport's default credential.
    DefaultCredential,
}

/// The user name offered to a remote: the configured GitHub account when set, else the one
/// the remote asked for, else the one in its URL, else `x-access-token`.
pub open spec fn credential_user(
    configured: Seq<char>,
    username_from_remote: Option<Seq<char>>,
    username_in_url: Option<Seq<char>>,
) -> Seq<char> {
    if configured.len() > 0 {
        configured
    } else {
        match username_from_remote {
            Some(u) => u,
            None => match username_in_url {
                Some(u) => u,
                None => "x-access-token"@,
            },
        }
    }
}

/// The user name written in URL `u`, when it parses and names one.
pub open spec fn url_user(u: Seq<char>) -> Option<Seq<char>> {
    match crate::oauth::url_username(u) {
        Some(n) => if n.len() > 0 {
            Some(n)
        } else {
            None
        },
        None => None,
    }
}

/// Chooses the credential offered to the remote at `url`. `configured` is the configured
/// GitHub account (trimmed), `token` the configured token (trimmed), `username_from_remote`
/// the user name the remote asked for, and the three flags say which kinds it accepts.
pub fn choose_remote_credential(
    url: &str,
    configured: &str,
    token: &str,
    username_from_remote: Option<&str>,
    allows_userpass: bool,
    allows_ssh_key: bool,
    allows_username: bool,
) -> (res: RemoteCredential)
    ensures
        ({
            let user = credential_user(
                configured@,
                match username_from_remote {
                    Some(u) => Some(u@),
                    None => None,
                },
                url_user(url@),
            );
            if allows_userpass && token@.len() > 0 {
                res matches RemoteCredential::UserPass { username, token: t } && username@ == user
                    && t@ == token@
            } else if allows_ssh_key {
                res matches RemoteCredential::SshAgent { username } && username@ == match username_from_remote {
                    Some(u) => u@,
                    None => "git"@,
                }
            } else if allows_username {
                res matches RemoteCredential::Username { username } && username@ == user
            } else {
                res is DefaultCredential
            }
        }),
{
    let user: String = if !configured.is_empty() {
        owned(configured)
    } else {
        match username_from_remote {
            Some(u) => owned(u),
            None => match crate::oauth::url_username_of(url) {
                Some(n) => if !n.as_str().is_empty() {
                    n
                } else {
                    owned("x-access-token")
                },
                None => owned("x-access-token"),
            },
        }
    };
    if allows_userpass && !token.is_empty() {
        return RemoteCredential::UserPass { username: user, token: owned(token) };
    }
    if allows_ssh_key {
        let name = match username_from_remote {
            Some(u) => owned(u),
            None => owned("git"),
        };
        return RemoteCredential::SshAgent { username: name };
    }
    if allows_username {
        return RemoteCredential::Username { username: user };
    }
    RemoteCredential::DefaultCredential
}

// ---------------------------------------------------------------------------
// Pulling
// ---------------------------------------------------------------------------

/// The refusal when a pull would overwrite local changes to files the upstream updates.
pub fn pull_overwrite_message(upstream: &str, error: &str) -> (res: String)
    ensures
        res@ == "Cannot pull: your local changes to files updated by "@ + upstream@
            + " would be overwritten. Commit, stash, or discard them first. ("@ + error@ + ")"@,
{
    let mut m = owned("Cannot pull: your local changes to files updated by ");
    push_str(&mut m, upstream);
    push_str(&mut m, " would be overwritten. Commit, stash, or discard them first. (");
    push_str(&mut m, error);
    push_str(&mut m, ")");
    m
}

/// The refusal when local and upstream histories conflict (the merge was rolled back).
pub fn pull_conflict_message(upstream: &str) -> (res: String)
    ensures
        res@ == "Local and "@ + upstream@
            + " have conflicting changes. Automatic sync was rolled back safely; merge the branches manually or resolve the conflicting commits before pushing."@,
{
    let mut m = owned("Local and ");
    push_str(&mut m, upstream);
    push_str(
        &mut m,
        " have conflicting changes. Automatic sync was rolled back safely; merge the branches manually or resolve the conflicting commits before pushing.",
    );
    m
}

/// The message of the merge commit that integrates `upstream` into `branch`.
pub fn merge_commit_message(upstream: &str, branch: &str) -> (res: String)
    ensures
        res@ == "Merge "@ + upstream@ + " into "@ + branch@,
{
    let mut m = owned("Merge ");
    push_str(&mut m, upstream);
    push_str(&mut m, " into ");
    push_str(&mut m, branch);
    m
}

} // verus!
