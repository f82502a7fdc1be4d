//! The composer's prompt history: recording sent prompts and stepping through them with the
//! arrow keys.

use vstd::prelude::*;

use crate::text::{chars_eq, chars_of, is_blank, is_blank_exec, owned, string_of, trim, trim_chars};

verus! {

/// Most prompts the history keeps.
pub const INPUT_HISTORY_MAX: usize = 100;

/// The views of a list of strings.
pub open spec fn strings_view(v: Seq<String>) -> Seq<Seq<char>> {
    v.map_values(|s: String| s@)
}

/// The history after sending `text`: its trimmed form goes in front unless it is blank or
/// already the newest entry, and the oldest entry falls off beyond 100.
pub open spec fn history_after_push(h: Seq<Seq<char>>, text: Seq<char>) -> Seq<Seq<char>> {
    let t = trim(text);
    if t.len() == 0 || (h.len() > 0 && h[0] == t) {
        h
    } else {
        let n = seq![t] + h;
        if n.len() > INPUT_HISTORY_MAX {
            n.drop_last()
        } else {
            n
        }
    }
}

/// Records a sent prompt in the history (newest first).
pub fn push_input_history(history: &mut Vec<String>, text: &str)
    ensures
        strings_view(final(history)@) == history_after_push(strings_view(old(history)@), text@),
{
    let t = trim_chars(&chars_of(text));
    if t.len() == 0 {
        return;
    }
    if history.len() > 0 && chars_eq(&chars_of(history[0].as_str()), &t) {
        return;
    }
    let ghost h0 = strings_view(history@);
    history.insert(0, string_of(&t));
    assert(strings_view(history@) =~= seq![t@] + h0);
    if history.len() > INPUT_HISTORY_MAX {
        history.pop();
        assert(strings_view(history@) =~= (seq![t@] + h0).drop_last());
    }
}

/// No line break comes before character `idx` of `s`: the cursor is on the first line.
pub open spec fn on_first_line(s: Seq<char>, idx: int) -> bool {
    forall|j: int| 0 <= j < idx && j < s.len() ==> s[j] != '\n'
}

/// No line break comes at or after character `idx` of `s`: the cursor is on the last line.
pub open spec fn on_last_line(s: Seq<char>, idx: int) -> bool {
    forall|j: int| idx <= j < s.len() ==> s[j] != '\n'
}

/// Whether the cursor at character `char_idx` is on the first line of `s`.
pub fn char_idx_on_first_line(s: &str, char_idx: usize) -> (res: bool)
    ensures
        res == on_first_line(s@, char_idx as int),
{
    let cs = chars_of(s);
    let mut j: usize = 0;
    while j < char_idx && j < cs.len()
        invariant
            cs@ == s@,
            forall|m: int| 0 <= m < j ==> cs@[m] != '\n',
        decreases cs.len() - j,
    {
        if cs[j] == '\n' {
            return false;
        }
        j = j + 1;
    }
    true
}

/// Whether the cursor at character `char_idx` is on the last line of `s`.
pub fn char_idx_on_last_line(s: &str, char_idx: usize) -> (res: bool)
    ensures
        res == on_last_line(s@, char_idx as int),
{
    let cs = chars_of(s);
    let mut j: usize = char_idx;
    while j < cs.len()
        invariant
            cs@ == s@,
            char_idx <= j,
            forall|m: int| char_idx <= m < j ==> cs@[m] != '\n',
        decreases cs.len() - j,
    {
        if cs[j] == '\n' {
            return false;
        }
        j = j + 1;
    }
    true
}

/// The composer text and where it stands in the prompt history.
pub struct InputHistoryNav {
    /// The text in the composer.
    pub input: String,
    /// The history entry shown, newest first; `None` while editing a fresh prompt.
    pub index: Option<usize>,
    /// The fresh prompt put aside while browsing the history.
    pub draft: String,
    /// Set when the composer text was replaced, so the next edit event is not taken as typing.
    pub ignore_next_edit_change: bool,
}

/// The mathematical value of an [`InputHistoryNav`].
pub struct NavView {
    pub input: Seq<char>,
    pub index: Option<usize>,
    pub draft: Seq<char>,
}

impl View for InputHistoryNav {
    type V = NavView;

    open spec fn view(&self) -> NavView {
        NavView { input: self.input@, index: self.index, draft: self.draft@ }
    }
}

/// Where the up key leads from `nav` with the cursor at `idx`, or `None` when it is left to
/// the text editor. From a fresh prompt it opens the newest entry (only when the prompt is
/// blank or the cursor is on its first line), putting the prompt aside; from an entry it
/// opens the next older one, when the cursor is on the first line and there is one.
pub open spec fn history_up(nav: NavView, hist: Seq<Seq<char>>, idx: int) -> Option<NavView> {
    if hist.len() == 0 {
        None
    } else {
        match nav.index {
            None => if !is_blank(nav.input) && !on_first_line(nav.input, idx) {
                None
            } else {
                Some(NavView { input: hist[0], index: Some(0), draft: nav.input })
            },
            Some(i) => if !on_first_line(nav.input, idx) || i + 1 >= hist.len() {
                None
            } else {
                Some(NavView { input: hist[i + 1], index: Some((i + 1) as usize), draft: nav.draft })
            },
        }
    }
}

/// Where the down key leads from `nav` with the cursor at `idx`, or `None` when it is left
/// to the text editor: from the newest entry back to the prompt put aside, from an older
/// entry to the next newer one, in both cases only with the cursor on the last line.
pub open spec fn history_down(nav: NavView, hist: Seq<Seq<char>>, idx: int) -> Option<NavView> {
    if hist.len() == 0 {
        None
    } else {
        match nav.index {
            None => None,
            Some(i) => if !on_last_line(nav.input, idx) {
                None
            } else if i == 0 {
                Some(NavView { input: nav.draft, index: None, draft: Seq::empty() })
            } else {
                Some(NavView { input: hist[i - 1], index: Some((i - 1) as usize), draft: nav.draft })
            },
        }
    }
}

impl InputHistoryNav {
    /// Handles the up key; returns whether the history consumed it.
    pub fn try_input_history_up(&mut self, hist: &[String], char_idx: usize) -> (res: bool)
        ensures
            res == history_up(old(self)@, strings_view(hist@), char_idx as int) is Some,
            res ==> final(self)@ == history_up(old(self)@, strings_view(hist@), char_idx as int)->0,
            res ==> final(self).ignore_next_edit_change,
            !res ==> *final(self) == *old(self),
    {
        let ghost hv = strings_view(hist@);
        if hist.len() == 0 {
            return false;
        }
        let on_first = char_idx_on_first_line(self.input.as_str(), char_idx);
        match self.index {
            None => {
                let blank = is_blank_exec(&chars_of(self.input.as_str()));
                if !blank && !on_first {
                    return false;
                }
                let mut entry = owned(hist[0].as_str());
                std::mem::swap(&mut self.input, &mut entry);
                self.draft = entry;
                self.index = Some(0);
                self.ignore_next_edit_change = true;
                assert(hv[0] == hist@[0]@);
                true
            },
            Some(i) => {
                if !on_first {
                    return false;
                }
                if i < hist.len() - 1 {
                    self.input = owned(hist[i + 1].as_str());
                    self.index = Some(i + 1);
                    self.ignore_next_edit_change = true;
                    assert(hv[i + 1] == hist@[i + 1]@);
                    true
                } else {
                    false
                }
            },
        }
    }

    /// Handles the down key; returns whether the history consumed it.
    pub fn try_input_history_down(&mut self, hist: &[String], char_idx: usize) -> (res: bool)
        requires
            old(self).index matches Some(i) ==> i <= hist@.len(),
        ensures
            res == history_down(old(self)@, strings_view(hist@), char_idx as int) is Some,
            res ==> final(self)@ == history_down(old(self)@, strings_view(hist@), char_idx as int)->0,
            res ==> final(self).ignore_next_edit_change,
            !res ==> *final(self) == *old(self),
    {
        let ghost hv = strings_view(hist@);
        if hist.len() == 0 {
            return false;
        }
        let on_last = char_idx_on_last_line(self.input.as_str(), char_idx);
        match self.index {
            None => false,
            Some(i) => {
                if !on_last {
                    return false;
                }
                if i == 0 {
                    let mut draft = String::new();
                    std::mem::swap(&mut self.draft, &mut draft);
                    self.input = draft;
                    self.index = None;
                } else {
                    self.input = owned(hist[i - 1].as_str());
                    self.index = Some(i - 1);
                    assert(hv[i - 1] == hist@[i - 1]@);
                }
                self.ignore_next_edit_change = true;
                true
            },
        }
    }
}

/// Stepping up into the history and straight back down returns the composer to the text and
/// history position it had, provided the cursor ends on the last line and the text shown
/// before was the entry it stood on (or a fresh prompt).
pub proof fn law_up_then_down_restores(
    nav: NavView,
    hist: Seq<Seq<char>>,
    up_idx: int,
    down_idx: int,
)
    requires
        history_up(nav, hist, up_idx) is Some,
        on_last_line(history_up(nav, hist, up_idx)->0.input, down_idx),
        nav.index matches Some(i) ==> i < hist.len() && nav.input == hist[i as int],
        hist.len() <= usize::MAX,
    ensures
        history_down(history_up(nav, hist, up_idx)->0, hist, down_idx) is Some,
        history_down(history_up(nav, hist, up_idx)->0, hist, down_idx)->0.input == nav.input,
        history_down(history_up(nav, hist, up_idx)->0, hist, down_idx)->0.index == nav.index,
{
    match nav.index {
        None => {},
        Some(i) => {
            let up = history_up(nav, hist, up_idx)->0;
            assert(up.index == Some((i + 1) as usize));
            assert(((i + 1) as usize - 1) as usize == i);
        },
    }
}

/// Law: the history never holds more than 100 prompts, and sending the same prompt twice
/// in a row records it once.
pub proof fn law_history_bounded_and_deduplicated(h: Seq<Seq<char>>, text: Seq<char>)
    requires
        h.len() <= INPUT_HISTORY_MAX,
    ensures
        history_after_push(h, text).len() <= INPUT_HISTORY_MAX,
        history_after_push(history_after_push(h, text), text) == history_after_push(h, text),
        trim(text).len() > 0 ==> history_after_push(h, text)[0] == trim(text),
{
}

} // verus!
