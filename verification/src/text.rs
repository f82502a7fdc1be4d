//! Character-level text helpers with exact specifications over `Seq<char>`.
//!
//! Whitespace follows the Unicode `White_Space` property, the definition used by
//! `char::is_whitespace`, `str::trim` and `str::split_whitespace`.

use vstd::prelude::*;

verus! {

/// The Unicode `White_Space` property.
pub open spec fn is_ws(c: char) -> bool {
    let n = c as u32;
    ||| 0x09 <= n <= 0x0d
    ||| n == 0x20
    ||| n == 0x85
    ||| n == 0xa0
    ||| n == 0x1680
    ||| 0x2000 <= n <= 0x200a
    ||| n == 0x2028
    ||| n == 0x2029
    ||| n == 0x202f
    ||| n == 0x205f
    ||| n == 0x3000
}

/// `s` with its leading whitespace removed.
pub open spec fn trim_start(s: Seq<char>) -> Seq<char>
    decreases s.len(),
{
    if s.len() > 0 && is_ws(s[0]) {
        trim_start(s.drop_first())
    } else {
        s
    }
}

/// `s` with its trailing whitespace removed.
pub open spec fn trim_end(s: Seq<char>) -> Seq<char>
    decreases s.len(),
{
    if s.len() > 0 && is_ws(s.last()) {
        trim_end(s.drop_last())
    } else {
        s
    }
}

/// `s` with leading and trailing whitespace removed.
pub open spec fn trim(s: Seq<char>) -> Seq<char> {
    trim_end(trim_start(s))
}

/// Every character of `s` is whitespace (so `trim(s)` is empty).
pub open spec fn is_blank(s: Seq<char>) -> bool {
    forall|i: int| 0 <= i < s.len() ==> is_ws(#[trigger] s[i])
}

/// The leading run of non-whitespace characters of `s`.
pub open spec fn take_word(s: Seq<char>) -> Seq<char>
    decreases s.len(),
{
    if s.len() == 0 || is_ws(s[0]) {
        Seq::empty()
    } else {
        seq![s[0]] + take_word(s.drop_first())
    }
}

/// The whitespace-separated words of `s`, as `str::split_whitespace` yields them.
pub open spec fn words(s: Seq<char>) -> Seq<Seq<char>>
    decreases s.len(),
{
    let t = trim_start(s);
    if t.len() == 0 {
        Seq::empty()
    } else {
        let w = take_word(t);
        if w.len() == 0 || w.len() > t.len() || t.len() > s.len() {
            // never taken: `t` is non-empty and starts with a non-space
            Seq::empty()
        } else {
            seq![w] + words(t.skip(w.len() as int))
        }
    }
}

/// The items of `ws` joined with `sep` between consecutive items.
pub open spec fn join(ws: Seq<Seq<char>>, sep: Seq<char>) -> Seq<char>
    decreases ws.len(),
{
    if ws.len() == 0 {
        Seq::empty()
    } else if ws.len() == 1 {
        ws[0]
    } else {
        join(ws.drop_last(), sep) + sep + ws.last()
    }
}

/// `p` is a prefix of `s`.
pub open spec fn starts_with(s: Seq<char>, p: Seq<char>) -> bool {
    p.len() <= s.len() && s.subrange(0, p.len() as int) == p
}

/// `p` is a suffix of `s`.
pub open spec fn ends_with(s: Seq<char>, p: Seq<char>) -> bool {
    p.len() <= s.len() && s.subrange(s.len() - p.len(), s.len() as int) == p
}

/// `p` occurs in `s` starting at position `i`.
pub open spec fn occurs_at(s: Seq<char>, p: Seq<char>, i: int) -> bool {
    0 <= i && i + p.len() <= s.len() && s.subrange(i, i + p.len()) == p
}

/// `p` occurs somewhere in `s`.
pub open spec fn contains_seq(s: Seq<char>, p: Seq<char>) -> bool {
    exists|i: int| occurs_at(s, p, i)
}

/// `i` is the first position at which `p` occurs in `s`.
pub open spec fn first_occurrence(s: Seq<char>, p: Seq<char>, i: int) -> bool {
    occurs_at(s, p, i) && forall|j: int| 0 <= j < i ==> !occurs_at(s, p, j)
}

/// `i` is the last position at which `p` occurs in `s`.
pub open spec fn last_occurrence(s: Seq<char>, p: Seq<char>, i: int) -> bool {
    occurs_at(s, p, i) && forall|j: int| i < j ==> !occurs_at(s, p, j)
}

/// `s` with every occurrence of `from` replaced by `to`.
pub open spec fn replace_char(s: Seq<char>, from: char, to: Seq<char>) -> Seq<char>
    decreases s.len(),
{
    if s.len() == 0 {
        Seq::empty()
    } else {
        let head = if s[0] == from {
            to
        } else {
            seq![s[0]]
        };
        head + replace_char(s.drop_first(), from, to)
    }
}

/// ASCII lower-casing of one character (`char::to_ascii_lowercase`).
pub open spec fn ascii_lower(c: char) -> char {
    if 'A' <= c && c <= 'Z' {
        ((c as u32) + 32) as char
    } else {
        c
    }
}

/// ASCII lower-casing of a character sequence (`str::to_ascii_lowercase`).
pub open spec fn ascii_lower_seq(s: Seq<char>) -> Seq<char> {
    s.map_values(|c: char| ascii_lower(c))
}

/// Every character of `s` is an ASCII digit.
pub open spec fn all_ascii_digits(s: Seq<char>) -> bool {
    forall|i: int| 0 <= i < s.len() ==> '0' <= #[trigger] s[i] && s[i] <= '9'
}

// ---------------------------------------------------------------------------
// Lemmas
// ---------------------------------------------------------------------------

/// Skipping a whitespace run `s[i..j)` that ends at a non-space (or at the end) is what
/// `trim_start` does to `s.skip(i)`.
pub proof fn lemma_trim_start_skip(s: Seq<char>, i: int, j: int)
    requires
        0 <= i <= j <= s.len(),
        forall|k: int| i <= k < j ==> is_ws(#[trigger] s[k]),
        j == s.len() || !is_ws(s[j]),
    ensures
        trim_start(s.skip(i)) == s.skip(j),
    decreases j - i,
{
    if i < j {
        assert(s.skip(i).drop_first() == s.skip(i + 1));
        lemma_trim_start_skip(s, i + 1, j);
    }
}

/// A run of non-spaces `s[j..k)` that ends at a space (or at the end) is the first word of
/// `s.skip(j)`.
pub proof fn lemma_take_word_skip(s: Seq<char>, j: int, k: int)
    requires
        0 <= j <= k <= s.len(),
        forall|m: int| j <= m < k ==> !is_ws(#[trigger] s[m]),
        k == s.len() || is_ws(s[k]),
    ensures
        take_word(s.skip(j)) == s.subrange(j, k),
    decreases k - j,
{
    if j < k {
        assert(s.skip(j).drop_first() == s.skip(j + 1));
        lemma_take_word_skip(s, j + 1, k);
        assert(s.subrange(j, k) == seq![s[j]] + s.subrange(j + 1, k));
    } else {
        assert(s.subrange(j, k) == Seq::<char>::empty());
    }
}

/// One step of `words` on a suffix: the word `s[j..k)` after the spaces `s[i..j)`.
pub proof fn lemma_words_step(s: Seq<char>, i: int, j: int, k: int)
    requires
        0 <= i <= j < k <= s.len(),
        forall|m: int| i <= m < j ==> is_ws(#[trigger] s[m]),
        forall|m: int| j <= m < k ==> !is_ws(#[trigger] s[m]),
        k == s.len() || is_ws(s[k]),
    ensures
        words(s.skip(i)) == seq![s.subrange(j, k)] + words(s.skip(k)),
{
    lemma_trim_start_skip(s, i, j);
    lemma_take_word_skip(s, j, k);
    assert(s.skip(j).skip(k - j) == s.skip(k));
}

/// `trim_start` returns a suffix of its argument.
pub proof fn lemma_trim_start_is_suffix(s: Seq<char>)
    ensures
        trim_start(s).len() <= s.len(),
        trim_start(s) == s.skip(s.len() - trim_start(s).len()),
        forall|k: int| 0 <= k < s.len() - trim_start(s).len() ==> is_ws(#[trigger] s[k]),
    decreases s.len(),
{
    if s.len() > 0 && is_ws(s[0]) {
        lemma_trim_start_is_suffix(s.drop_first());
        let t = trim_start(s.drop_first());
        assert(s.drop_first().skip(s.drop_first().len() - t.len()) == s.skip(s.len() - t.len()));
        assert forall|k: int| 0 <= k < s.len() - t.len() implies is_ws(#[trigger] s[k]) by {
            if k > 0 {
                assert(s[k] == s.drop_first()[k - 1]);
            }
        }
    }
}

// ---------------------------------------------------------------------------
// Executable helpers
// ---------------------------------------------------------------------------

/// `char::is_whitespace`, by the Unicode `White_Space` table.
pub fn is_whitespace(c: char) -> (res: bool)
    ensures
        res == is_ws(c),
{
    let n = c as u32;
    (0x09 <= n && n <= 0x0d) || n == 0x20 || n == 0x85 || n == 0xa0 || n == 0x1680 || (0x2000
        <= n && n <= 0x200a) || n == 0x2028 || n == 0x2029 || n == 0x202f || n == 0x205f || n
        == 0x3000
}

/// The characters of `s`, in order.
pub fn chars_of(s: &str) -> (res: Vec<char>)
    ensures
        res@ == s@,
{
    let mut res: Vec<char> = Vec::new();
    for c in it: s.chars()
        invariant
            it.seq() == s@,
            res@ == it.seq().take(it.index() as int),
    {
        res.push(c);
    }
    res
}

/// Appends one character to `s` (`String::push`).
#[verifier::external_body]
pub fn push_char(s: &mut String, c: char)
    ensures
        final(s)@ == old(s)@.push(c),
{
    s.push(c);
}

/// The string made of the characters of `cs`.
pub fn string_of(cs: &[char]) -> (res: String)
    ensures
        res@ == cs@,
{
    let mut res = String::new();
    let mut i: usize = 0;
    while i < cs.len()
        invariant
            i <= cs.len(),
            res@ == cs@.take(i as int),
        decreases cs.len() - i,
    {
        push_char(&mut res, cs[i]);
        assert(cs@.take(i as int).push(cs@[i as int]) == cs@.take(i + 1));
        i = i + 1;
    }
    assert(cs@.take(cs@.len() as int) == cs@);
    res
}

/// The string with the same characters as `s` (`str::to_string`).
pub fn owned(s: &str) -> (res: String)
    ensures
        res@ == s@,
{
    s.to_owned()
}

/// Appends the characters of `p` to `s` (`String::push_str`).
pub fn push_str(s: &mut String, p: &str)
    ensures
        final(s)@ == old(s)@ + p@,
{
    s.append(p);
}

/// Appends the characters in `p` to `s`.
pub fn push_chars(s: &mut String, p: &[char])
    ensures
        final(s)@ == old(s)@ + p@,
{
    let ghost s0 = s@;
    let mut i: usize = 0;
    while i < p.len()
        invariant
            i <= p.len(),
            s@ == s0 + p@.take(i as int),
        decreases p.len() - i,
    {
        push_char(s, p[i]);
        assert(p@.take(i as int).push(p@[i as int]) == p@.take(i + 1));
        i = i + 1;
    }
    assert(p@.take(p@.len() as int) == p@);
}

/// `a` and `b` hold the same characters.
pub fn chars_eq(a: &[char], b: &[char]) -> (res: bool)
    ensures
        res == (a@ == b@),
{
    if a.len() != b.len() {
        return false;
    }
    let mut i: usize = 0;
    while i < a.len()
        invariant
            i <= a.len(),
            a.len() == b.len(),
            forall|k: int| 0 <= k < i ==> a@[k] == b@[k],
        decreases a.len() - i,
    {
        if a[i] != b[i] {
            return false;
        }
        i = i + 1;
    }
    assert(a@ =~= b@);
    true
}

/// `occurs_at(s, p, i)`, decided.
pub fn occurs_at_exec(s: &[char], p: &[char], i: usize) -> (res: bool)
    ensures
        res == occurs_at(s@, p@, i as int),
{
    if i > s.len() || p.len() > s.len() - i {
        return false;
    }
    let mut k: usize = 0;
    while k < p.len()
        invariant
            k <= p.len(),
            i + p.len() <= s.len(),
            forall|m: int| 0 <= m < k ==> s@[i + m] == p@[m],
        decreases p.len() - k,
    {
        if s[i + k] != p[k] {
            assert(s@.subrange(i as int, i + p.len())[k as int] != p@[k as int]);
            return false;
        }
        k = k + 1;
    }
    assert(s@.subrange(i as int, i + p.len()) =~= p@);
    true
}

/// `p` is a prefix of `s`.
pub fn starts_with_exec(s: &[char], p: &[char]) -> (res: bool)
    ensures
        res == starts_with(s@, p@),
{
    occurs_at_exec(s, p, 0)
}

/// `p` is a suffix of `s`.
pub fn ends_with_exec(s: &[char], p: &[char]) -> (res: bool)
    ensures
        res == ends_with(s@, p@),
{
    if p.len() > s.len() {
        return false;
    }
    occurs_at_exec(s, p, s.len() - p.len())
}

/// The first position at which `p` occurs in `s`, if any (`str::find`).
pub fn find_seq(s: &[char], p: &[char]) -> (res: Option<usize>)
    ensures
        res matches Some(i) ==> first_occurrence(s@, p@, i as int),
        res is None ==> !contains_seq(s@, p@),
{
    let mut i: usize = 0;
    loop
        invariant
            i <= s.len(),
            forall|j: int| 0 <= j < i ==> !occurs_at(s@, p@, j),
        decreases s.len() - i,
    {
        if occurs_at_exec(s, p, i) {
            return Some(i);
        }
        if i == s.len() {
            assert forall|j: int| !occurs_at(s@, p@, j) by {
                if 0 <= j < i {
                }
            }
            return None;
        }
        i = i + 1;
    }
}

/// The last position at which `p` occurs in `s`, if any (`str::rfind`).
pub fn rfind_seq(s: &[char], p: &[char]) -> (res: Option<usize>)
    ensures
        res matches Some(i) ==> last_occurrence(s@, p@, i as int),
        res is None ==> !contains_seq(s@, p@),
{
    if p.len() > s.len() {
        return None;
    }
    let mut i: usize = s.len() - p.len();
    loop
        invariant
            i <= s.len() - p.len(),
            p.len() <= s.len(),
            forall|j: int| i < j ==> !occurs_at(s@, p@, j),
        decreases i,
    {
        if occurs_at_exec(s, p, i) {
            return Some(i);
        }
        if i == 0 {
            assert forall|j: int| !occurs_at(s@, p@, j) by {
                if 0 < j {
                }
            }
            return None;
        }
        i = i - 1;
    }
}

/// `p` occurs in `s` (`str::contains`).
pub fn contains_exec(s: &[char], p: &[char]) -> (res: bool)
    ensures
        res == contains_seq(s@, p@),
{
    match find_seq(s, p) {
        Some(_) => true,
        None => false,
    }
}

/// The characters `s[from..to)`.
pub fn slice_chars(s: &[char], from: usize, to: usize) -> (res: Vec<char>)
    requires
        from <= to <= s.len(),
    ensures
        res@ == s@.subrange(from as int, to as int),
{
    let mut res: Vec<char> = Vec::new();
    let mut i = from;
    while i < to
        invariant
            from <= i <= to <= s.len(),
            res@ == s@.subrange(from as int, i as int),
        decreases to - i,
    {
        res.push(s[i]);
        assert(s@.subrange(from as int, i as int).push(s@[i as int]) == s@.subrange(
            from as int,
            i + 1,
        ));
        i = i + 1;
    }
    res
}

/// The index of the first non-space at or after `i`.
pub fn skip_ws(s: &[char], i: usize) -> (j: usize)
    requires
        i <= s.len(),
    ensures
        i <= j <= s.len(),
        forall|k: int| i <= k < j ==> is_ws(#[trigger] s@[k]),
        j == s.len() || !is_ws(s@[j as int]),
{
    let mut j = i;
    while j < s.len() && is_whitespace(s[j])
        invariant
            i <= j <= s.len(),
            forall|k: int| i <= k < j ==> is_ws(#[trigger] s@[k]),
        decreases s.len() - j,
    {
        j = j + 1;
    }
    j
}

/// The index of the first space at or after `j`.
pub fn skip_word(s: &[char], j: usize) -> (k: usize)
    requires
        j <= s.len(),
    ensures
        j <= k <= s.len(),
        forall|m: int| j <= m < k ==> !is_ws(#[trigger] s@[m]),
        k == s.len() || is_ws(s@[k as int]),
{
    let mut k = j;
    while k < s.len() && !is_whitespace(s[k])
        invariant
            j <= k <= s.len(),
            forall|m: int| j <= m < k ==> !is_ws(#[trigger] s@[m]),
        decreases s.len() - k,
    {
        k = k + 1;
    }
    k
}

/// The whitespace-separated words of `s` (`str::split_whitespace`).
pub fn split_words(s: &[char]) -> (res: Vec<Vec<char>>)
    ensures
        res@.len() == words(s@).len(),
        forall|i: int| 0 <= i < res@.len() ==> (#[trigger] res@[i])@ == words(s@)[i],
{
    let mut res: Vec<Vec<char>> = Vec::new();
    let mut i: usize = 0;
    assert(s@.skip(0) == s@);
    loop
        invariant
            i <= s.len(),
            words(s@) == res@.map_values(|w: Vec<char>| w@) + words(s@.skip(i as int)),
        ensures
            words(s@) == res@.map_values(|w: Vec<char>| w@),
        decreases s.len() - i,
    {
        let j = skip_ws(s, i);
        if j == s.len() {
            proof {
                lemma_trim_start_skip(s@, i as int, j as int);
                assert(s@.skip(j as int) =~= Seq::<char>::empty());
                assert(words(s@.skip(i as int)) == Seq::<Seq<char>>::empty());
                assert(res@.map_values(|w: Vec<char>| w@) + Seq::<Seq<char>>::empty()
                    == res@.map_values(|w: Vec<char>| w@));
            }
            break;
        }
        let k = skip_word(s, j);
        proof {
            lemma_words_step(s@, i as int, j as int, k as int);
        }
        let w = slice_chars(s, j, k);
        let ghost old_res = res@;
        res.push(w);
        proof {
            assert(res@.map_values(|w: Vec<char>| w@) == old_res.map_values(|w: Vec<char>| w@)
                + seq![s@.subrange(j as int, k as int)]);
        }
        i = k;
    }
    res
}

/// `trim(s)` as a vector.
pub fn trim_chars(s: &[char]) -> (res: Vec<char>)
    ensures
        res@ == trim(s@),
{
    let j = skip_ws(s, 0);
    proof {
        lemma_trim_start_skip(s@, 0, j as int);
        assert(s@.skip(0) == s@);
    }
    let mut e = s.len();
    while e > j && is_whitespace(s[e - 1])
        invariant
            j <= e <= s.len(),
            trim(s@) == trim_end(s@.subrange(j as int, e as int)),
        decreases e,
    {
        proof {
            let t = s@.subrange(j as int, e as int);
            assert(t.last() == s@[e - 1]);
            assert(t.drop_last() == s@.subrange(j as int, e - 1));
        }
        e = e - 1;
    }
    proof {
        let t = s@.subrange(j as int, e as int);
        assert(s@.skip(j as int).subrange(0, s.len() - j) == s@.skip(j as int));
        if e == s.len() {
            assert(t == s@.skip(j as int));
        }
        if t.len() > 0 {
            assert(t.last() == s@[e - 1]);
        }
    }
    slice_chars(s, j, e)
}

/// Every character of `s` is whitespace.
pub fn is_blank_exec(s: &[char]) -> (res: bool)
    ensures
        res == is_blank(s@),
{
    let j = skip_ws(s, 0);
    j == s.len()
}

/// ASCII lower-casing (`str::to_ascii_lowercase`).
pub fn to_ascii_lower(s: &[char]) -> (res: Vec<char>)
    ensures
        res@ == ascii_lower_seq(s@),
{
    let mut res: Vec<char> = Vec::new();
    let mut i: usize = 0;
    while i < s.len()
        invariant
            i <= s.len(),
            res@ == ascii_lower_seq(s@.take(i as int)),
        decreases s.len() - i,
    {
        let c = s[i];
        let l = if 'A' <= c && c <= 'Z' {
            ((c as u32) + 32) as u8 as char
        } else {
            c
        };
        proof {
            if 'A' <= c && c <= 'Z' {
                assert(((c as u32) + 32) as u8 as char == ((c as u32) + 32) as char);
            }
        }
        res.push(l);
        assert(ascii_lower_seq(s@.take(i + 1)) =~= ascii_lower_seq(s@.take(i as int)).push(l));
        i = i + 1;
    }
    assert(s@.take(s@.len() as int) == s@);
    res
}

/// Every character of `s` is an ASCII digit.
pub fn all_digits_exec(s: &[char]) -> (res: bool)
    ensures
        res == all_ascii_digits(s@),
{
    let mut i: usize = 0;
    while i < s.len()
        invariant
            i <= s.len(),
            forall|k: int| 0 <= k < i ==> '0' <= #[trigger] s@[k] && s@[k] <= '9',
        decreases s.len() - i,
    {
        if !('0' <= s[i] && s[i] <= '9') {
            return false;
        }
        i = i + 1;
    }
    true
}

/// `s` with every `from` replaced by the characters of `to` (`str::replace`).
pub fn replace_char_exec(s: &[char], from: char, to: &[char]) -> (res: Vec<char>)
    ensures
        res@ == replace_char(s@, from, to@),
{
    let mut res: Vec<char> = Vec::new();
    let mut k: usize = 0;
    assert(s@.skip(0) == s@);
    while k < s.len()
        invariant
            k <= s.len(),
            res@ + replace_char(s@.skip(k as int), from, to@) == replace_char(s@, from, to@),
        decreases s.len() - k,
    {
        proof {
            assert(s@.skip(k as int).drop_first() == s@.skip(k + 1));
        }
        if s[k] == from {
            let mut m: usize = 0;
            let ghost r0 = res@;
            while m < to.len()
                invariant
                    m <= to.len(),
                    res@ == r0 + to@.take(m as int),
                decreases to.len() - m,
            {
                res.push(to[m]);
                assert(to@.take(m as int).push(to@[m as int]) == to@.take(m + 1));
                m = m + 1;
            }
            assert(to@.take(to@.len() as int) == to@);
        } else {
            res.push(s[k]);
        }
        k = k + 1;
    }
    assert(s@.skip(s@.len() as int) =~= Seq::<char>::empty());
    res
}


// ---------------------------------------------------------------------------
// Searching, lines, numbers and ordering
// ---------------------------------------------------------------------------

/// The first position at or after `i` where `p` occurs in `s`, or -1.
pub open spec fn find_from(s: Seq<char>, p: Seq<char>, i: int) -> int
    decreases s.len() + 1 - i,
{
    if i < 0 || i > s.len() {
        -1
    } else if occurs_at(s, p, i) {
        i
    } else {
        find_from(s, p, i + 1)
    }
}

/// The first position where `p` occurs in `s`, or -1 (`str::find`).
pub open spec fn find(s: Seq<char>, p: Seq<char>) -> int {
    find_from(s, p, 0)
}

/// The last position where `p` occurs in `s` at or before `i`, or -1.
pub open spec fn rfind_upto(s: Seq<char>, p: Seq<char>, i: int) -> int
    decreases i + 1,
{
    if i < 0 {
        -1
    } else if occurs_at(s, p, i) {
        i
    } else {
        rfind_upto(s, p, i - 1)
    }
}

/// The last position where `p` occurs in `s`, or -1 (`str::rfind`).
pub open spec fn rfind(s: Seq<char>, p: Seq<char>) -> int {
    rfind_upto(s, p, s.len() as int)
}

pub proof fn lemma_find_from_first(s: Seq<char>, p: Seq<char>, i: int, r: int)
    requires
        0 <= i <= r,
        first_occurrence(s, p, r),
    ensures
        find_from(s, p, i) == r,
    decreases r - i,
{
    if i < r {
        lemma_find_from_first(s, p, i + 1, r);
    }
}

pub proof fn lemma_find_from_found(s: Seq<char>, p: Seq<char>, i: int)
    requires
        0 <= i,
        find_from(s, p, i) >= 0,
    ensures
        occurs_at(s, p, find_from(s, p, i)),
        i <= find_from(s, p, i),
        forall|j: int| i <= j < find_from(s, p, i) ==> !occurs_at(s, p, j),
    decreases s.len() + 1 - i,
{
    if i <= s.len() && !occurs_at(s, p, i) {
        lemma_find_from_found(s, p, i + 1);
    }
}

pub proof fn lemma_find_from_reaches(s: Seq<char>, p: Seq<char>, k: int, i: int)
    requires
        0 <= k <= i,
        occurs_at(s, p, i),
    ensures
        k <= find_from(s, p, k) <= i,
    decreases i - k,
{
    if k < i && !occurs_at(s, p, k) {
        lemma_find_from_reaches(s, p, k + 1, i);
    }
}

pub proof fn lemma_find_from_none(s: Seq<char>, p: Seq<char>, i: int)
    requires
        0 <= i,
        !contains_seq(s, p),
    ensures
        find_from(s, p, i) == -1,
    decreases s.len() + 1 - i,
{
    if i <= s.len() {
        assert(!occurs_at(s, p, i));
        lemma_find_from_none(s, p, i + 1);
    }
}

pub proof fn lemma_rfind_upto_last(s: Seq<char>, p: Seq<char>, i: int, r: int)
    requires
        r <= i,
        last_occurrence(s, p, r),
    ensures
        rfind_upto(s, p, i) == r,
    decreases i - r,
{
    if r < i {
        lemma_rfind_upto_last(s, p, i - 1, r);
    }
}

pub proof fn lemma_rfind_upto_none(s: Seq<char>, p: Seq<char>, i: int)
    requires
        !contains_seq(s, p),
    ensures
        rfind_upto(s, p, i) == -1,
    decreases i + 1,
{
    if i >= 0 {
        assert(!occurs_at(s, p, i));
        lemma_rfind_upto_none(s, p, i - 1);
    }
}

/// `find(s@, p@)`, computed.
pub fn find_exec(s: &[char], p: &[char]) -> (res: Option<usize>)
    ensures
        match res {
            Some(i) => find(s@, p@) == i && occurs_at(s@, p@, i as int),
            None => find(s@, p@) == -1,
        },
{
    let r = find_seq(s, p);
    proof {
        match r {
            Some(i) => lemma_find_from_first(s@, p@, 0, i as int),
            None => lemma_find_from_none(s@, p@, 0),
        }
    }
    r
}

/// `rfind(s@, p@)`, computed.
pub fn rfind_exec(s: &[char], p: &[char]) -> (res: Option<usize>)
    ensures
        match res {
            Some(i) => rfind(s@, p@) == i && occurs_at(s@, p@, i as int),
            None => rfind(s@, p@) == -1,
        },
{
    let r = rfind_seq(s, p);
    proof {
        match r {
            Some(i) => lemma_rfind_upto_last(s@, p@, s@.len() as int, i as int),
            None => lemma_rfind_upto_none(s@, p@, s@.len() as int),
        }
    }
    r
}

/// The number of characters before the first `'\n'` of `s` (all of them when none).
pub open spec fn line_len(s: Seq<char>) -> int
    decreases s.len(),
{
    if s.len() == 0 || s[0] == '\n' {
        0
    } else {
        1 + line_len(s.drop_first())
    }
}

pub proof fn lemma_line_len_bounds(s: Seq<char>)
    ensures
        0 <= line_len(s) <= s.len(),
        line_len(s) < s.len() ==> s[line_len(s)] == '\n',
        forall|m: int| 0 <= m < line_len(s) ==> s[m] != '\n',
    decreases s.len(),
{
    if s.len() > 0 && s[0] != '\n' {
        lemma_line_len_bounds(s.drop_first());
        assert forall|m: int| 0 <= m < line_len(s) implies s[m] != '\n' by {
            if m > 0 {
                assert(s[m] == s.drop_first()[m - 1]);
            }
        }
    }
}

pub proof fn lemma_line_len(s: Seq<char>, e: int)
    requires
        0 <= e <= s.len(),
        e < s.len() ==> s[e] == '\n',
        forall|m: int| 0 <= m < e ==> s[m] != '\n',
    ensures
        line_len(s) == e,
    decreases e,
{
    if e > 0 {
        assert forall|m: int| 0 <= m < e - 1 implies s.drop_first()[m] != '\n' by {
            assert(s.drop_first()[m] == s[m + 1]);
        }
        lemma_line_len(s.drop_first(), e - 1);
    }
}

/// The lines of `s` as `str::lines` yields them: split at `'\n'`, a `'\r'` before the
/// `'\n'` dropped, and no final empty line after a trailing newline.
pub open spec fn lines(s: Seq<char>) -> Seq<Seq<char>>
    decreases s.len(),
{
    if s.len() == 0 {
        Seq::empty()
    } else {
        let k = line_len(s);
        proof {
            lemma_line_len_bounds(s);
        }
        if k >= s.len() {
            seq![s]
        } else {
            let line = if k > 0 && s[k - 1] == '\r' {
                s.take(k - 1)
            } else {
                s.take(k)
            };
            seq![line] + lines(s.skip(k + 1))
        }
    }
}

/// The index of the first `'\n'` in `s` at or after `from`, or `s.len()`.
pub fn line_end(s: &[char], from: usize) -> (e: usize)
    requires
        from <= s.len(),
    ensures
        from <= e <= s.len(),
        e < s.len() ==> s@[e as int] == '\n',
        forall|m: int| from <= m < e ==> s@[m] != '\n',
{
    let mut e = from;
    while e < s.len() && s[e] != '\n'
        invariant
            from <= e <= s.len(),
            forall|m: int| from <= m < e ==> s@[m] != '\n',
        decreases s.len() - e,
    {
        e = e + 1;
    }
    e
}

/// The lines of `s` (`str::lines`).
pub fn split_lines(s: &[char]) -> (res: Vec<Vec<char>>)
    ensures
        res@.map_values(|l: Vec<char>| l@) == lines(s@),
{
    let mut res: Vec<Vec<char>> = Vec::new();
    let mut from: usize = 0;
    assert(s@.skip(0) == s@);
    loop
        invariant_except_break
            from <= s.len(),
            lines(s@) == res@.map_values(|l: Vec<char>| l@) + lines(s@.skip(from as int)),
        ensures
            lines(s@) == res@.map_values(|l: Vec<char>| l@),
        decreases s.len() - from,
    {
        let ghost before = res@.map_values(|l: Vec<char>| l@);
        if from == s.len() {
            assert(s@.skip(from as int).len() == 0);
            assert(before + Seq::<Seq<char>>::empty() == before);
            break;
        }
        let e = line_end(s, from);
        let ghost t = s@.skip(from as int);
        proof {
            lemma_line_len(t, e - from);
            assert(t.take(e - from) == s@.subrange(from as int, e as int));
        }
        if e == s.len() {
            let line = slice_chars(s, from, e);
            res.push(line);
            proof {
                assert(t == s@.subrange(from as int, e as int));
                assert(res@.map_values(|l: Vec<char>| l@) == before.push(t));
                assert(lines(t) == seq![t]);
                assert(before + seq![t] == before.push(t));
            }
            break;
        }
        let stop = if e > from && s[e - 1] == '\r' {
            e - 1
        } else {
            e
        };
        let line = slice_chars(s, from, stop);
        proof {
            if e > from && s@[e - 1] == '\r' {
                assert(t[e - from - 1] == '\r');
                assert(t.take(e - from - 1) == s@.subrange(from as int, stop as int));
            }
            assert(t.skip(e - from + 1) == s@.skip(e + 1));
        }
        res.push(line);
        proof {
            assert(res@.map_values(|l: Vec<char>| l@) == before.push(line@));
            assert(before.push(line@) + lines(s@.skip(e + 1)) == before + (seq![line@] + lines(
                s@.skip(e + 1),
            )));
        }
        from = e + 1;
    }
    res
}

/// The value of a decimal digit string (most significant digit first).
pub open spec fn digits_value(s: Seq<char>) -> nat
    decreases s.len(),
{
    if s.len() == 0 {
        0
    } else {
        digits_value(s.drop_last()) * 10 + ((s.last() as u32) - ('0' as u32)) as nat
    }
}

/// `str::parse::<u64>`: an optional `+` followed by one or more ASCII digits whose value fits
/// in a `u64`.
pub open spec fn parse_u64(s: Seq<char>) -> Option<u64> {
    let d = if s.len() > 0 && s[0] == '+' {
        s.drop_first()
    } else {
        s
    };
    if d.len() > 0 && all_ascii_digits(d) && digits_value(d) <= u64::MAX {
        Some(digits_value(d) as u64)
    } else {
        None
    }
}

/// `str::parse::<u64>` on the characters of `s`.
pub fn parse_u64_exec(s: &[char]) -> (res: Option<u64>)
    ensures
        res == parse_u64(s@),
{
    let start: usize = if s.len() > 0 && s[0] == '+' {
        1
    } else {
        0
    };
    let ghost d = if s@.len() > 0 && s@[0] == '+' {
        s@.drop_first()
    } else {
        s@
    };
    proof {
        assert(d == s@.skip(start as int));
    }
    if start >= s.len() {
        return None;
    }
    let mut v: u64 = 0;
    let mut i = start;
    while i < s.len()
        invariant
            start <= i <= s.len(),
            d == s@.skip(start as int),
            d == (if s@.len() > 0 && s@[0] == '+' {
                s@.drop_first()
            } else {
                s@
            }),
            d.len() > 0,
            all_ascii_digits(s@.subrange(start as int, i as int)),
            v as nat == digits_value(s@.subrange(start as int, i as int)),
        decreases s.len() - i,
    {
        let c = s[i];
        proof {
            let pre = s@.subrange(start as int, i + 1);
            assert(pre.drop_last() == s@.subrange(start as int, i as int));
            assert(pre.last() == c);
        }
        if !('0' <= c && c <= '9') {
            proof {
                assert(d[i - start] == c);
                assert(!all_ascii_digits(d));
            }
            return None;
        }
        let dv = (c as u32 - '0' as u32) as u64;
        if v > (u64::MAX - dv) / 10 {
            proof {
                // the remaining digits only make the value larger
                lemma_digits_value_prefix_le(d, i - start + 1);
                assert(d.take(i - start + 1) == s@.subrange(start as int, i + 1));
                assert(digits_value(s@.subrange(start as int, i + 1)) == v * 10 + dv);
                assert(v * 10 + dv > u64::MAX) by (nonlinear_arith)
                    requires
                        v > (u64::MAX - dv) / 10,
                        dv <= 9,
                ;
                assert(all_ascii_digits(d) ==> digits_value(d) > u64::MAX);
            }
            return None;
        }
        v = v * 10 + dv;
        i = i + 1;
    }
    proof {
        assert(s@.subrange(start as int, s.len() as int) == d);
    }
    Some(v)
}

/// A digit string's value is at least that of any of its prefixes times a power of ten;
/// here: at least that of a prefix.
pub proof fn lemma_digits_value_prefix_le(d: Seq<char>, n: int)
    requires
        0 <= n <= d.len(),
    ensures
        all_ascii_digits(d) ==> digits_value(d) >= digits_value(d.take(n)),
    decreases d.len() - n,
{
    if n < d.len() {
        lemma_digits_value_prefix_le(d, n + 1);
        let t = d.take(n + 1);
        assert(t.drop_last() == d.take(n));
        if all_ascii_digits(d) {
            assert('0' <= t.last());
            assert(digits_value(t) >= digits_value(d.take(n))) by (nonlinear_arith)
                requires
                    digits_value(t) == digits_value(d.take(n)) * 10 + ((t.last() as u32) - (
                    '0' as u32)) as nat,
            ;
        }
    } else {
        assert(d.take(n) == d);
    }
}

/// The decimal representation of `n` (what `Display` prints for an unsigned integer).
pub open spec fn decimal(n: nat) -> Seq<char>
    decreases n,
{
    if n < 10 {
        seq![((n as u32) + ('0' as u32)) as char]
    } else {
        decimal(n / 10).push((((n % 10) as u32) + ('0' as u32)) as char)
    }
}

/// The decimal representation of `n`.
pub fn decimal_exec(n: u64) -> (res: Vec<char>)
    ensures
        res@ == decimal(n as nat),
    decreases n,
{
    if n < 10 {
        let c = ((n as u32) + ('0' as u32)) as u8 as char;
        assert(c == ((n as u32) + ('0' as u32)) as char);
        let mut v: Vec<char> = Vec::new();
        v.push(c);
        v
    } else {
        let mut v = decimal_exec(n / 10);
        let c = (((n % 10) as u32) + ('0' as u32)) as u8 as char;
        assert(c == (((n % 10) as u32) + ('0' as u32)) as char);
        v.push(c);
        v
    }
}

/// Lexicographic order of character sequences by code point (the order of `str`, which
/// compares UTF-8 bytes).
pub open spec fn lex_le(a: Seq<char>, b: Seq<char>) -> bool
    decreases a.len(),
{
    if a.len() == 0 {
        true
    } else if b.len() == 0 {
        false
    } else if a[0] != b[0] {
        (a[0] as int) < (b[0] as int)
    } else {
        lex_le(a.drop_first(), b.drop_first())
    }
}

/// `lex_le(a@, b@)`, computed.
pub fn lex_le_exec(a: &[char], b: &[char]) -> (res: bool)
    ensures
        res == lex_le(a@, b@),
{
    let mut i: usize = 0;
    assert(a@.skip(0) == a@ && b@.skip(0) == b@);
    loop
        invariant
            i <= a.len(),
            i <= b.len(),
            lex_le(a@, b@) == lex_le(a@.skip(i as int), b@.skip(i as int)),
        decreases a.len() - i,
    {
        if i == a.len() {
            return true;
        }
        if i == b.len() {
            return false;
        }
        if a[i] != b[i] {
            return a[i] < b[i];
        }
        assert(a@.skip(i as int).drop_first() == a@.skip(i + 1));
        assert(b@.skip(i as int).drop_first() == b@.skip(i + 1));
        i = i + 1;
    }
}


/// Any two character sequences are ordered one way or the other.
pub proof fn lemma_lex_total(a: Seq<char>, b: Seq<char>)
    ensures
        lex_le(a, b) || lex_le(b, a),
    decreases a.len(),
{
    if a.len() > 0 && b.len() > 0 {
        if a[0] == b[0] {
            lemma_lex_total(a.drop_first(), b.drop_first());
        } else {
            assert(a[0] as int != b[0] as int);
        }
    }
}

/// The order of character sequences is transitive.
pub proof fn lemma_lex_trans(a: Seq<char>, b: Seq<char>, c: Seq<char>)
    requires
        lex_le(a, b),
        lex_le(b, c),
    ensures
        lex_le(a, c),
    decreases a.len(),
{
    if a.len() > 0 && b.len() > 0 && c.len() > 0 && a[0] == b[0] && b[0] == c[0] {
        lemma_lex_trans(a.drop_first(), b.drop_first(), c.drop_first());
    }
}

/// The number of bytes of the UTF-8 encoding of `c`.
pub open spec fn utf8_char_len(c: char) -> nat {
    let n = c as u32;
    if n < 0x80 {
        1
    } else if n < 0x800 {
        2
    } else if n < 0x10000 {
        3
    } else {
        4
    }
}

/// The number of bytes of the UTF-8 encoding of `s` (what `str::len` returns).
pub open spec fn utf8_len(s: Seq<char>) -> nat
    decreases s.len(),
{
    if s.len() == 0 {
        0
    } else {
        utf8_len(s.drop_last()) + utf8_char_len(s.last())
    }
}

/// `utf8_len(s@)` modulo four, which is all the base64 padding needs.
pub fn utf8_len_exec(s: &[char]) -> (res: usize)
    ensures
        res as nat == utf8_len(s@) % 4,
{
    let mut n: usize = 0;
    let mut i: usize = 0;
    while i < s.len()
        invariant
            i <= s.len(),
            n < 4,
            n as nat == utf8_len(s@.take(i as int)) % 4,
        decreases s.len() - i,
    {
        proof {
            let t = s@.take(i + 1);
            assert(t.drop_last() == s@.take(i as int));
            assert(t.last() == s@[i as int]);
        }
        let c = s[i] as u32;
        let w: usize = if c < 0x80 {
            1
        } else if c < 0x800 {
            2
        } else if c < 0x10000 {
            3
        } else {
            4
        };
        proof {
            let u = utf8_len(s@.take(i as int));
            assert((u % 4 + w) % 4 == (u + w) % 4) by (nonlinear_arith)
                requires
                    u >= 0,
                    w >= 0,
            ;
        }
        n = (n + w) % 4;
        i = i + 1;
    }
    assert(s@.take(s@.len() as int) == s@);
    n
}

} // verus!
