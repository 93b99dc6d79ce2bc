//! Character classification and string-trimming helpers shared by the
//! parser, the substitution engine and the session state model.
//!
//! Whitespace here is ASCII whitespace (space, and the controls from tab
//! through carriage return), and identifier ("word") characters are ASCII
//! letters, digits and `_`.

use vstd::prelude::*;

verus! {

/// ASCII whitespace, the set the request-file grammar trims and splits on.
pub open spec fn spec_is_space(c: char) -> bool {
    c == ' ' || c == '\t' || c == '\n' || c == '\x0b' || c == '\x0c' || c == '\r'
}

/// Executable twin of [`spec_is_space`].
#[verifier::when_used_as_spec(spec_is_space)]
pub fn is_space(c: char) -> (r: bool)
    ensures
        r == spec_is_space(c),
{
    c == ' ' || c == '\t' || c == '\n' || c == '\x0b' || c == '\x0c' || c == '\r'
}

/// Word characters admitted inside a `{{name}}` placeholder.
pub open spec fn spec_is_word_char(c: char) -> bool {
    ('a' <= c && c <= 'z') || ('A' <= c && c <= 'Z') || ('0' <= c && c <= '9') || c == '_'
}

/// Executable twin of [`spec_is_word_char`].
#[verifier::when_used_as_spec(spec_is_word_char)]
pub fn is_word_char(c: char) -> (r: bool)
    ensures
        r == spec_is_word_char(c),
{
    ('a' <= c && c <= 'z') || ('A' <= c && c <= 'Z') || ('0' <= c && c <= '9') || c == '_'
}

/// The sequence with its leading whitespace removed.
pub open spec fn spec_trim_start(s: Seq<char>) -> Seq<char>
    decreases s.len(),
{
    if s.len() > 0 && spec_is_space(s[0]) {
        spec_trim_start(s.drop_first())
    } else {
        s
    }
}

/// The sequence with its trailing whitespace removed.
pub open spec fn spec_trim_end(s: Seq<char>) -> Seq<char>
    decreases s.len(),
{
    if s.len() > 0 && spec_is_space(s.last()) {
        spec_trim_end(s.drop_last())
    } else {
        s
    }
}

/// The sequence with whitespace removed from both ends.
pub open spec fn spec_trim(s: Seq<char>) -> Seq<char> {
    spec_trim_end(spec_trim_start(s))
}

/// A run of leading whitespace ends at the first non-space character:
/// trimming the front is the same as cutting at that index.
pub proof fn lemma_trim_start_at(s: Seq<char>, a: int)
    requires
        0 <= a <= s.len(),
        forall|i: int| 0 <= i < a ==> spec_is_space(s[i]),
        a < s.len() ==> !spec_is_space(s[a]),
    ensures
        spec_trim_start(s) == s.subrange(a, s.len() as int),
    decreases a,
{
    if a == 0 {
        assert(s.subrange(0, s.len() as int) =~= s);
    } else {
        let t = s.drop_first();
        assert(t =~= s.subrange(1, s.len() as int));
        lemma_trim_start_at(t, a - 1);
        assert(t.subrange(a - 1, t.len() as int) =~= s.subrange(a, s.len() as int));
    }
}

/// A run of trailing whitespace starts after the last non-space character:
/// trimming the back is the same as cutting at that index.
pub proof fn lemma_trim_end_at(s: Seq<char>, b: int)
    requires
        0 <= b <= s.len(),
        forall|i: int| b <= i < s.len() ==> spec_is_space(s[i]),
        b > 0 ==> !spec_is_space(s[b - 1]),
    ensures
        spec_trim_end(s) == s.subrange(0, b),
    decreases s.len() - b,
{
    if b == s.len() {
        assert(s.subrange(0, s.len() as int) =~= s);
    } else {
        let t = s.drop_last();
        assert(t =~= s.subrange(0, s.len() - 1));
        lemma_trim_end_at(t, b);
        assert(t.subrange(0, b) =~= s.subrange(0, b));
    }
}

/// A trimmed sequence neither starts nor ends with whitespace.
pub proof fn lemma_trim_end_no_trailing_space(s: Seq<char>)
    ensures
        spec_trim_end(s).len() > 0 ==> !spec_is_space(spec_trim_end(s).last()),
        spec_trim_end(s).len() <= s.len(),
    decreases s.len(),
{
    if s.len() > 0 && spec_is_space(s.last()) {
        lemma_trim_end_no_trailing_space(s.drop_last());
    }
}

/// The whole string trimmed at the right end, as `str::trim_end` computes it.
pub fn trim_end(s: &str) -> (r: &str)
    ensures
        r@ == spec_trim_end(s@),
{
    let n = s.unicode_len();
    let mut b: usize = n;
    while b > 0 && is_space(s.get_char(b - 1))
        invariant
            0 <= b <= n,
            n == s@.len(),
            forall|i: int| b <= i < n ==> spec_is_space(s@[i]),
        decreases b,
    {
        b = b - 1;
    }
    proof {
        lemma_trim_end_at(s@, b as int);
    }
    s.substring_char(0, b)
}

/// The whole string trimmed at both ends, as `str::trim` computes it.
pub fn trim(s: &str) -> (r: &str)
    ensures
        r@ == spec_trim(s@),
{
    let n = s.unicode_len();
    let mut a: usize = 0;
    while a < n && is_space(s.get_char(a))
        invariant
            0 <= a <= n,
            n == s@.len(),
            forall|i: int| 0 <= i < a ==> spec_is_space(s@[i]),
        decreases n - a,
    {
        a = a + 1;
    }
    proof {
        lemma_trim_start_at(s@, a as int);
    }
    let mut b: usize = n;
    while b > a && is_space(s.get_char(b - 1))
        invariant
            a <= b <= n,
            n == s@.len(),
            forall|i: int| 0 <= i < a ==> spec_is_space(s@[i]),
            forall|i: int| b <= i < n ==> spec_is_space(s@[i]),
        decreases b,
    {
        b = b - 1;
    }
    proof {
        let t = s@.subrange(a as int, n as int);
        assert(forall|i: int| (b - a) <= i < t.len() ==> spec_is_space(t[i]));
        lemma_trim_end_at(t, b - a);
        assert(t.subrange(0, b - a) =~= s@.subrange(a as int, b as int));
    }
    s.substring_char(a, b)
}

/// First index at or after `i` holding `c`, or the length if there is none.
pub open spec fn spec_find(s: Seq<char>, i: int, c: char) -> int
    decreases s.len() - i,
{
    if i < 0 || i >= s.len() {
        s.len() as int
    } else if s[i] == c {
        i
    } else {
        spec_find(s, i + 1, c)
    }
}

pub proof fn lemma_spec_find(s: Seq<char>, i: int, c: char)
    requires
        0 <= i <= s.len(),
    ensures
        i <= spec_find(s, i, c) <= s.len(),
        spec_find(s, i, c) < s.len() ==> s[spec_find(s, i, c)] == c,
        forall|j: int| i <= j < spec_find(s, i, c) ==> s[j] != c,
    decreases s.len() - i,
{
    if i < s.len() && s[i] != c {
        lemma_spec_find(s, i + 1, c);
    }
}

/// Scans `s` from `from` for the character `c`.
pub fn find_char(s: &str, from: usize, c: char) -> (r: usize)
    requires
        from <= s@.len(),
    ensures
        r == spec_find(s@, from as int, c),
{
    let n = s.unicode_len();
    let mut i: usize = from;
    while i < n && s.get_char(i) != c
        invariant
            from <= i <= n,
            n == s@.len(),
            spec_find(s@, from as int, c) == spec_find(s@, i as int, c),
        decreases n - i,
    {
        i = i + 1;
    }
    i
}

/// First index at or after `i` whose character is not whitespace.
pub open spec fn spec_skip_spaces(s: Seq<char>, i: int) -> int
    decreases s.len() - i,
{
    if i < 0 || i >= s.len() {
        s.len() as int
    } else if spec_is_space(s[i]) {
        spec_skip_spaces(s, i + 1)
    } else {
        i
    }
}

pub proof fn lemma_spec_skip_spaces(s: Seq<char>, i: int)
    requires
        0 <= i <= s.len(),
    ensures
        i <= spec_skip_spaces(s, i) <= s.len(),
        spec_skip_spaces(s, i) < s.len() ==> !spec_is_space(s[spec_skip_spaces(s, i)]),
        forall|j: int| i <= j < spec_skip_spaces(s, i) ==> spec_is_space(s[j]),
    decreases s.len() - i,
{
    if i < s.len() && spec_is_space(s[i]) {
        lemma_spec_skip_spaces(s, i + 1);
    }
}

/// First index at or after `i` whose character is whitespace.
pub open spec fn spec_skip_token(s: Seq<char>, i: int) -> int
    decreases s.len() - i,
{
    if i < 0 || i >= s.len() {
        s.len() as int
    } else if !spec_is_space(s[i]) {
        spec_skip_token(s, i + 1)
    } else {
        i
    }
}

pub proof fn lemma_spec_skip_token(s: Seq<char>, i: int)
    requires
        0 <= i <= s.len(),
    ensures
        i <= spec_skip_token(s, i) <= s.len(),
        spec_skip_token(s, i) < s.len() ==> spec_is_space(s[spec_skip_token(s, i)]),
        forall|j: int| i <= j < spec_skip_token(s, i) ==> !spec_is_space(s[j]),
    decreases s.len() - i,
{
    if i < s.len() && !spec_is_space(s[i]) {
        lemma_spec_skip_token(s, i + 1);
    }
}

/// Scans `s` from `from` past whitespace.
pub fn skip_spaces(s: &str, from: usize) -> (r: usize)
    requires
        from <= s@.len(),
    ensures
        r == spec_skip_spaces(s@, from as int),
{
    let n = s.unicode_len();
    let mut i: usize = from;
    while i < n && is_space(s.get_char(i))
        invariant
            from <= i <= n,
            n == s@.len(),
            spec_skip_spaces(s@, from as int) == spec_skip_spaces(s@, i as int),
        decreases n - i,
    {
        i = i + 1;
    }
    i
}

/// Scans `s` from `from` past non-whitespace.
pub fn skip_token(s: &str, from: usize) -> (r: usize)
    requires
        from <= s@.len(),
    ensures
        r == spec_skip_token(s@, from as int),
{
    let n = s.unicode_len();
    let mut i: usize = from;
    while i < n && !is_space(s.get_char(i))
        invariant
            from <= i <= n,
            n == s@.len(),
            spec_skip_token(s@, from as int) == spec_skip_token(s@, i as int),
        decreases n - i,
    {
        i = i + 1;
    }
    i
}

/// First index at or after `i` whose character is not `c`.
pub open spec fn spec_skip_run(s: Seq<char>, i: int, c: char) -> int
    decreases s.len() - i,
{
    if i < 0 || i >= s.len() {
        s.len() as int
    } else if s[i] == c {
        spec_skip_run(s, i + 1, c)
    } else {
        i
    }
}

pub proof fn lemma_spec_skip_run(s: Seq<char>, i: int, c: char)
    requires
        0 <= i <= s.len(),
    ensures
        i <= spec_skip_run(s, i, c) <= s.len(),
        spec_skip_run(s, i, c) < s.len() ==> s[spec_skip_run(s, i, c)] != c,
        forall|j: int| i <= j < spec_skip_run(s, i, c) ==> s[j] == c,
    decreases s.len() - i,
{
    if i < s.len() && s[i] == c {
        lemma_spec_skip_run(s, i + 1, c);
    }
}

/// A search that sees no `c` before `e`, and `c` at `e` (or runs off the
/// end), stops at `e`.
pub proof fn lemma_find_at(s: Seq<char>, i: int, e: int, c: char)
    requires
        0 <= i <= e <= s.len(),
        forall|j: int| i <= j < e ==> s[j] != c,
        e < s.len() ==> s[e] == c,
    ensures
        spec_find(s, i, c) == e,
    decreases e - i,
{
    if i < e {
        lemma_find_at(s, i + 1, e, c);
    }
}

/// A scan over whitespace up to a non-space at `e` (or the end) stops at
/// `e`.
pub proof fn lemma_skip_spaces_at(s: Seq<char>, i: int, e: int)
    requires
        0 <= i <= e <= s.len(),
        forall|j: int| i <= j < e ==> spec_is_space(s[j]),
        e < s.len() ==> !spec_is_space(s[e]),
    ensures
        spec_skip_spaces(s, i) == e,
    decreases e - i,
{
    if i < e {
        lemma_skip_spaces_at(s, i + 1, e);
    }
}

/// A scan over non-whitespace up to a space at `e` (or the end) stops at
/// `e`.
pub proof fn lemma_skip_token_at(s: Seq<char>, i: int, e: int)
    requires
        0 <= i <= e <= s.len(),
        forall|j: int| i <= j < e ==> !spec_is_space(s[j]),
        e < s.len() ==> spec_is_space(s[e]),
    ensures
        spec_skip_token(s, i) == e,
    decreases e - i,
{
    if i < e {
        lemma_skip_token_at(s, i + 1, e);
    }
}

/// A scan over a run of `c` up to a different character at `e` (or the
/// end) stops at `e`.
pub proof fn lemma_skip_run_at(s: Seq<char>, i: int, e: int, c: char)
    requires
        0 <= i <= e <= s.len(),
        forall|j: int| i <= j < e ==> s[j] == c,
        e < s.len() ==> s[e] != c,
    ensures
        spec_skip_run(s, i, c) == e,
    decreases e - i,
{
    if i < e {
        lemma_skip_run_at(s, i + 1, e, c);
    }
}

/// Trimming a sequence of whitespace alone leaves nothing.
pub proof fn lemma_trim_all_space(s: Seq<char>)
    requires
        forall|i: int| 0 <= i < s.len() ==> spec_is_space(s[i]),
    ensures
        spec_trim(s).len() == 0,
{
    lemma_trim_start_at(s, s.len() as int);
    assert(spec_trim_start(s) =~= Seq::<char>::empty());
}

/// Scans `s` from `from` past a run of the character `c`.
pub fn skip_run(s: &str, from: usize, c: char) -> (r: usize)
    requires
        from <= s@.len(),
    ensures
        r == spec_skip_run(s@, from as int, c),
{
    let n = s.unicode_len();
    let mut i: usize = from;
    while i < n && s.get_char(i) == c
        invariant
            from <= i <= n,
            n == s@.len(),
            spec_skip_run(s@, from as int, c) == spec_skip_run(s@, i as int, c),
        decreases n - i,
    {
        i = i + 1;
    }
    i
}

} // verus!
