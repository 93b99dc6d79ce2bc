//! The request-file parser: a line-oriented, one-pass scan that turns file
//! text into an ordered list of requests plus a variable table.
//!
//! Parsing is lenient: malformed lines are dropped, never an error. Each
//! line is right-trimmed, then the first matching rule applies: a variable
//! line `@name = value` (recognized anywhere in the file); a `###`
//! separator that finalizes the open request and names the next; a `#` or
//! `//` comment; a blank line (ends the header section of an open
//! request, or is a blank body line); a request line `METHOD URL` when no
//! request is open; a `Key: value` header while headers are being
//! collected; otherwise a body line.

use vstd::prelude::*;

use crate::chars::{
    find_char, lemma_spec_find, lemma_spec_skip_run, lemma_spec_skip_spaces, lemma_spec_skip_token,
    skip_run, skip_spaces, skip_token, spec_find, spec_is_space, spec_skip_run, spec_skip_spaces,
    spec_skip_token, spec_trim, spec_trim_end, trim, trim_end,
};
use crate::error::ParseError;
use crate::request::{Method, Request, RequestView};
use crate::strmap::{assoc_get, assoc_insert, assoc_unique, lemma_assoc_insert, StrMap};

verus! {

/// The lines of `s` from position `i` on, split at `'\n'`; a trailing
/// newline does not open an extra empty line, as `str::lines` has it.
pub open spec fn lines_from(s: Seq<char>, i: int) -> Seq<Seq<char>>
    decreases s.len() - i,
    via lines_from_decreases
{
    if i < 0 || i >= s.len() {
        Seq::empty()
    } else {
        let j = spec_find(s, i, '\n');
        if j >= s.len() {
            seq![s.subrange(i, s.len() as int)]
        } else {
            seq![s.subrange(i, j)] + lines_from(s, j + 1)
        }
    }
}

#[via_fn]
proof fn lines_from_decreases(s: Seq<char>, i: int) {
    if 0 <= i < s.len() {
        lemma_spec_find(s, i, '\n');
    }
}

/// The lines of a whole text.
pub open spec fn spec_lines(s: Seq<char>) -> Seq<Seq<char>> {
    lines_from(s, 0)
}

/// A variable line `@name = value`: `@`, then a name up to the first `=`
/// (trimmed, must be nonempty), then the value (trimmed).
pub open spec fn spec_try_variable(l: Seq<char>) -> Option<(Seq<char>, Seq<char>)> {
    if l.len() == 0 || l[0] != '@' {
        None
    } else {
        let e = spec_find(l, 1, '=');
        if e >= l.len() {
            None
        } else {
            let name = spec_trim(l.subrange(1, e));
            let value = spec_trim(l.subrange(e + 1, l.len() as int));
            if name.len() == 0 {
                None
            } else {
                Some((name, value))
            }
        }
    }
}

/// A header line `Key: value`: split at the first colon, both sides
/// trimmed; a key containing a space is not a header.
pub open spec fn spec_try_header(l: Seq<char>) -> Option<(Seq<char>, Seq<char>)> {
    let c = spec_find(l, 0, ':');
    if c >= l.len() {
        None
    } else {
        let key = spec_trim(l.subrange(0, c));
        let value = spec_trim(l.subrange(c + 1, l.len() as int));
        if key.contains(' ') {
            None
        } else {
            Some((key, value))
        }
    }
}

/// A request line: the first whitespace-separated token names a method
/// (case-insensitively), the second is the URL; further tokens are
/// ignored. Fewer than two tokens, or an unknown method, is no request
/// line.
pub open spec fn spec_request_line(l: Seq<char>) -> Option<(Method, Seq<char>)> {
    let a1 = spec_skip_spaces(l, 0);
    let b1 = spec_skip_token(l, a1);
    let a2 = spec_skip_spaces(l, b1);
    let b2 = spec_skip_token(l, a2);
    if a1 >= l.len() || a2 >= l.len() {
        None
    } else {
        match Method::spec_of_token(l.subrange(a1, b1)) {
            Some(m) => Some((m, l.subrange(a2, b2))),
            None => None,
        }
    }
}

/// A request-separator line: three or more leading `#`.
pub open spec fn is_separator(l: Seq<char>) -> bool {
    l.len() >= 3 && l[0] == '#' && l[1] == '#' && l[2] == '#'
}

/// A comment line: `#` or `//` first (separators are matched earlier).
pub open spec fn is_comment(l: Seq<char>) -> bool {
    (l.len() >= 1 && l[0] == '#') || (l.len() >= 2 && l[0] == '/' && l[1] == '/')
}

/// The display name on a separator line: the text after the leading run
/// of `#`, trimmed; empty means no name.
pub open spec fn separator_name(l: Seq<char>) -> Option<Seq<char>> {
    let k = spec_skip_run(l, 0, '#');
    let name = spec_trim(l.subrange(k, l.len() as int));
    if name.len() == 0 {
        None
    } else {
        Some(name)
    }
}

/// The mathematical shape of a request under construction.
#[verifier::ext_equal]
pub struct BuilderView {
    pub name: Option<Seq<char>>,
    pub method: Method,
    pub url: Seq<char>,
    /// Header lines in order of appearance, repeats kept.
    pub headers: Seq<(Seq<char>, Seq<char>)>,
    /// Body lines in order of appearance, each right-trimmed.
    pub body_lines: Seq<Seq<char>>,
    /// Whether the one-way headers-to-body transition has happened.
    pub headers_done: bool,
}

/// A request under construction: its request line, collected header lines
/// and collected body lines.
#[derive(Debug)]
pub struct RequestBuilder {
    pub name: Option<String>,
    pub method: Method,
    pub url: String,
    pub headers: Vec<(String, String)>,
    pub body_lines: Vec<String>,
    pub headers_done: bool,
}

impl View for RequestBuilder {
    type V = BuilderView;

    open spec fn view(&self) -> BuilderView {
        BuilderView {
            name: match self.name {
                Some(n) => Some(n@),
                None => None,
            },
            method: self.method,
            url: self.url@,
            headers: self.headers@.map_values(|p: (String, String)| (p.0@, p.1@)),
            body_lines: self.body_lines@.map_values(|b: String| b@),
            headers_done: self.headers_done,
        }
    }
}

/// `m` after binding every pair of `pairs` in order; a repeated key ends
/// up with its last value.
pub open spec fn insert_all(
    m: Seq<(Seq<char>, Seq<char>)>,
    pairs: Seq<(Seq<char>, Seq<char>)>,
) -> Seq<(Seq<char>, Seq<char>)>
    decreases pairs.len(),
{
    if pairs.len() == 0 {
        m
    } else {
        insert_all(assoc_insert(m, pairs[0].0, pairs[0].1), pairs.drop_first())
    }
}

/// Folding one more pair is one more insert.
pub proof fn lemma_insert_all_snoc(
    m: Seq<(Seq<char>, Seq<char>)>,
    pairs: Seq<(Seq<char>, Seq<char>)>,
    p: (Seq<char>, Seq<char>),
)
    ensures
        insert_all(m, pairs.push(p)) == assoc_insert(insert_all(m, pairs), p.0, p.1),
    decreases pairs.len(),
{
    if pairs.len() == 0 {
        assert(pairs.push(p)[0] == p);
        assert(pairs.push(p).drop_first() =~= Seq::<(Seq<char>, Seq<char>)>::empty());
        assert(insert_all(assoc_insert(m, p.0, p.1), Seq::<(Seq<char>, Seq<char>)>::empty())
            == assoc_insert(m, p.0, p.1));
        assert(insert_all(m, pairs) == m);
    } else {
        assert(pairs.push(p)[0] == pairs[0]);
        assert(pairs.push(p).drop_first() =~= pairs.drop_first().push(p));
        lemma_insert_all_snoc(assoc_insert(m, pairs[0].0, pairs[0].1), pairs.drop_first(), p);
        assert(insert_all(m, pairs) == insert_all(
            assoc_insert(m, pairs[0].0, pairs[0].1),
            pairs.drop_first(),
        ));
        assert(insert_all(m, pairs.push(p)) == insert_all(
            assoc_insert(m, pairs[0].0, pairs[0].1),
            pairs.drop_first().push(p),
        ));
    }
}

/// Folding inserts into a unique-keyed map keeps the keys unique.
pub proof fn lemma_insert_all_unique(
    m: Seq<(Seq<char>, Seq<char>)>,
    pairs: Seq<(Seq<char>, Seq<char>)>,
)
    requires
        assoc_unique(m),
    ensures
        assoc_unique(insert_all(m, pairs)),
    decreases pairs.len(),
{
    if pairs.len() > 0 {
        lemma_assoc_insert(m, pairs[0].0, pairs[0].1);
        lemma_insert_all_unique(assoc_insert(m, pairs[0].0, pairs[0].1), pairs.drop_first());
    }
}

/// The lines joined with `'\n'` between them.
pub open spec fn join_lines(lines: Seq<Seq<char>>) -> Seq<char>
    decreases lines.len(),
{
    if lines.len() == 0 {
        Seq::empty()
    } else if lines.len() == 1 {
        lines[0]
    } else {
        lines[0] + seq!['\n'] + join_lines(lines.drop_first())
    }
}

/// Joining one more line appends a separator and the line.
pub proof fn lemma_join_snoc(lines: Seq<Seq<char>>, l: Seq<char>)
    ensures
        join_lines(lines.push(l)) == if lines.len() == 0 {
            l
        } else {
            join_lines(lines) + seq!['\n'] + l
        },
    decreases lines.len(),
{
    if lines.len() == 0 {
        assert(lines.push(l)[0] =~= l);
    } else {
        assert(lines.push(l).drop_first() =~= lines.drop_first().push(l));
        lemma_join_snoc(lines.drop_first(), l);
        if lines.len() == 1 {
            assert(lines.drop_first() =~= Seq::<Seq<char>>::empty());
            assert(join_lines(lines.push(l)) =~= lines[0] + seq!['\n'] + l);
        } else {
            assert(join_lines(lines.push(l)) =~= join_lines(lines) + seq!['\n'] + l);
        }
    }
}

/// The finalized body: lines joined with `'\n'` and trimmed at both ends;
/// an empty result means no body.
pub open spec fn spec_body(body_lines: Seq<Seq<char>>) -> Option<Seq<char>> {
    let b = spec_trim(join_lines(body_lines));
    if b.len() == 0 {
        None
    } else {
        Some(b)
    }
}

/// The request a finished builder denotes.
pub open spec fn spec_build(b: BuilderView) -> RequestView {
    RequestView {
        name: b.name,
        method: b.method,
        url: b.url,
        headers: insert_all(Seq::empty(), b.headers),
        body: spec_body(b.body_lines),
    }
}

/// The parser's whole state between lines.
#[verifier::ext_equal]
pub struct ParseStateView {
    /// Finalized requests, in file order.
    pub requests: Seq<RequestView>,
    /// The variable table so far.
    pub vars: Seq<(Seq<char>, Seq<char>)>,
    /// A display name waiting for its request line.
    pub pending: Option<Seq<char>>,
    /// The request currently being collected, if any.
    pub cur: Option<BuilderView>,
}

/// The state before any line.
pub open spec fn init_state() -> ParseStateView {
    ParseStateView {
        requests: Seq::empty(),
        vars: Seq::empty(),
        pending: None,
        cur: None,
    }
}

/// The request list with the open request finalized onto it.
pub open spec fn spec_emit(st: ParseStateView) -> Seq<RequestView> {
    match st.cur {
        Some(b) => st.requests.push(spec_build(b)),
        None => st.requests,
    }
}

/// One line of the scan: the rules of the grammar in priority order,
/// applied to the right-trimmed line.
pub open spec fn spec_step(st: ParseStateView, raw: Seq<char>) -> ParseStateView {
    let l = spec_trim_end(raw);
    if spec_try_variable(l) is Some {
        let p = spec_try_variable(l)->Some_0;
        ParseStateView { vars: assoc_insert(st.vars, p.0, p.1), ..st }
    } else if is_separator(l) {
        ParseStateView { requests: spec_emit(st), cur: None, pending: separator_name(l), ..st }
    } else if is_comment(l) {
        st
    } else if l.len() == 0 {
        match st.cur {
            Some(b) => ParseStateView {
                cur: Some(
                    if b.headers_done {
                        BuilderView { body_lines: b.body_lines.push(Seq::empty()), ..b }
                    } else {
                        BuilderView { headers_done: true, ..b }
                    },
                ),
                ..st
            },
            None => st,
        }
    } else if st.cur is None {
        // The pending name is consumed here whether or not the line parses
        // as a request line; a junk line drops it.
        match spec_request_line(l) {
            Some(p) => ParseStateView {
                cur: Some(
                    BuilderView {
                        name: st.pending,
                        method: p.0,
                        url: p.1,
                        headers: Seq::empty(),
                        body_lines: Seq::empty(),
                        headers_done: false,
                    },
                ),
                pending: None,
                ..st
            },
            None => ParseStateView { pending: None, ..st },
        }
    } else {
        let b = st.cur->Some_0;
        if !b.headers_done {
            match spec_try_header(l) {
                Some(h) => ParseStateView {
                    cur: Some(BuilderView { headers: b.headers.push(h), ..b }),
                    ..st
                },
                None => ParseStateView {
                    cur: Some(
                        BuilderView { headers_done: true, body_lines: b.body_lines.push(l), ..b },
                    ),
                    ..st
                },
            }
        } else {
            ParseStateView { cur: Some(BuilderView { body_lines: b.body_lines.push(l), ..b }), ..st }
        }
    }
}

/// The scan folded over a list of lines.
pub open spec fn spec_fold(st: ParseStateView, lines: Seq<Seq<char>>) -> ParseStateView
    decreases lines.len(),
{
    if lines.len() == 0 {
        st
    } else {
        spec_fold(spec_step(st, lines[0]), lines.drop_first())
    }
}

/// What parsing a whole text produces: the requests in file order (the
/// still-open request finalized at end of input) and the variable table.
pub open spec fn spec_parse(text: Seq<char>) -> (Seq<RequestView>, Seq<(Seq<char>, Seq<char>)>) {
    let st = spec_fold(init_state(), spec_lines(text));
    (spec_emit(st), st.vars)
}

/// The view of an optional owned string.
pub open spec fn opt_str_view(o: Option<String>) -> Option<Seq<char>> {
    match o {
        Some(s) => Some(s@),
        None => None,
    }
}

/// The parser state a set of executable locals stands for.
pub open spec fn exec_state_view(
    requests: Seq<Request>,
    vars: Seq<(Seq<char>, Seq<char>)>,
    pending: Option<String>,
    cur: Option<RequestBuilder>,
) -> ParseStateView {
    ParseStateView {
        requests: requests.map_values(|r: Request| r@),
        vars: vars,
        pending: opt_str_view(pending),
        cur: match cur {
            Some(b) => Some(b@),
            None => None,
        },
    }
}

/// The value the last pair with key `k` carries, if any pair has key `k`.
pub open spec fn last_value_of(pairs: Seq<(Seq<char>, Seq<char>)>, k: Seq<char>) -> Option<
    Seq<char>,
>
    decreases pairs.len(),
{
    if pairs.len() == 0 {
        None
    } else {
        match last_value_of(pairs.drop_first(), k) {
            Some(v) => Some(v),
            None => if pairs[0].0 == k {
                Some(pairs[0].1)
            } else {
                None
            },
        }
    }
}

/// Folding pairs into a map makes each key carry the value of its last
/// pair; keys with no pair keep their prior binding.
pub proof fn lemma_insert_all_get(
    m: Seq<(Seq<char>, Seq<char>)>,
    pairs: Seq<(Seq<char>, Seq<char>)>,
    k: Seq<char>,
)
    ensures
        assoc_get(insert_all(m, pairs), k) == match last_value_of(pairs, k) {
            Some(v) => Some(v),
            None => assoc_get(m, k),
        },
    decreases pairs.len(),
{
    if pairs.len() > 0 {
        let m1 = assoc_insert(m, pairs[0].0, pairs[0].1);
        lemma_insert_all_get(m1, pairs.drop_first(), k);
        lemma_assoc_insert(m, pairs[0].0, pairs[0].1);
    }
}

/// Repeated header keys: in a built request the later occurrence wins —
/// the header map binds each key to the value of its last header line,
/// and binds no other key.
pub proof fn lemma_header_last_wins(b: BuilderView, k: Seq<char>)
    ensures
        assoc_get(spec_build(b).headers, k) == last_value_of(b.headers, k),
{
    lemma_insert_all_get(Seq::empty(), b.headers, k);
    if last_value_of(b.headers, k) is None {
        assert(assoc_get(Seq::<(Seq<char>, Seq<char>)>::empty(), k) is None);
    }
}

/// The value of the last variable line for `k` among `lines`, if any.
pub open spec fn last_var_value(lines: Seq<Seq<char>>, k: Seq<char>) -> Option<Seq<char>>
    decreases lines.len(),
{
    if lines.len() == 0 {
        None
    } else {
        match last_var_value(lines.drop_first(), k) {
            Some(v) => Some(v),
            None => match spec_try_variable(spec_trim_end(lines[0])) {
                Some(p) => if p.0 == k {
                    Some(p.1)
                } else {
                    None
                },
                None => None,
            },
        }
    }
}

/// Only variable lines touch the variable table, and each leaves the key
/// it names bound to its value: after the fold, a key carries the value of
/// its last variable line, or its prior binding if no line names it.
pub proof fn lemma_fold_vars(st: ParseStateView, lines: Seq<Seq<char>>, k: Seq<char>)
    ensures
        assoc_get(spec_fold(st, lines).vars, k) == match last_var_value(lines, k) {
            Some(v) => Some(v),
            None => assoc_get(st.vars, k),
        },
    decreases lines.len(),
{
    if lines.len() > 0 {
        let st1 = spec_step(st, lines[0]);
        lemma_fold_vars(st1, lines.drop_first(), k);
        let l = spec_trim_end(lines[0]);
        match spec_try_variable(l) {
            Some(p) => {
                assert(st1.vars == assoc_insert(st.vars, p.0, p.1));
                lemma_assoc_insert(st.vars, p.0, p.1);
            },
            None => {
                assert(st1.vars == st.vars);
            },
        }
    }
}

/// Last assignment wins: in a parsed file's variable table each name is
/// bound to the value of the last `@name = value` line that defines it,
/// and a name no line defines is not bound.
pub proof fn lemma_variable_last_wins(text: Seq<char>, k: Seq<char>)
    ensures
        assoc_get(spec_parse(text).1, k) == last_var_value(spec_lines(text), k),
{
    lemma_fold_vars(init_state(), spec_lines(text), k);
    if last_var_value(spec_lines(text), k) is None {
        assert(assoc_get(Seq::<(Seq<char>, Seq<char>)>::empty(), k) is None);
    }
}

/// Joining blank lines yields newline characters only.
proof fn lemma_join_all_blank(lines: Seq<Seq<char>>)
    requires
        forall|i: int| 0 <= i < lines.len() ==> (#[trigger] lines[i]).len() == 0,
    ensures
        forall|i: int| 0 <= i < join_lines(lines).len() ==> crate::chars::spec_is_space(
            #[trigger] join_lines(lines)[i],
        ),
    decreases lines.len(),
{
    if lines.len() <= 1 {
    } else {
        lemma_join_all_blank(lines.drop_first());
        let j = join_lines(lines);
        assert(lines[0].len() == 0);
        assert forall|i: int| 0 <= i < j.len() implies crate::chars::spec_is_space(j[i]) by {
            if i == 0 {
                assert(j[0] == '\n');
            } else {
                assert(j[i] == join_lines(lines.drop_first())[i - 1]);
            }
        }
    }
}

/// A body of blank lines only — and in particular an empty one — is no
/// body: joining and trimming leaves nothing.
pub proof fn lemma_blank_body_is_none(lines: Seq<Seq<char>>)
    requires
        forall|i: int| 0 <= i < lines.len() ==> (#[trigger] lines[i]).len() == 0,
    ensures
        spec_body(lines) is None,
{
    lemma_join_all_blank(lines);
    crate::chars::lemma_trim_all_space(join_lines(lines));
}

/// A URL token as a request line carries it: nonempty, no whitespace.
pub open spec fn url_token(url: Seq<char>) -> bool {
    url.len() > 0 && forall|i: int| 0 <= i < url.len() ==> !spec_is_space(#[trigger] url[i])
}

/// A display name as a separator line carries it: nonempty, no whitespace
/// at either end, no line break inside.
pub open spec fn plain_name(name: Seq<char>) -> bool {
    &&& name.len() > 0
    &&& !spec_is_space(name[0])
    &&& !spec_is_space(name.last())
    &&& forall|i: int| 0 <= i < name.len() ==> name[i] != '\n'
}

/// The text of a request line `METHOD URL`.
pub open spec fn request_line_text(m: Method, url: Seq<char>) -> Seq<char> {
    m.spec_name() + seq![' '] + url
}

/// The text of a separator line `### NAME`.
pub open spec fn separator_line_text(name: Seq<char>) -> Seq<char> {
    "###"@ + seq![' '] + name
}

/// The request a bare request line under a pending name denotes.
pub open spec fn named_request(name: Option<Seq<char>>, m: Method, url: Seq<char>) -> RequestView {
    RequestView { name, method: m, url, headers: Seq::empty(), body: None }
}

/// A freshly opened builder finalizes to a request with no headers and no
/// body.
proof fn lemma_fresh_build(b: BuilderView)
    requires
        b.headers == Seq::<(Seq<char>, Seq<char>)>::empty(),
        b.body_lines == Seq::<Seq<char>>::empty(),
    ensures
        spec_build(b) == named_request(b.name, b.method, b.url),
{
    lemma_blank_body_is_none(b.body_lines);
    assert(insert_all(Seq::empty(), b.headers) == Seq::<(Seq<char>, Seq<char>)>::empty());
}

/// On a well-formed request line with no request open, the scan opens a
/// builder that takes the pending name, and clears the pending name.
proof fn lemma_step_request_line(st: ParseStateView, m: Method, url: Seq<char>)
    requires
        st.cur is None,
        url_token(url),
    ensures
        spec_step(st, request_line_text(m, url)) == (ParseStateView {
            cur: Some(
                BuilderView {
                    name: st.pending,
                    method: m,
                    url,
                    headers: Seq::empty(),
                    body_lines: Seq::empty(),
                    headers_done: false,
                },
            ),
            pending: None,
            ..st
        }),
{
    crate::request::lemma_method_name(m);
    let name = m.spec_name();
    let ln = name.len() as int;
    let l = request_line_text(m, url);
    let n = l.len() as int;
    assert(n == ln + 1 + url.len());
    assert(l[n - 1] == url[url.len() - 1]);
    assert(!spec_is_space(l[n - 1]));
    assert(spec_trim_end(l) == l);
    assert(l[0] == name[0]);
    assert(spec_try_variable(l) is None);
    assert(!is_separator(l));
    assert(!is_comment(l));
    assert forall|j: int| 0 <= j < ln implies !spec_is_space(l[j]) by {
        assert(l[j] == name[j]);
    }
    assert(l[ln] == ' ');
    crate::chars::lemma_skip_spaces_at(l, 0, 0);
    crate::chars::lemma_skip_token_at(l, 0, ln);
    crate::chars::lemma_skip_spaces_at(l, ln, ln + 1);
    assert forall|j: int| ln + 1 <= j < n implies !spec_is_space(l[j]) by {
        assert(l[j] == url[j - ln - 1]);
    }
    crate::chars::lemma_skip_token_at(l, ln + 1, n);
    assert(l.subrange(0, ln) =~= name);
    assert(l.subrange(ln + 1, n) =~= url);
    assert(spec_request_line(l) == Some((m, url)));
}

/// On a `### NAME` separator line, the scan finalizes the open request (if
/// any), closes it, and records the name for the next request line.
proof fn lemma_step_separator(st: ParseStateView, name: Seq<char>)
    requires
        plain_name(name),
    ensures
        spec_step(st, separator_line_text(name)) == (ParseStateView {
            requests: spec_emit(st),
            cur: None,
            pending: Some(name),
            vars: st.vars,
        }),
{
    reveal_strlit("###");
    let l = separator_line_text(name);
    let n = l.len() as int;
    assert(n == 4 + name.len());
    assert(l[n - 1] == name[name.len() - 1]);
    assert(!spec_is_space(l[n - 1]));
    assert(spec_trim_end(l) == l);
    assert(l[0] == '#');
    assert(l[1] == '#');
    assert(l[2] == '#');
    assert(l[3] == ' ');
    assert(spec_try_variable(l) is None);
    assert(is_separator(l));
    crate::chars::lemma_skip_run_at(l, 0, 3, '#');
    let t = l.subrange(3, n);
    assert(t =~= seq![' '] + name);
    assert(spec_is_space(t[0]));
    assert(!spec_is_space(t[1]));
    crate::chars::lemma_trim_start_at(t, 1);
    assert(t.subrange(1, t.len() as int) =~= name);
    assert(crate::chars::spec_trim_end(name) == name);
    assert(separator_name(l) == Some(name));
}

/// A single well-formed request line parses to exactly one request with
/// that method and URL — unnamed, with no headers, no body — and an empty
/// variable table.
pub proof fn lemma_single_request_line(m: Method, url: Seq<char>)
    requires
        url_token(url),
    ensures
        spec_parse(request_line_text(m, url)).0 == seq![named_request(None, m, url)],
        spec_parse(request_line_text(m, url)).1 == Seq::<(Seq<char>, Seq<char>)>::empty(),
{
    crate::request::lemma_method_name(m);
    let text = request_line_text(m, url);
    let n = text.len() as int;
    assert forall|j: int| 0 <= j < n implies text[j] != '\n' by {
        let name = m.spec_name();
        let ln = name.len() as int;
        if j < ln {
            assert(text[j] == name[j]);
        } else if j == ln {
        } else {
            assert(text[j] == url[j - ln - 1]);
        }
    }
    crate::chars::lemma_find_at(text, 0, n, '\n');
    assert(text.subrange(0, n) =~= text);
    assert(spec_lines(text) == seq![text]);
    lemma_step_request_line(init_state(), m, url);
    let st1 = spec_step(init_state(), text);
    assert(seq![text][0] == text);
    assert(seq![text].drop_first() =~= Seq::<Seq<char>>::empty());
    assert(spec_fold(st1, Seq::<Seq<char>>::empty()) == st1);
    assert(spec_fold(init_state(), seq![text]) == spec_fold(st1, Seq::<Seq<char>>::empty()));
    lemma_fresh_build(st1.cur->Some_0);
    assert(spec_emit(st1) =~= seq![named_request(None, m, url)]);
}

/// The lines of `N` blocks, from block `i` on: each block is one separator
/// line and one request line.
pub open spec fn block_lines(
    names: Seq<Seq<char>>,
    methods: Seq<Method>,
    urls: Seq<Seq<char>>,
    i: int,
) -> Seq<Seq<char>>
    decreases names.len() - i,
{
    if i < 0 || i >= names.len() {
        Seq::empty()
    } else {
        seq![separator_line_text(names[i]), request_line_text(methods[i], urls[i])] + block_lines(
            names,
            methods,
            urls,
            i + 1,
        )
    }
}

/// Folding blocks appends exactly one named request per block, in order,
/// and leaves the variable table alone.
proof fn lemma_fold_blocks(
    st: ParseStateView,
    names: Seq<Seq<char>>,
    methods: Seq<Method>,
    urls: Seq<Seq<char>>,
    i: int,
)
    requires
        methods.len() == names.len(),
        urls.len() == names.len(),
        0 <= i <= names.len(),
        forall|j: int| i <= j < names.len() ==> plain_name(#[trigger] names[j]),
        forall|j: int| i <= j < names.len() ==> url_token(#[trigger] urls[j]),
    ensures
        spec_emit(spec_fold(st, block_lines(names, methods, urls, i))) == spec_emit(st) + Seq::new(
            (names.len() - i) as nat,
            |j: int| named_request(Some(names[i + j]), methods[i + j], urls[i + j]),
        ),
        spec_fold(st, block_lines(names, methods, urls, i)).vars == st.vars,
    decreases names.len() - i,
{
    let bl = block_lines(names, methods, urls, i);
    if i == names.len() {
        assert(spec_emit(st) + Seq::new(
            0,
            |j: int| named_request(Some(names[i + j]), methods[i + j], urls[i + j]),
        ) =~= spec_emit(st));
    } else {
        let sep = separator_line_text(names[i]);
        let req = request_line_text(methods[i], urls[i]);
        let rest = block_lines(names, methods, urls, i + 1);
        lemma_step_separator(st, names[i]);
        let st1 = spec_step(st, sep);
        lemma_step_request_line(st1, methods[i], urls[i]);
        let st2 = spec_step(st1, req);
        assert(bl[0] == sep);
        assert(bl.drop_first() =~= seq![req] + rest);
        assert((seq![req] + rest)[0] == req);
        assert((seq![req] + rest).drop_first() =~= rest);
        assert(spec_fold(st, bl) == spec_fold(st1, seq![req] + rest));
        assert(spec_fold(st1, seq![req] + rest) == spec_fold(st2, rest));
        lemma_fold_blocks(st2, names, methods, urls, i + 1);
        lemma_fresh_build(st2.cur->Some_0);
        assert(spec_emit(st2) =~= spec_emit(st).push(
            named_request(Some(names[i]), methods[i], urls[i]),
        ));
        assert(spec_emit(st) + Seq::new(
            (names.len() - i) as nat,
            |j: int| named_request(Some(names[i + j]), methods[i + j], urls[i + j]),
        ) =~= spec_emit(st2) + Seq::new(
            (names.len() - i - 1) as nat,
            |j: int| named_request(Some(names[i + 1 + j]), methods[i + 1 + j], urls[i + 1 + j]),
        ));
    }
}

/// Searching past a prefix looks only at the suffix.
proof fn lemma_find_shift(a: Seq<char>, b: Seq<char>, i: int, c: char)
    requires
        0 <= i <= b.len(),
    ensures
        spec_find(a + b, a.len() + i, c) == a.len() + spec_find(b, i, c),
    decreases b.len() - i,
{
    if i < b.len() {
        assert((a + b)[a.len() + i] == b[i]);
        if b[i] != c {
            lemma_find_shift(a, b, i + 1, c);
        }
    }
}

/// Splitting lines past a prefix looks only at the suffix.
proof fn lemma_lines_shift(a: Seq<char>, b: Seq<char>, i: int)
    requires
        0 <= i <= b.len(),
    ensures
        lines_from(a + b, a.len() + i) == lines_from(b, i),
    decreases b.len() - i,
{
    if i >= b.len() {
    } else {
        lemma_find_shift(a, b, i, '\n');
        crate::chars::lemma_spec_find(b, i, '\n');
        let j = spec_find(b, i, '\n');
        let s = a + b;
        if j >= b.len() {
            assert(s.subrange(a.len() + i, s.len() as int) =~= b.subrange(i, b.len() as int));
        } else {
            assert(s.subrange(a.len() + i, a.len() + j) =~= b.subrange(i, j));
            lemma_lines_shift(a, b, j + 1);
        }
    }
}

/// Joining lines and splitting them again gives the lines back, provided
/// no line holds a newline and the last line is nonempty.
proof fn lemma_lines_of_join(ls: Seq<Seq<char>>)
    requires
        ls.len() > 0,
        forall|i: int, j: int|
            0 <= i < ls.len() && 0 <= j < ls[i].len() ==> #[trigger] ls[i][j] != '\n',
        ls.last().len() > 0,
    ensures
        lines_from(join_lines(ls), 0) == ls,
    decreases ls.len(),
{
    let s = join_lines(ls);
    if ls.len() == 1 {
        crate::chars::lemma_find_at(s, 0, s.len() as int, '\n');
        assert(s.subrange(0, s.len() as int) =~= s);
        assert(lines_from(s, 0) =~= ls);
    } else {
        let l0 = ls[0];
        let k = l0.len() as int;
        let rest = join_lines(ls.drop_first());
        assert(s == l0 + seq!['\n'] + rest);
        let pre = l0 + seq!['\n'];
        assert(s =~= pre + rest);
        assert forall|j: int| 0 <= j < k implies s[j] != '\n' by {
            assert(s[j] == l0[j]);
        }
        assert(s[k] == '\n');
        crate::chars::lemma_find_at(s, 0, k, '\n');
        assert(s.subrange(0, k) =~= l0);
        lemma_lines_shift(pre, rest, 0);
        assert(lines_from(s, k + 1) == lines_from(rest, 0));
        assert(ls.drop_first().last() == ls.last());
        lemma_lines_of_join(ls.drop_first());
        assert(lines_from(s, 0) =~= ls);
    }
}

/// Block lines hold no newline, and none is empty.
proof fn lemma_block_lines_wf(
    names: Seq<Seq<char>>,
    methods: Seq<Method>,
    urls: Seq<Seq<char>>,
    i: int,
)
    requires
        methods.len() == names.len(),
        urls.len() == names.len(),
        0 <= i <= names.len(),
        forall|j: int| i <= j < names.len() ==> plain_name(#[trigger] names[j]),
        forall|j: int| i <= j < names.len() ==> url_token(#[trigger] urls[j]),
    ensures
        block_lines(names, methods, urls, i).len() == 2 * (names.len() - i),
        forall|t: int, j: int|
            0 <= t < block_lines(names, methods, urls, i).len() && 0 <= j < block_lines(
                names,
                methods,
                urls,
                i,
            )[t].len() ==> #[trigger] block_lines(names, methods, urls, i)[t][j] != '\n',
        forall|t: int|
            0 <= t < block_lines(names, methods, urls, i).len() ==> (#[trigger] block_lines(
                names,
                methods,
                urls,
                i,
            )[t]).len() > 0,
        i < names.len() ==> block_lines(names, methods, urls, i).last() == request_line_text(
            methods[names.len() - 1],
            urls[names.len() - 1],
        ),
    decreases names.len() - i,
{
    reveal_strlit("###");
    if i < names.len() {
        lemma_block_lines_wf(names, methods, urls, i + 1);
        crate::request::lemma_method_name(methods[i]);
        let bl = block_lines(names, methods, urls, i);
        let sep = separator_line_text(names[i]);
        let req = request_line_text(methods[i], urls[i]);
        let rest = block_lines(names, methods, urls, i + 1);
        assert forall|j: int| 0 <= j < sep.len() implies sep[j] != '\n' by {
            if j < 3 {
                assert(sep[j] == "###"@[j]);
            } else if j == 3 {
                assert(sep[j] == ' ');
            } else {
                assert(sep[j] == names[i][j - 4]);
            }
        }
        assert forall|j: int| 0 <= j < req.len() implies req[j] != '\n' by {
            let name = methods[i].spec_name();
            let ln = name.len() as int;
            if j < ln {
                assert(req[j] == name[j]);
                assert(!spec_is_space(req[j]));
            } else if j == ln {
                assert(req[j] == ' ');
            } else {
                assert(req[j] == urls[i][j - ln - 1]);
                assert(!spec_is_space(req[j]));
            }
        }
        assert forall|t: int, j: int|
            0 <= t < bl.len() && 0 <= j < bl[t].len() implies #[trigger] bl[t][j] != '\n' by {
            if t == 0 {
                assert(bl[t] == sep);
            } else if t == 1 {
                assert(bl[t] == req);
            } else {
                assert(bl[t] == rest[t - 2]);
            }
        }
        assert forall|t: int| 0 <= t < bl.len() implies (#[trigger] bl[t]).len() > 0 by {
            if t == 0 {
                assert(bl[t] == sep);
            } else if t == 1 {
                assert(bl[t] == req);
            } else {
                assert(bl[t] == rest[t - 2]);
            }
        }
        if i + 1 == names.len() {
            assert(bl.last() == req);
        } else {
            assert(bl.last() == rest[rest.len() - 1]);
        }
    }
}

/// A file of `N` separator lines, each followed by one request line,
/// parses to exactly `N` requests in file order, each carrying the name
/// from its preceding separator, and defines no variable.
pub proof fn lemma_separated_requests(
    names: Seq<Seq<char>>,
    methods: Seq<Method>,
    urls: Seq<Seq<char>>,
)
    requires
        methods.len() == names.len(),
        urls.len() == names.len(),
        names.len() > 0,
        forall|j: int| 0 <= j < names.len() ==> plain_name(#[trigger] names[j]),
        forall|j: int| 0 <= j < names.len() ==> url_token(#[trigger] urls[j]),
    ensures
        spec_parse(join_lines(block_lines(names, methods, urls, 0))).0 == Seq::new(
            names.len(),
            |j: int| named_request(Some(names[j]), methods[j], urls[j]),
        ),
        spec_parse(join_lines(block_lines(names, methods, urls, 0))).1 == Seq::<(
            Seq<char>,
            Seq<char>,
        )>::empty(),
{
    let bl = block_lines(names, methods, urls, 0);
    lemma_block_lines_wf(names, methods, urls, 0);
    crate::request::lemma_method_name(methods[names.len() - 1]);
    assert(bl.last() == request_line_text(methods[names.len() - 1], urls[names.len() - 1]));
    assert(bl.last().len() > 0);
    lemma_lines_of_join(bl);
    lemma_fold_blocks(init_state(), names, methods, urls, 0);
    let st = spec_fold(init_state(), bl);
    assert(spec_emit(init_state()) + Seq::new(
        names.len(),
        |j: int| named_request(Some(names[j]), methods[j], urls[j]),
    ) =~= Seq::new(names.len(), |j: int| named_request(Some(names[j]), methods[j], urls[j])));
}

/// The request-file parser.
pub struct Parser;

impl Parser {
    /// Parses a whole request file's text into its requests (in file
    /// order) and its variable table. Parsing is lenient — malformed lines
    /// are dropped, never an error — so the result is always `Ok`.
    pub fn parse_content(content: &str) -> (r: Result<(Vec<Request>, StrMap), ParseError>)
        ensures
            match r {
                Ok(p) => {
                    &&& p.0@.map_values(|rq: Request| rq@) == spec_parse(content@).0
                    &&& p.1@ == spec_parse(content@).1
                    &&& forall|k: int| 0 <= k < p.0@.len() ==> (#[trigger] p.0@[k]).wf()
                    &&& p.1.wf()
                },
                Err(_) => false,
            },
    {
        let n = content.unicode_len();
        let mut requests: Vec<Request> = Vec::new();
        let mut variables: StrMap = StrMap::new();
        let mut pending: Option<String> = None;
        let mut cur: Option<RequestBuilder> = None;
        let mut i: usize = 0;
        proof {
            assert(requests@.map_values(|rq: Request| rq@) =~= Seq::<RequestView>::empty());
            assert(exec_state_view(requests@, variables@, pending, cur) == init_state());
        }
        while i < n
            invariant
                0 <= i <= n,
                n == content@.len(),
                variables.wf(),
                forall|k: int| 0 <= k < requests@.len() ==> (#[trigger] requests@[k]).wf(),
                spec_fold(
                    exec_state_view(requests@, variables@, pending, cur),
                    lines_from(content@, i as int),
                ) == spec_fold(init_state(), lines_from(content@, 0)),
            decreases n - i,
        {
            let ghost i0 = i as int;
            let ghost st0 = exec_state_view(requests@, variables@, pending, cur);
            let j = find_char(content, i, '\n');
            proof {
                lemma_spec_find(content@, i0, '\n');
            }
            let raw = content.substring_char(i, j);
            let line = trim_end(raw);
            let ghost stepped = spec_step(st0, raw@);
            let ln = line.unicode_len();
            if let Some((nm, v)) = Parser::try_parse_variable(line) {
                variables.insert(nm, v);
                proof {
                    assert(exec_state_view(requests@, variables@, pending, cur) == stepped);
                }
            } else if ln >= 3 && line.get_char(0) == '#' && line.get_char(1) == '#'
                && line.get_char(2) == '#' {
                let taken = cur.take();
                match taken {
                    Some(b) => {
                        let ghost prev = requests@;
                        let built = b.build();
                        requests.push(built);
                        proof {
                            assert(requests@.map_values(|rq: Request| rq@) =~= prev.map_values(
                                |rq: Request| rq@,
                            ).push(built@));
                        }
                    },
                    None => {},
                }
                let k = skip_run(line, 0, '#');
                proof {
                    lemma_spec_skip_run(line@, 0, '#');
                }
                let nm = trim(line.substring_char(k, ln));
                pending = if nm.is_empty() {
                    None
                } else {
                    Some(String::from_str(nm))
                };
                proof {
                    assert(exec_state_view(requests@, variables@, pending, cur) == stepped);
                }
            } else if (ln >= 1 && line.get_char(0) == '#') || (ln >= 2 && line.get_char(0) == '/'
                && line.get_char(1) == '/') {
                proof {
                    assert(exec_state_view(requests@, variables@, pending, cur) == stepped);
                }
            } else if line.is_empty() {
                match &mut cur {
                    Some(b) => {
                        if b.headers_done {
                            let ghost prevb = b@;
                            b.body_lines.push(String::new());
                            proof {
                                assert(b@.body_lines =~= prevb.body_lines.push(Seq::empty()));
                            }
                        } else {
                            b.headers_done = true;
                        }
                    },
                    None => {},
                }
                proof {
                    assert(exec_state_view(requests@, variables@, pending, cur) == stepped);
                }
            } else if cur.is_none() {
                let nm = pending.take();
                match Parser::try_parse_request_line(line, nm) {
                    Some(b) => {
                        cur = Some(b);
                    },
                    None => {},
                }
                proof {
                    assert(exec_state_view(requests@, variables@, pending, cur) == stepped);
                }
            } else {
                match &mut cur {
                    Some(b) => {
                        if !b.headers_done {
                            match Parser::try_parse_header(line) {
                                Some((hk, hv)) => {
                                    let ghost prevb = b@;
                                    b.headers.push((hk, hv));
                                    proof {
                                        assert(b@.headers =~= prevb.headers.push(
                                            (hk@, hv@),
                                        ));
                                    }
                                },
                                None => {
                                    let ghost prevb = b@;
                                    b.headers_done = true;
                                    b.body_lines.push(String::from_str(line));
                                    proof {
                                        assert(b@.body_lines =~= prevb.body_lines.push(line@));
                                    }
                                },
                            }
                        } else {
                            let ghost prevb = b@;
                            b.body_lines.push(String::from_str(line));
                            proof {
                                assert(b@.body_lines =~= prevb.body_lines.push(line@));
                            }
                        }
                    },
                    None => {},
                }
                proof {
                    assert(exec_state_view(requests@, variables@, pending, cur) == stepped);
                }
            }
            let ni = if j < n {
                j + 1
            } else {
                n
            };
            proof {
                let s = content@;
                let rest = lines_from(s, spec_find(s, i0, '\n') + 1);
                if j < n {
                    assert(lines_from(s, i0) == seq![raw@] + rest);
                    assert((seq![raw@] + rest)[0] == raw@);
                    assert((seq![raw@] + rest).drop_first() =~= rest);
                    assert(spec_fold(st0, lines_from(s, i0)) == spec_fold(stepped, rest));
                    assert(rest == lines_from(s, ni as int));
                } else {
                    assert(lines_from(s, i0) == seq![raw@]);
                    assert(seq![raw@][0] == raw@);
                    assert(seq![raw@].drop_first() =~= Seq::<Seq<char>>::empty());
                    assert(spec_fold(st0, lines_from(s, i0)) == spec_fold(
                        stepped,
                        Seq::<Seq<char>>::empty(),
                    ));
                    assert(lines_from(s, ni as int) =~= Seq::<Seq<char>>::empty());
                }
            }
            i = ni;
        }
        proof {
            assert(lines_from(content@, n as int) =~= Seq::<Seq<char>>::empty());
        }
        let ghost st_final = exec_state_view(requests@, variables@, pending, cur);
        match cur {
            Some(b) => {
                let ghost prev = requests@;
                let built = b.build();
                requests.push(built);
                proof {
                    assert(requests@.map_values(|rq: Request| rq@) =~= prev.map_values(
                        |rq: Request| rq@,
                    ).push(built@));
                    assert(requests@.map_values(|rq: Request| rq@) == spec_emit(st_final));
                }
            },
            None => {
                proof {
                    assert(requests@.map_values(|rq: Request| rq@) == spec_emit(st_final));
                }
            },
        }
        Ok((requests, variables))
    }

    /// Recognizes a variable line `@name = value`.
    pub fn try_parse_variable(line: &str) -> (r: Option<(String, String)>)
        ensures
            match r {
                Some(p) => spec_try_variable(line@) == Some((p.0@, p.1@)),
                None => spec_try_variable(line@) is None,
            },
    {
        let n = line.unicode_len();
        if n == 0 || line.get_char(0) != '@' {
            return None;
        }
        let e = find_char(line, 1, '=');
        proof {
            lemma_spec_find(line@, 1, '=');
        }
        if e == n {
            return None;
        }
        let name = trim(line.substring_char(1, e));
        if name.is_empty() {
            return None;
        }
        let value = trim(line.substring_char(e + 1, n));
        Some((String::from_str(name), String::from_str(value)))
    }

    /// Recognizes a header line `Key: value`.
    pub fn try_parse_header(line: &str) -> (r: Option<(String, String)>)
        ensures
            match r {
                Some(p) => spec_try_header(line@) == Some((p.0@, p.1@)),
                None => spec_try_header(line@) is None,
            },
    {
        let n = line.unicode_len();
        let c = find_char(line, 0, ':');
        proof {
            lemma_spec_find(line@, 0, ':');
        }
        if c == n {
            return None;
        }
        let key = trim(line.substring_char(0, c));
        let value = trim(line.substring_char(c + 1, n));
        let klen = key.unicode_len();
        let sp = find_char(key, 0, ' ');
        proof {
            lemma_spec_find(key@, 0, ' ');
            if sp < klen {
                assert(key@.contains(' '));
            } else {
                assert(forall|j: int| 0 <= j < key@.len() ==> key@[j] != ' ');
                assert(!key@.contains(' '));
            }
        }
        if sp < klen {
            return None;
        }
        Some((String::from_str(key), String::from_str(value)))
    }

    /// Recognizes a request line `METHOD URL [ignored...]`; on success the
    /// returned builder carries `name` forward, on failure `name` is
    /// dropped.
    pub fn try_parse_request_line(line: &str, name: Option<String>) -> (r: Option<RequestBuilder>)
        ensures
            match r {
                Some(b) => spec_request_line(line@) is Some && b@ == (BuilderView {
                    name: opt_str_view(name),
                    method: spec_request_line(line@)->Some_0.0,
                    url: spec_request_line(line@)->Some_0.1,
                    headers: Seq::empty(),
                    body_lines: Seq::empty(),
                    headers_done: false,
                }),
                None => spec_request_line(line@) is None,
            },
    {
        let n = line.unicode_len();
        let a1 = skip_spaces(line, 0);
        proof {
            lemma_spec_skip_spaces(line@, 0);
        }
        let b1 = skip_token(line, a1);
        proof {
            lemma_spec_skip_token(line@, a1 as int);
        }
        let a2 = skip_spaces(line, b1);
        proof {
            lemma_spec_skip_spaces(line@, b1 as int);
        }
        let b2 = skip_token(line, a2);
        proof {
            lemma_spec_skip_token(line@, a2 as int);
        }
        if a1 == n || a2 == n {
            return None;
        }
        let token = line.substring_char(a1, b1);
        match Method::from_str(token) {
            Ok(method) => {
                let url = String::from_str(line.substring_char(a2, b2));
                let b = RequestBuilder {
                    name,
                    method,
                    url,
                    headers: Vec::new(),
                    body_lines: Vec::new(),
                    headers_done: false,
                };
                proof {
                    assert(b@.headers =~= Seq::<(Seq<char>, Seq<char>)>::empty());
                    assert(b@.body_lines =~= Seq::<Seq<char>>::empty());
                }
                Some(b)
            },
            Err(_) => None,
        }
    }
}

impl RequestBuilder {
    /// Finalizes the builder: headers folded into the header map (later
    /// repeats win), body lines joined with `'\n'` and trimmed, an empty
    /// body normalized to `None`.
    pub fn build(self) -> (r: Request)
        ensures
            r@ == spec_build(self@),
            r.wf(),
    {
        let mut headers = StrMap::new();
        let hn = self.headers.len();
        let mut k: usize = 0;
        proof {
            assert(self@.headers.take(0) =~= Seq::<(Seq<char>, Seq<char>)>::empty());
        }
        while k < hn
            invariant
                0 <= k <= hn,
                hn == self.headers@.len(),
                headers@ == insert_all(Seq::empty(), self@.headers.take(k as int)),
                headers.wf(),
            decreases hn - k,
        {
            let key = self.headers[k].0.clone();
            let value = self.headers[k].1.clone();
            headers.insert(key, value);
            proof {
                lemma_insert_all_snoc(
                    Seq::empty(),
                    self@.headers.take(k as int),
                    self@.headers[k as int],
                );
                assert(self@.headers.take(k as int + 1) =~= self@.headers.take(k as int).push(
                    self@.headers[k as int],
                ));
            }
            k = k + 1;
        }
        proof {
            assert(self@.headers.take(hn as int) =~= self@.headers);
        }
        let mut body = String::new();
        let bn = self.body_lines.len();
        let mut k2: usize = 0;
        proof {
            assert(self@.body_lines.take(0) =~= Seq::<Seq<char>>::empty());
            assert(body@ =~= join_lines(self@.body_lines.take(0)));
        }
        while k2 < bn
            invariant
                0 <= k2 <= bn,
                bn == self.body_lines@.len(),
                body@ == join_lines(self@.body_lines.take(k2 as int)),
            decreases bn - k2,
        {
            let ghost prev = body@;
            if k2 > 0 {
                body.append("\n");
            }
            body.append(self.body_lines[k2].as_str());
            proof {
                reveal_strlit("\n");
                assert("\n"@ =~= seq!['\n']);
                lemma_join_snoc(self@.body_lines.take(k2 as int), self@.body_lines[k2 as int]);
                assert(self@.body_lines.take(k2 as int + 1) =~= self@.body_lines.take(
                    k2 as int,
                ).push(self@.body_lines[k2 as int]));
                if k2 > 0 {
                    assert(body@ =~= prev + seq!['\n'] + self@.body_lines[k2 as int]);
                } else {
                    assert(body@ =~= self@.body_lines[k2 as int]);
                }
            }
            k2 = k2 + 1;
        }
        proof {
            assert(self@.body_lines.take(bn as int) =~= self@.body_lines);
        }
        let trimmed = trim(body.as_str());
        let final_body: Option<String> = if trimmed.is_empty() {
            None
        } else {
            Some(String::from_str(trimmed))
        };
        let r = Request {
            name: self.name,
            method: self.method,
            url: self.url,
            headers,
            body: final_body,
        };
        proof {
            assert(r@ =~= spec_build(self@));
            lemma_insert_all_unique(Seq::empty(), self@.headers);
        }
        r
    }
}

} // verus!
