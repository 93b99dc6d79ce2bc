//! `{{name}}` placeholder scanning and substitution.
//!
//! A placeholder is a leftmost, non-overlapping match of two opening
//! braces, one or more word characters, and two closing braces. Anything
//! else — single braces, mismatched braces, non-word characters between
//! braces — is left verbatim. Substitution is not recursive: a substituted
//! value is never re-scanned.

use vstd::prelude::*;

use crate::chars::spec_is_word_char;
use crate::chars::is_word_char;
use crate::error::VariableError;
use crate::strmap::{assoc_get, StrMap};

verus! {

/// First index at or after `i` whose character is not a word character.
pub open spec fn word_end(s: Seq<char>, i: int) -> int
    decreases s.len() - i,
{
    if i < 0 || i >= s.len() {
        s.len() as int
    } else if spec_is_word_char(s[i]) {
        word_end(s, i + 1)
    } else {
        i
    }
}

pub proof fn lemma_word_end(s: Seq<char>, i: int)
    requires
        0 <= i <= s.len(),
    ensures
        i <= word_end(s, i) <= s.len(),
        word_end(s, i) < s.len() ==> !spec_is_word_char(s[word_end(s, i)]),
        forall|j: int| i <= j < word_end(s, i) ==> spec_is_word_char(s[j]),
    decreases s.len() - i,
{
    if i < s.len() && spec_is_word_char(s[i]) {
        lemma_word_end(s, i + 1);
    }
}

/// If a placeholder starts at `i`, the index just past its closing braces;
/// `None` when no placeholder starts at `i`.
pub open spec fn placeholder_end(s: Seq<char>, i: int) -> Option<int> {
    if 0 <= i && i + 2 <= s.len() && s[i] == '{' && s[i + 1] == '{' {
        let e = word_end(s, i + 2);
        if e > i + 2 && e + 2 <= s.len() && s[e] == '}' && s[e + 1] == '}' {
            Some(e + 2)
        } else {
            None
        }
    } else {
        None
    }
}

/// The identifier between the braces of the placeholder at `i`.
pub open spec fn placeholder_name(s: Seq<char>, i: int) -> Seq<char> {
    s.subrange(i + 2, placeholder_end(s, i)->Some_0 - 2)
}

/// A placeholder spans at least five characters and stays inside `s`.
pub proof fn lemma_placeholder_end(s: Seq<char>, i: int)
    requires
        0 <= i <= s.len(),
        placeholder_end(s, i) is Some,
    ensures
        i + 5 <= placeholder_end(s, i)->Some_0 <= s.len(),
{
    lemma_word_end(s, i + 2);
}

/// Text with every placeholder replaced by its binding, scanning left to
/// right from `i`; `Err` carries the name of the first unresolved
/// placeholder.
pub open spec fn spec_substitute_from(
    s: Seq<char>,
    vars: Seq<(Seq<char>, Seq<char>)>,
    i: int,
) -> Result<Seq<char>, Seq<char>>
    decreases s.len() - i,
{
    if i < 0 || i >= s.len() {
        Ok(Seq::empty())
    } else {
        match placeholder_end(s, i) {
            Some(e) => {
                let name = s.subrange(i + 2, e - 2);
                match assoc_get(vars, name) {
                    Some(v) => match spec_substitute_from(s, vars, e) {
                        Ok(rest) => Ok(v + rest),
                        Err(n) => Err(n),
                    },
                    None => Err(name),
                }
            },
            None => match spec_substitute_from(s, vars, i + 1) {
                Ok(rest) => Ok(seq![s[i]] + rest),
                Err(n) => Err(n),
            },
        }
    }
}

/// What [`substitute`] returns, over sequences.
pub open spec fn spec_substitute(s: Seq<char>, vars: Seq<(Seq<char>, Seq<char>)>) -> Result<
    Seq<char>,
    Seq<char>,
> {
    spec_substitute_from(s, vars, 0)
}

/// The identifiers of the placeholders in `s`, scanning left to right from
/// `i`, in order of occurrence and with repeats kept.
pub open spec fn placeholders_from(s: Seq<char>, i: int) -> Seq<Seq<char>>
    decreases s.len() - i,
{
    if i < 0 || i >= s.len() {
        Seq::empty()
    } else {
        match placeholder_end(s, i) {
            Some(e) => seq![s.subrange(i + 2, e - 2)] + placeholders_from(s, e),
            None => placeholders_from(s, i + 1),
        }
    }
}

/// The identifiers of the placeholders in `s`, in order of occurrence.
pub open spec fn placeholders(s: Seq<char>) -> Seq<Seq<char>> {
    placeholders_from(s, 0)
}

/// The names with every repeat dropped, keeping first occurrences in
/// first-seen order, scanning from `i`.
pub open spec fn dedup_from(names: Seq<Seq<char>>, i: int) -> Seq<Seq<char>>
    decreases names.len() - i,
{
    if i < 0 || i >= names.len() {
        Seq::empty()
    } else if names.take(i).contains(names[i]) {
        dedup_from(names, i + 1)
    } else {
        seq![names[i]] + dedup_from(names, i + 1)
    }
}

/// The names with every repeat dropped, keeping first occurrences.
pub open spec fn dedup_first(names: Seq<Seq<char>>) -> Seq<Seq<char>> {
    dedup_from(names, 0)
}

/// The names that are bound in `vars`, in order, each with its value.
pub open spec fn used_pairs(names: Seq<Seq<char>>, vars: Seq<(Seq<char>, Seq<char>)>) -> Seq<
    (Seq<char>, Seq<char>),
>
    decreases names.len(),
{
    if names.len() == 0 {
        Seq::empty()
    } else {
        let rest = used_pairs(names.drop_first(), vars);
        match assoc_get(vars, names[0]) {
            Some(v) => seq![(names[0], v)] + rest,
            None => rest,
        }
    }
}

/// The placeholder names in all header values, in header order.
pub open spec fn header_values_placeholders(headers: Seq<(Seq<char>, Seq<char>)>) -> Seq<Seq<char>>
    decreases headers.len(),
{
    if headers.len() == 0 {
        Seq::empty()
    } else {
        placeholders(headers[0].1) + header_values_placeholders(headers.drop_first())
    }
}

/// One more header's worth of placeholder names.
pub proof fn lemma_header_values_placeholders_snoc(
    headers: Seq<(Seq<char>, Seq<char>)>,
    p: (Seq<char>, Seq<char>),
)
    ensures
        header_values_placeholders(headers.push(p)) == header_values_placeholders(headers)
            + placeholders(p.1),
    decreases headers.len(),
{
    if headers.len() == 0 {
        assert(headers.push(p)[0] == p);
        assert(headers.push(p).drop_first() =~= Seq::<(Seq<char>, Seq<char>)>::empty());
        assert(header_values_placeholders(Seq::<(Seq<char>, Seq<char>)>::empty())
            == Seq::<Seq<char>>::empty());
        assert(placeholders(p.1) + Seq::<Seq<char>>::empty() =~= placeholders(p.1));
        assert(Seq::<Seq<char>>::empty() + placeholders(p.1) =~= placeholders(p.1));
    } else {
        assert(headers.push(p)[0] == headers[0]);
        assert(headers.push(p).drop_first() =~= headers.drop_first().push(p));
        lemma_header_values_placeholders_snoc(headers.drop_first(), p);
        assert(placeholders(headers[0].1) + (header_values_placeholders(headers.drop_first())
            + placeholders(p.1)) =~= (placeholders(headers[0].1) + header_values_placeholders(
            headers.drop_first(),
        )) + placeholders(p.1));
    }
}

/// The placeholder names a request mentions: in its URL, then its header
/// values in header order, then its body.
pub open spec fn request_placeholders(rv: crate::request::RequestView) -> Seq<Seq<char>> {
    placeholders(rv.url) + header_values_placeholders(rv.headers) + (match rv.body {
        Some(b) => placeholders(b),
        None => Seq::empty(),
    })
}

/// The variables a request actually uses: the placeholder names it
/// mentions, first occurrences only, kept only when the table binds them,
/// each with its value.
pub open spec fn spec_used_variables(
    rv: crate::request::RequestView,
    vars: Seq<(Seq<char>, Seq<char>)>,
) -> Seq<(Seq<char>, Seq<char>)> {
    used_pairs(dedup_first(request_placeholders(rv)), vars)
}

/// Appends the placeholder names of `s` to `acc`, in order of occurrence.
pub fn collect_placeholders(s: &str, acc: &mut Vec<String>)
    ensures
        final(acc)@.map_values(|x: String| x@) == old(acc)@.map_values(|x: String| x@)
            + placeholders(s@),
{
    let n = s.unicode_len();
    let mut i: usize = 0;
    while i < n
        invariant
            0 <= i <= n,
            n == s@.len(),
            old(acc)@.map_values(|x: String| x@) + placeholders(s@) == acc@.map_values(
                |x: String| x@,
            ) + placeholders_from(s@, i as int),
        decreases n - i,
    {
        match placeholder_at(s, i) {
            Some(e) => {
                proof {
                    lemma_placeholder_end(s@, i as int);
                }
                let name = s.substring_char(i + 2, e - 2);
                let ghost prev = acc@.map_values(|x: String| x@);
                acc.push(String::from_str(name));
                proof {
                    assert(acc@.map_values(|x: String| x@) =~= prev + seq![name@]);
                    assert(prev + (seq![name@] + placeholders_from(s@, e as int)) =~= (prev + seq![
                        name@,
                    ]) + placeholders_from(s@, e as int));
                }
                i = e;
            },
            None => {
                i = i + 1;
            },
        }
    }
    proof {
        assert(placeholders_from(s@, n as int) == Seq::<Seq<char>>::empty());
        assert(acc@.map_values(|x: String| x@) + Seq::<Seq<char>>::empty() =~= acc@.map_values(
            |x: String| x@,
        ));
        assert(old(acc)@.map_values(|x: String| x@) + placeholders(s@) =~= acc@.map_values(
            |x: String| x@,
        ));
    }
}

/// Drops repeated names, keeping each first occurrence in order.
pub fn dedup_names(names: &Vec<String>) -> (r: Vec<String>)
    ensures
        r@.map_values(|x: String| x@) == dedup_first(names@.map_values(|x: String| x@)),
{
    let ghost vnames = names@.map_values(|x: String| x@);
    let n = names.len();
    let mut out: Vec<String> = Vec::new();
    let mut i: usize = 0;
    proof {
        assert(out@.map_values(|x: String| x@) + dedup_from(vnames, 0) =~= dedup_from(vnames, 0));
    }
    while i < n
        invariant
            0 <= i <= n,
            n == names@.len(),
            vnames == names@.map_values(|x: String| x@),
            dedup_first(vnames) == out@.map_values(|x: String| x@) + dedup_from(vnames, i as int),
        decreases n - i,
    {
        let mut seen = false;
        let mut j: usize = 0;
        while j < i
            invariant
                0 <= j <= i < n,
                n == names@.len(),
                vnames == names@.map_values(|x: String| x@),
                seen ==> vnames.take(i as int).contains(vnames[i as int]),
                !seen ==> forall|t: int| 0 <= t < j ==> vnames[t] != vnames[i as int],
            decreases i - j,
        {
            if !seen && crate::strmap::string_eq(&names[j], names[i].as_str()) {
                seen = true;
                proof {
                    assert(vnames.take(i as int)[j as int] == vnames[i as int]);
                }
            }
            j = j + 1;
        }
        let ghost prev = out@.map_values(|x: String| x@);
        if !seen {
            proof {
                assert forall|t: int|
                    0 <= t < vnames.take(i as int).len() implies vnames.take(i as int)[t]
                    != vnames[i as int] by {
                    assert(vnames.take(i as int)[t] == vnames[t]);
                }
                assert(!vnames.take(i as int).contains(vnames[i as int]));
            }
            out.push(names[i].clone());
            proof {
                assert(out@.map_values(|x: String| x@) =~= prev + seq![vnames[i as int]]);
                assert(prev + (seq![vnames[i as int]] + dedup_from(vnames, i as int + 1)) =~= (prev
                    + seq![vnames[i as int]]) + dedup_from(vnames, i as int + 1));
            }
        }
        i = i + 1;
    }
    proof {
        assert(dedup_from(vnames, n as int) == Seq::<Seq<char>>::empty());
        assert(out@.map_values(|x: String| x@) + Seq::<Seq<char>>::empty() =~= out@.map_values(
            |x: String| x@,
        ));
    }
    out
}

/// Keeps the names the table binds, pairing each with its value.
pub fn pairs_for_names(names: &Vec<String>, variables: &StrMap) -> (r: Vec<(String, String)>)
    ensures
        r@.map_values(|p: (String, String)| (p.0@, p.1@)) == used_pairs(
            names@.map_values(|x: String| x@),
            variables@,
        ),
{
    let ghost vnames = names@.map_values(|x: String| x@);
    let n = names.len();
    let mut out: Vec<(String, String)> = Vec::new();
    let mut i: usize = 0;
    proof {
        assert(vnames.skip(0) =~= vnames);
        assert(out@.map_values(|p: (String, String)| (p.0@, p.1@)) + used_pairs(vnames, variables@)
            =~= used_pairs(vnames, variables@));
    }
    while i < n
        invariant
            0 <= i <= n,
            n == names@.len(),
            vnames == names@.map_values(|x: String| x@),
            used_pairs(vnames, variables@) == out@.map_values(|p: (String, String)| (p.0@, p.1@))
                + used_pairs(vnames.skip(i as int), variables@),
        decreases n - i,
    {
        proof {
            assert(vnames.skip(i as int)[0] == vnames[i as int]);
            assert(vnames.skip(i as int).drop_first() =~= vnames.skip(i as int + 1));
        }
        let ghost prev = out@.map_values(|p: (String, String)| (p.0@, p.1@));
        match variables.get(names[i].as_str()) {
            Some(v) => {
                out.push((names[i].clone(), v.clone()));
                proof {
                    let pair = (vnames[i as int], v@);
                    assert(out@.map_values(|p: (String, String)| (p.0@, p.1@)) =~= prev + seq![
                        pair,
                    ]);
                    assert(prev + (seq![pair] + used_pairs(vnames.skip(i as int + 1), variables@))
                        =~= (prev + seq![pair]) + used_pairs(vnames.skip(i as int + 1), variables@));
                }
            },
            None => {},
        }
        i = i + 1;
    }
    proof {
        assert(vnames.skip(n as int) =~= Seq::<Seq<char>>::empty());
        assert(used_pairs(Seq::<Seq<char>>::empty(), variables@) == Seq::<(
            Seq<char>,
            Seq<char>,
        )>::empty());
        assert(out@.map_values(|p: (String, String)| (p.0@, p.1@)) + Seq::<(
            Seq<char>,
            Seq<char>,
        )>::empty() =~= out@.map_values(|p: (String, String)| (p.0@, p.1@)));
    }
    out
}

/// The headers with every value substituted, in order; `Err` carries the
/// name of the first unresolved placeholder.
pub open spec fn spec_subst_headers(
    headers: Seq<(Seq<char>, Seq<char>)>,
    vars: Seq<(Seq<char>, Seq<char>)>,
) -> Result<Seq<(Seq<char>, Seq<char>)>, Seq<char>>
    decreases headers.len(),
{
    if headers.len() == 0 {
        Ok(Seq::empty())
    } else {
        match spec_substitute(headers[0].1, vars) {
            Ok(v) => match spec_subst_headers(headers.drop_first(), vars) {
                Ok(rest) => Ok(seq![(headers[0].0, v)] + rest),
                Err(n) => Err(n),
            },
            Err(n) => Err(n),
        }
    }
}

/// The request with URL, header values and body resolved, scanning the
/// URL first, then the headers in order, then the body; `Err` carries the
/// name of the first unresolved placeholder.
pub open spec fn spec_resolve(
    rv: crate::request::RequestView,
    vars: Seq<(Seq<char>, Seq<char>)>,
) -> Result<crate::request::RequestView, Seq<char>> {
    match spec_substitute(rv.url, vars) {
        Ok(u) => match spec_subst_headers(rv.headers, vars) {
            Ok(hs) => match rv.body {
                Some(b) => match spec_substitute(b, vars) {
                    Ok(nb) => Ok(
                        crate::request::RequestView { url: u, headers: hs, body: Some(nb), ..rv },
                    ),
                    Err(n) => Err(n),
                },
                None => Ok(crate::request::RequestView { url: u, headers: hs, body: None, ..rv }),
            },
            Err(n) => Err(n),
        },
        Err(n) => Err(n),
    }
}

/// Pointwise-substituted headers assemble to the substituted header list.
proof fn lemma_subst_headers_ok(
    headers: Seq<(Seq<char>, Seq<char>)>,
    vars: Seq<(Seq<char>, Seq<char>)>,
    out: Seq<(Seq<char>, Seq<char>)>,
)
    requires
        out.len() == headers.len(),
        forall|t: int|
            0 <= t < headers.len() ==> (#[trigger] out[t]).0 == headers[t].0 && spec_substitute(
                headers[t].1,
                vars,
            ) == Ok::<Seq<char>, Seq<char>>(out[t].1),
    ensures
        spec_subst_headers(headers, vars) == Ok::<Seq<(Seq<char>, Seq<char>)>, Seq<char>>(out),
    decreases headers.len(),
{
    if headers.len() == 0 {
        assert(out =~= Seq::<(Seq<char>, Seq<char>)>::empty());
    } else {
        lemma_subst_headers_ok(headers.drop_first(), vars, out.drop_first());
        assert(out =~= seq![(headers[0].0, out[0].1)] + out.drop_first());
    }
}

/// A failing header value makes the whole header substitution fail with
/// its name, provided every earlier value succeeds.
proof fn lemma_subst_headers_err(
    headers: Seq<(Seq<char>, Seq<char>)>,
    vars: Seq<(Seq<char>, Seq<char>)>,
    i: int,
    n: Seq<char>,
)
    requires
        0 <= i < headers.len(),
        forall|t: int| 0 <= t < i ==> spec_substitute((#[trigger] headers[t]).1, vars) is Ok,
        spec_substitute(headers[i].1, vars) == Err::<Seq<char>, Seq<char>>(n),
    ensures
        spec_subst_headers(headers, vars) == Err::<Seq<(Seq<char>, Seq<char>)>, Seq<char>>(n),
    decreases headers.len(),
{
    if i > 0 {
        lemma_subst_headers_err(headers.drop_first(), vars, i - 1, n);
    }
}

/// Resolves a request against the variable table: the URL, each header
/// value (in order) and the body are substituted; name and method are
/// kept. The error names the first unresolved placeholder, scanning the
/// URL, then the headers, then the body.
pub fn resolve_request(req: &crate::request::Request, variables: &StrMap) -> (r: Result<
    crate::request::Request,
    VariableError,
>)
    requires
        req.wf(),
    ensures
        match r {
            Ok(res) => spec_resolve(req@, variables@) == Ok::<
                crate::request::RequestView,
                Seq<char>,
            >(res@) && res.wf(),
            Err(e) => e matches VariableError::UndefinedVariable(n) && spec_resolve(
                req@,
                variables@,
            ) == Err::<crate::request::RequestView, Seq<char>>(n@),
        },
{
    let url = match substitute(req.url.as_str(), variables) {
        Ok(u) => u,
        Err(e) => {
            return Err(e);
        },
    };
    let hn = req.headers.len();
    let mut headers = StrMap::new();
    let mut i: usize = 0;
    while i < hn
        invariant
            0 <= i <= hn,
            hn == req@.headers.len(),
            req.wf(),
            spec_substitute(req@.url, variables@) == Ok::<Seq<char>, Seq<char>>(url@),
            headers@.len() == i,
            forall|t: int|
                0 <= t < i ==> (#[trigger] headers@[t]).0 == req@.headers[t].0 && spec_substitute(
                    req@.headers[t].1,
                    variables@,
                ) == Ok::<Seq<char>, Seq<char>>(headers@[t].1),
            headers.wf(),
        decreases hn - i,
    {
        let (k, v) = req.headers.pair_at(i);
        let nv = match substitute(v.as_str(), variables) {
            Ok(nv) => nv,
            Err(e) => {
                proof {
                    assert forall|t: int|
                        0 <= t < i implies spec_substitute(
                        (#[trigger] req@.headers[t]).1,
                        variables@,
                    ) is Ok by {
                        assert(spec_substitute(req@.headers[t].1, variables@) == Ok::<
                            Seq<char>,
                            Seq<char>,
                        >(headers@[t].1));
                    }
                    match &e {
                        VariableError::UndefinedVariable(n) => {
                            lemma_subst_headers_err(req@.headers, variables@, i as int, n@);
                        },
                    }
                }
                return Err(e);
            },
        };
        let ghost prev = headers@;
        let kk = k.clone();
        let ghost gk = kk@;
        let ghost gv = nv@;
        headers.insert(kk, nv);
        proof {
            assert forall|t: int| 0 <= t < i implies prev[t].0 != gk by {
                assert(prev[t].0 == req@.headers[t].0);
            }
            crate::strmap::lemma_assoc_insert_absent(prev, gk, gv);
            assert(headers@ =~= prev + seq![(gk, gv)]);
        }
        i = i + 1;
    }
    proof {
        lemma_subst_headers_ok(req@.headers, variables@, headers@);
    }
    let body: Option<String> = match &req.body {
        Some(b) => {
            match substitute(b.as_str(), variables) {
                Ok(nb) => Some(nb),
                Err(e) => {
                    return Err(e);
                },
            }
        },
        None => None,
    };
    let res = crate::request::Request {
        name: match &req.name {
            Some(n) => Some(n.clone()),
            None => None,
        },
        method: req.method,
        url,
        headers,
        body,
    };
    Ok(res)
}

/// Scans for a placeholder starting exactly at `i`.
fn placeholder_at(s: &str, i: usize) -> (r: Option<usize>)
    requires
        i < s@.len(),
    ensures
        match r {
            Some(e) => placeholder_end(s@, i as int) == Some(e as int),
            None => placeholder_end(s@, i as int) is None,
        },
{
    let n = s.unicode_len();
    if n - i < 2 || s.get_char(i) != '{' || s.get_char(i + 1) != '{' {
        return None;
    }
    let mut j: usize = i + 2;
    while j < n && is_word_char(s.get_char(j))
        invariant
            i + 2 <= j <= n,
            n == s@.len(),
            word_end(s@, i as int + 2) == word_end(s@, j as int),
        decreases n - j,
    {
        j = j + 1;
    }
    if j > i + 2 && n - j >= 2 && s.get_char(j) == '}' && s.get_char(j + 1) == '}' {
        Some(j + 2)
    } else {
        None
    }
}

/// Resolves every `{{name}}` placeholder in `text` against `variables`;
/// fails with an `UndefinedVariable` error naming the first unresolved
/// placeholder. Non-placeholder text is returned verbatim, and substituted
/// values are not re-scanned.
pub fn substitute(text: &str, variables: &StrMap) -> (r: Result<String, VariableError>)
    ensures
        match r {
            Ok(out) => spec_substitute(text@, variables@) == Ok::<Seq<char>, Seq<char>>(out@),
            Err(e) => e matches VariableError::UndefinedVariable(n) && spec_substitute(
                text@,
                variables@,
            ) == Err::<Seq<char>, Seq<char>>(n@),
        },
{
    let n = text.unicode_len();
    let mut out = String::new();
    let mut i: usize = 0;
    while i < n
        invariant
            0 <= i <= n,
            n == text@.len(),
            spec_substitute(text@, variables@) == (match spec_substitute_from(
                text@,
                variables@,
                i as int,
            ) {
                Ok(rest) => Ok::<Seq<char>, Seq<char>>(out@ + rest),
                Err(m) => Err::<Seq<char>, Seq<char>>(m),
            }),
        decreases n - i,
    {
        match placeholder_at(text, i) {
            Some(e) => {
                proof {
                    lemma_placeholder_end(text@, i as int);
                }
                let name = text.substring_char(i + 2, e - 2);
                match variables.get(name) {
                    Some(v) => {
                        let ghost prev = out@;
                        out.append(v.as_str());
                        proof {
                            let rest_e = spec_substitute_from(text@, variables@, e as int);
                            if rest_e is Ok {
                                assert(prev + (v@ + rest_e->Ok_0) =~= out@ + rest_e->Ok_0);
                            }
                        }
                        i = e;
                    },
                    None => {
                        return Err(VariableError::UndefinedVariable(String::from_str(name)));
                    },
                }
            },
            None => {
                let piece = text.substring_char(i, i + 1);
                let ghost prev = out@;
                out.append(piece);
                proof {
                    assert(piece@ =~= seq![text@[i as int]]);
                    let rest_n = spec_substitute_from(text@, variables@, i as int + 1);
                    if rest_n is Ok {
                        assert(prev + (piece@ + rest_n->Ok_0) =~= out@ + rest_n->Ok_0);
                    }
                }
                i = i + 1;
            },
        }
    }
    proof {
        assert(spec_substitute_from(text@, variables@, n as int) == Ok::<Seq<char>, Seq<char>>(
            Seq::empty(),
        ));
        assert(out@ + Seq::<char>::empty() =~= out@);
    }
    Ok(out)
}

} // verus!
