//! The request data model: HTTP methods, one parsed request, and the
//! request file that owns an ordered list of requests plus a variable table.

use vstd::prelude::*;

use crate::error::ParseError;
use crate::strmap::assoc_unique;
use crate::strmap::StrMap;

verus! {

/// The closed set of HTTP methods a request line may name.
#[derive(Debug, Clone, Copy, PartialEq, Eq, Structural)]
pub enum Method {
    Get,
    Post,
    Put,
    Patch,
    Delete,
    Head,
    Options,
}

/// `c` mapped to its ASCII uppercase code point, as an integer.
pub open spec fn upper_int(c: char) -> int {
    if 'a' <= c && c <= 'z' {
        c as int - 32
    } else {
        c as int
    }
}

/// Whether two sequences are equal ignoring ASCII case.
pub open spec fn eq_ignore_ascii_case(s: Seq<char>, t: Seq<char>) -> bool {
    s.len() == t.len() && forall|i: int| 0 <= i < s.len() ==> upper_int(s[i]) == upper_int(t[i])
}

/// The ASCII-uppercase code point of `c`.
pub fn upper_code(c: char) -> (r: u32)
    ensures
        r as int == upper_int(c),
{
    if 'a' <= c && c <= 'z' {
        c as u32 - 32
    } else {
        c as u32
    }
}

/// Compares two strings ignoring ASCII case.
pub fn str_eq_ignore_case(s: &str, t: &str) -> (r: bool)
    ensures
        r == eq_ignore_ascii_case(s@, t@),
{
    let n = s.unicode_len();
    if n != t.unicode_len() {
        return false;
    }
    let mut i: usize = 0;
    while i < n
        invariant
            0 <= i <= n,
            n == s@.len() == t@.len(),
            forall|j: int| 0 <= j < i ==> upper_int(s@[j]) == upper_int(t@[j]),
        decreases n - i,
    {
        let a = s.get_char(i);
        let b = t.get_char(i);
        let ua: u32 = if 'a' <= a && a <= 'z' {
            a as u32 - 32
        } else {
            a as u32
        };
        let ub: u32 = if 'a' <= b && b <= 'z' {
            b as u32 - 32
        } else {
            b as u32
        };
        if ua != ub {
            return false;
        }
        i = i + 1;
    }
    true
}

impl Method {
    /// The canonical (uppercase) spelling of this method.
    pub open spec fn spec_name(self) -> Seq<char> {
        match self {
            Method::Get => "GET"@,
            Method::Post => "POST"@,
            Method::Put => "PUT"@,
            Method::Patch => "PATCH"@,
            Method::Delete => "DELETE"@,
            Method::Head => "HEAD"@,
            Method::Options => "OPTIONS"@,
        }
    }

    /// The canonical spelling, for display and for building request text.
    pub fn as_str(&self) -> (r: &'static str)
        ensures
            r@ == self.spec_name(),
    {
        match self {
            Method::Get => "GET",
            Method::Post => "POST",
            Method::Put => "PUT",
            Method::Patch => "PATCH",
            Method::Delete => "DELETE",
            Method::Head => "HEAD",
            Method::Options => "OPTIONS",
        }
    }

    /// The method named by `s`, compared ignoring ASCII case; `None` when
    /// `s` names no method.
    pub open spec fn spec_of_token(s: Seq<char>) -> Option<Method> {
        if eq_ignore_ascii_case(s, "GET"@) {
            Some(Method::Get)
        } else if eq_ignore_ascii_case(s, "POST"@) {
            Some(Method::Post)
        } else if eq_ignore_ascii_case(s, "PUT"@) {
            Some(Method::Put)
        } else if eq_ignore_ascii_case(s, "PATCH"@) {
            Some(Method::Patch)
        } else if eq_ignore_ascii_case(s, "DELETE"@) {
            Some(Method::Delete)
        } else if eq_ignore_ascii_case(s, "HEAD"@) {
            Some(Method::Head)
        } else if eq_ignore_ascii_case(s, "OPTIONS"@) {
            Some(Method::Options)
        } else {
            None
        }
    }

    /// Parses a method token, case-insensitively; an unknown token is an
    /// `InvalidMethod` error carrying the token.
    pub fn from_str(s: &str) -> (r: Result<Method, ParseError>)
        ensures
            match r {
                Ok(m) => Method::spec_of_token(s@) == Some(m),
                Err(e) => Method::spec_of_token(s@) is None && (e matches ParseError::InvalidMethod(
                    t,
                ) && t@ == s@),
            },
    {
        if str_eq_ignore_case(s, "GET") {
            Ok(Method::Get)
        } else if str_eq_ignore_case(s, "POST") {
            Ok(Method::Post)
        } else if str_eq_ignore_case(s, "PUT") {
            Ok(Method::Put)
        } else if str_eq_ignore_case(s, "PATCH") {
            Ok(Method::Patch)
        } else if str_eq_ignore_case(s, "DELETE") {
            Ok(Method::Delete)
        } else if str_eq_ignore_case(s, "HEAD") {
            Ok(Method::Head)
        } else if str_eq_ignore_case(s, "OPTIONS") {
            Ok(Method::Options)
        } else {
            Err(ParseError::InvalidMethod(String::from_str(s)))
        }
    }
}

/// A method's canonical spelling is at least three characters, holds no
/// whitespace, starts with no marker character of the file grammar, and
/// parses back to the method it spells.
pub proof fn lemma_method_name(m: Method)
    ensures
        m.spec_name().len() >= 3,
        forall|j: int| 0 <= j < m.spec_name().len() ==> !crate::chars::spec_is_space(
            #[trigger] m.spec_name()[j],
        ),
        m.spec_name()[0] != '@' && m.spec_name()[0] != '#' && m.spec_name()[0] != '/',
        Method::spec_of_token(m.spec_name()) == Some(m),
{
    reveal_strlit("GET");
    reveal_strlit("POST");
    reveal_strlit("PUT");
    reveal_strlit("PATCH");
    reveal_strlit("DELETE");
    reveal_strlit("HEAD");
    reveal_strlit("OPTIONS");
    assert(!eq_ignore_ascii_case("PUT"@, "GET"@)) by {
        assert(upper_int("PUT"@[0]) != upper_int("GET"@[0]));
    }
    assert(!eq_ignore_ascii_case("HEAD"@, "POST"@)) by {
        assert(upper_int("HEAD"@[0]) != upper_int("POST"@[0]));
    }
    match m {
        Method::Get => {
            assert forall|j: int| 0 <= j < "GET"@.len() implies !crate::chars::spec_is_space(
                "GET"@[j],
            ) by {
                if j == 0 {
                } else if j == 1 {
                } else {
                }
            }
        },
        Method::Post => {
            assert forall|j: int| 0 <= j < "POST"@.len() implies !crate::chars::spec_is_space(
                "POST"@[j],
            ) by {
                if j == 0 {
                } else if j == 1 {
                } else if j == 2 {
                } else {
                }
            }
        },
        Method::Put => {
            assert forall|j: int| 0 <= j < "PUT"@.len() implies !crate::chars::spec_is_space(
                "PUT"@[j],
            ) by {
                if j == 0 {
                } else if j == 1 {
                } else {
                }
            }
        },
        Method::Patch => {
            assert forall|j: int| 0 <= j < "PATCH"@.len() implies !crate::chars::spec_is_space(
                "PATCH"@[j],
            ) by {
                if j == 0 {
                } else if j == 1 {
                } else if j == 2 {
                } else if j == 3 {
                } else {
                }
            }
        },
        Method::Delete => {
            assert forall|j: int| 0 <= j < "DELETE"@.len() implies !crate::chars::spec_is_space(
                "DELETE"@[j],
            ) by {
                if j == 0 {
                } else if j == 1 {
                } else if j == 2 {
                } else if j == 3 {
                } else if j == 4 {
                } else {
                }
            }
        },
        Method::Head => {
            assert forall|j: int| 0 <= j < "HEAD"@.len() implies !crate::chars::spec_is_space(
                "HEAD"@[j],
            ) by {
                if j == 0 {
                } else if j == 1 {
                } else if j == 2 {
                } else {
                }
            }
        },
        Method::Options => {
            assert forall|j: int| 0 <= j < "OPTIONS"@.len() implies !crate::chars::spec_is_space(
                "OPTIONS"@[j],
            ) by {
                if j == 0 {
                } else if j == 1 {
                } else if j == 2 {
                } else if j == 3 {
                } else if j == 4 {
                } else if j == 5 {
                } else {
                }
            }
        },
    }
}

/// The mathematical shape of one parsed request.
#[verifier::ext_equal]
pub struct RequestView {
    pub name: Option<Seq<char>>,
    pub method: Method,
    pub url: Seq<char>,
    pub headers: Seq<(Seq<char>, Seq<char>)>,
    pub body: Option<Seq<char>>,
}

/// One parsed, not-yet-substituted HTTP request description.
#[derive(Debug)]
pub struct Request {
    /// Display name inherited from the nearest `###` separator, if any.
    pub name: Option<String>,
    pub method: Method,
    /// Not validated as a URL; may contain `{{var}}` tokens.
    pub url: String,
    /// Header map; a repeated key keeps the latest value.
    pub headers: StrMap,
    /// `None` when the request has no body after trimming.
    pub body: Option<String>,
}

impl View for Request {
    type V = RequestView;

    open spec fn view(&self) -> RequestView {
        RequestView {
            name: match self.name {
                Some(n) => Some(n@),
                None => None,
            },
            method: self.method,
            url: self.url@,
            headers: self.headers@,
            body: match self.body {
                Some(b) => Some(b@),
                None => None,
            },
        }
    }
}

impl Clone for Request {
    /// A clone has the same view, so the same name, method, URL, headers
    /// and body.
    fn clone(&self) -> (res: Self)
        ensures
            res@ == self@,
    {
        let res = Request {
            name: match &self.name {
                Some(n) => Some(n.clone()),
                None => None,
            },
            method: self.method,
            url: self.url.clone(),
            headers: self.headers.clone(),
            body: match &self.body {
                Some(b) => Some(b.clone()),
                None => None,
            },
        };
        proof {
            assert(res@ == self@);
        }
        res
    }
}

impl Request {
    /// Header keys are unique.
    pub open spec fn wf(&self) -> bool {
        assoc_unique(self@.headers)
    }

    /// A bare request: no name, no headers, no body.
    pub fn new(method: Method, url: String) -> (r: Request)
        ensures
            r@.name is None,
            r@.method == method,
            r@.url == url@,
            r@.headers == Seq::<(Seq<char>, Seq<char>)>::empty(),
            r@.body is None,
            r.wf(),
    {
        Request { name: None, method, url, headers: StrMap::new(), body: None }
    }

    /// The same request, renamed.
    pub fn with_name(self, name: String) -> (r: Request)
        ensures
            r@ == (RequestView { name: Some(name@), ..self@ }),
            r.wf() == self.wf(),
    {
        let r = Request { name: Some(name), ..self };
        proof {
            assert(r@ == RequestView { name: Some(name@), ..self@ });
        }
        r
    }

    /// The same request with one more header; a repeated key takes the new
    /// value.
    pub fn with_header(self, key: String, value: String) -> (r: Request)
        requires
            self.wf(),
        ensures
            r@ == (RequestView {
                headers: crate::strmap::assoc_insert(self@.headers, key@, value@),
                ..self@
            }),
            r.wf(),
    {
        let mut headers = self.headers;
        headers.insert(key, value);
        let r = Request { headers, ..self };
        proof {
            crate::strmap::lemma_assoc_insert(self@.headers, key@, value@);
        }
        r
    }

    /// The same request with its body set.
    pub fn with_body(self, body: String) -> (r: Request)
        ensures
            r@ == (RequestView { body: Some(body@), ..self@ }),
            r.wf() == self.wf(),
    {
        let r = Request { body: Some(body), ..self };
        proof {
            assert(r@ == RequestView { body: Some(body@), ..self@ });
        }
        r
    }

    /// The request's display name, or `METHOD URL` when it has none.
    pub fn display_name(&self) -> (r: String)
        ensures
            r@ == match self@.name {
                Some(n) => n,
                None => self@.method.spec_name() + " "@ + self@.url,
            },
    {
        match &self.name {
            Some(n) => n.clone(),
            None => String::from_str(self.method.as_str()).concat(" ").concat(self.url.as_str()),
        }
    }
}

/// The mathematical shape of a loaded request file.
#[verifier::ext_equal]
pub struct HttpFileView {
    pub path: Seq<char>,
    pub requests: Seq<RequestView>,
    pub variables: Seq<(Seq<char>, Seq<char>)>,
}

/// A loaded request file: source path, requests in file order, and the
/// file-scoped variable table.
#[derive(Debug)]
pub struct HttpFile {
    pub path: String,
    pub requests: Vec<Request>,
    pub variables: StrMap,
}

impl View for HttpFile {
    type V = HttpFileView;

    open spec fn view(&self) -> HttpFileView {
        HttpFileView {
            path: self.path@,
            requests: self.requests@.map_values(|r: Request| r@),
            variables: self.variables@,
        }
    }
}

impl Clone for HttpFile {
    /// A clone has the same view, so the same path, requests and variables.
    fn clone(&self) -> (res: Self)
        ensures
            res@ == self@,
    {
        let n = self.requests.len();
        let mut requests: Vec<Request> = Vec::new();
        let mut i: usize = 0;
        while i < n
            invariant
                0 <= i <= n,
                n == self.requests@.len(),
                requests@.len() == i,
                forall|j: int| 0 <= j < i ==> (#[trigger] requests@[j])@ == self.requests@[j]@,
            decreases n - i,
        {
            requests.push(self.requests[i].clone());
            i = i + 1;
        }
        let res = HttpFile {
            path: self.path.clone(),
            requests,
            variables: self.variables.clone(),
        };
        proof {
            assert(res@.requests =~= self@.requests);
            assert(res@ == self@);
        }
        res
    }
}

impl HttpFile {
    /// All requests and the variable table are well formed.
    pub open spec fn wf(&self) -> bool {
        &&& forall|i: int| 0 <= i < self.requests@.len() ==> (#[trigger] self.requests@[i]).wf()
        &&& self.variables.wf()
    }

    /// An empty file at `path`: no requests, no variables.
    pub fn new(path: String) -> (r: HttpFile)
        ensures
            r.path@ == path@,
            r.requests@.len() == 0,
            r.variables@.len() == 0,
            r.wf(),
    {
        HttpFile { path, requests: Vec::new(), variables: StrMap::new() }
    }
}

} // verus!
