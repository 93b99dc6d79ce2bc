//! The response record a transport call produces, and the synthetic
//! response that stands in for a failure so that history and rendering
//! treat failures uniformly with successes.

use vstd::prelude::*;

verus! {

/// The mathematical shape of a response.
#[verifier::ext_equal]
pub struct ResponseView {
    pub status: u16,
    pub status_text: Seq<char>,
    pub headers: Seq<(Seq<char>, Seq<char>)>,
    pub body: Seq<char>,
    pub duration_ms: u64,
}

/// One HTTP response (or a synthesized stand-in for a failure): status
/// code, reason text, headers in wire order, body text, and the elapsed
/// time in milliseconds.
#[derive(Debug)]
pub struct Response {
    pub status: u16,
    pub status_text: String,
    pub headers: Vec<(String, String)>,
    pub body: String,
    pub duration_ms: u64,
}

impl View for Response {
    type V = ResponseView;

    open spec fn view(&self) -> ResponseView {
        ResponseView {
            status: self.status,
            status_text: self.status_text@,
            headers: self.headers@.map_values(|p: (String, String)| (p.0@, p.1@)),
            body: self.body@,
            duration_ms: self.duration_ms,
        }
    }
}

impl Clone for Response {
    /// A clone has the same view, so the same status, reason, headers,
    /// body and duration.
    fn clone(&self) -> (res: Self)
        ensures
            res@ == self@,
    {
        let n = self.headers.len();
        let mut headers: Vec<(String, String)> = Vec::new();
        let mut i: usize = 0;
        while i < n
            invariant
                0 <= i <= n,
                n == self.headers@.len(),
                headers@.len() == i,
                forall|j: int|
                    0 <= j < i ==> headers@[j].0 == self.headers@[j].0 && headers@[j].1
                        == self.headers@[j].1,
            decreases n - i,
        {
            let p = &self.headers[i];
            headers.push((p.0.clone(), p.1.clone()));
            i = i + 1;
        }
        let res = Response {
            status: self.status,
            status_text: self.status_text.clone(),
            headers,
            body: self.body.clone(),
            duration_ms: self.duration_ms,
        };
        proof {
            assert(res@.headers =~= self@.headers);
            assert(res@ == self@);
        }
        res
    }
}

/// The shape of the synthetic response standing for a failure: status 0,
/// reason `Error`, no headers, the failure message as the body, zero
/// duration.
pub open spec fn spec_error_response(message: Seq<char>) -> ResponseView {
    ResponseView {
        status: 0,
        status_text: "Error"@,
        headers: Seq::empty(),
        body: message,
        duration_ms: 0,
    }
}

/// Builds the synthetic response for a failed execution, carrying the
/// human-readable failure message as its body.
pub fn error_response(message: String) -> (r: Response)
    ensures
        r@ == spec_error_response(message@),
{
    let r = Response {
        status: 0,
        status_text: String::from_str("Error"),
        headers: Vec::new(),
        body: message,
        duration_ms: 0,
    };
    proof {
        assert(r@.headers =~= Seq::<(Seq<char>, Seq<char>)>::empty());
        assert(r@ == spec_error_response(r.body@));
    }
    r
}

} // verus!
