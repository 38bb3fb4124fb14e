use vstd::prelude::*;
use vstd::string::StringExecFns;
use crate::http::headers::HeaderMap;
use crate::http::status_code::StatusCode;

verus! {

/// A response as plain values.
pub struct ResponseView {
    pub status: StatusCode,
    pub headers: Map<Seq<char>, Seq<char>>,
    pub body: Option<Seq<char>>,
}

/// One `name: value` line per header, in the order given.
pub open spec fn header_lines(pairs: Seq<(Seq<char>, Seq<char>)>) -> Seq<char>
    decreases pairs.len(),
{
    if pairs.len() == 0 {
        Seq::empty()
    } else {
        header_lines(pairs.drop_last()) + pairs.last().0 + ": "@ + pairs.last().1 + "\n"@
    }
}

/// The wire text of a response: status line, header lines, a blank line,
/// then the body if there is one.
pub open spec fn raw_response(
    status: StatusCode,
    pairs: Seq<(Seq<char>, Seq<char>)>,
    body: Option<Seq<char>>,
) -> Seq<char> {
    "HTTP/1.1 "@ + status.code_text_spec() + " "@ + status.reason_spec() + "\n"@ + header_lines(
        pairs,
    ) + "\r\n"@ + match body {
        Some(b) => b,
        None => Seq::empty(),
    }
}

/// A response to send back.
#[derive(Debug)]
pub struct Response {
    status_code: StatusCode,
    headers: HeaderMap,
    body: Option<String>,
}

impl View for Response {
    type V = ResponseView;

    closed spec fn view(&self) -> ResponseView {
        ResponseView {
            status: self.status_code,
            headers: self.headers@,
            body: match self.body {
                Some(b) => Some(b@),
                None => None,
            },
        }
    }
}

impl Response {
    /// The headers in the order `to_raw` writes them.
    pub closed spec fn header_pairs(&self) -> Seq<(Seq<char>, Seq<char>)> {
        self.headers.pairs()
    }

    /// A response made of the given parts.
    pub fn new(status_code: StatusCode, headers: HeaderMap, body: Option<String>) -> (r: Response)
        ensures
            r@ == (ResponseView {
                status: status_code,
                headers: headers@,
                body: match body {
                    Some(b) => Some(b@),
                    None => None,
                },
            }),
            r.header_pairs() == headers.pairs(),
    {
        Response { status_code, headers, body }
    }

    /// A 200 response that carries JSON text, marked with its content type.
    pub fn json_body(text: String) -> (r: Response)
        ensures
            r@ == (ResponseView {
                status: StatusCode::OK,
                headers: Map::empty().insert("Content-Type"@, "application/json"@),
                body: Some(text@),
            }),
    {
        let mut headers = HeaderMap::new();
        headers.insert("Content-Type".to_owned(), "application/json".to_owned());
        Response::new(StatusCode::OK, headers, Some(text))
    }

    /// The response's status.
    pub fn status_code(&self) -> (r: StatusCode)
        ensures
            r == self@.status,
    {
        self.status_code
    }

    /// The response's headers.
    pub fn headers(&self) -> (r: &HeaderMap)
        ensures
            r@ == self@.headers,
            r.pairs() == self.header_pairs(),
    {
        &self.headers
    }

    /// The response's body, if it has one.
    pub fn body(&self) -> (r: Option<&String>)
        ensures
            match r {
                Some(b) => self@.body == Some(b@),
                None => self@.body is None,
            },
    {
        match &self.body {
            Some(b) => Some(b),
            None => None,
        }
    }

    /// The wire text of the response. Headers come in storage order, and no
    /// `Content-Length` is added: a caller that needs one sets it.
    pub fn to_raw(&self) -> (r: String)
        ensures
            r@ == raw_response(self@.status, self.header_pairs(), self@.body),
    {
        let mut out = String::from_str("HTTP/1.1 ");
        out.append(self.status_code.code_text());
        out.append(" ");
        out.append(self.status_code.as_str());
        out.append("\n");
        let ghost head = out@;
        let n = self.headers.len();
        let mut i: usize = 0;
        while i < n
            invariant
                n == self.headers.pairs().len(),
                i <= n,
                out@ == head + header_lines(self.headers.pairs().take(i as int)),
            decreases n - i,
        {
            let (name, value) = self.headers.entry(i);
            let ghost p = self.headers.pairs();
            assert(p.take(i + 1).drop_last() =~= p.take(i as int));
            out.append(name.as_str());
            out.append(": ");
            out.append(value.as_str());
            out.append("\n");
            i = i + 1;
        }
        assert(self.headers.pairs().take(n as int) =~= self.headers.pairs());
        out.append("\r\n");
        if let Some(b) = &self.body {
            out.append(b.as_str());
        }
        assert(out@ =~= raw_response(self@.status, self.header_pairs(), self@.body));
        out
    }
}

} // verus!
