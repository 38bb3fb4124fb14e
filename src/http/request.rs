use vstd::prelude::*;
use vstd::utf8::{decode_utf8, valid_utf8};
use crate::http::headers::HeaderMap;
use crate::http::method::{method_in, method_of, Method};
use crate::http::parse_error::{ParseError, ParseErrorView};
use crate::http::text::{
    decode_lossy, lemma_line_end_bounds,
    line_at, line_bounds, line_end, lossy_text, next_line, skip_white, skip_white_in,
    text_between, text_of, word_end, word_end_in,
};

verus! {

/// A request as plain values.
pub struct RequestView {
    pub method: Method,
    pub path: Seq<char>,
    pub headers: Map<Seq<char>, Seq<char>>,
    pub body: Option<Seq<char>>,
}

/// The name of the header that declares the body's length.
pub open spec fn content_length_name() -> Seq<char> {
    seq!['C', 'o', 'n', 't', 'e', 'n', 't', '-', 'L', 'e', 'n', 'g', 't', 'h']
}

pub open spec fn is_digit(c: char) -> bool {
    '0' as u32 <= c as u32 <= '9' as u32
}

/// Value of a string of decimal digits.
pub open spec fn decimal_value(s: Seq<char>) -> nat
    decreases s.len(),
{
    if s.len() == 0 {
        0
    } else {
        decimal_value(s.drop_last()) * 10 + (s.last() as u32 - '0' as u32) as nat
    }
}

/// The digits of a number written with an optional leading `+`.
pub open spec fn unsigned_digits(s: Seq<char>) -> Seq<char> {
    if s.len() > 0 && s[0] == '+' {
        s.drop_first()
    } else {
        s
    }
}

/// The `usize` that `s` writes in decimal, if it writes one.
pub open spec fn length_value(s: Seq<char>) -> Option<nat> {
    let d = unsigned_digits(s);
    if d.len() > 0 && (forall|i: int| 0 <= i < d.len() ==> is_digit(#[trigger] d[i]))
        && decimal_value(d) <= usize::MAX {
        Some(decimal_value(d))
    } else {
        None
    }
}

/// First position `j >= i` where `": "` starts in `l`, or `l.len()`.
pub open spec fn separator_at(l: Seq<char>, i: int) -> int
    decreases l.len() - i,
{
    if 0 <= i && i + 1 < l.len() {
        if l[i] == ':' && l[i + 1] == ' ' {
            i
        } else {
            separator_at(l, i + 1)
        }
    } else {
        l.len() as int
    }
}

/// A header line split at its first `": "` into name and value.
pub open spec fn header_split(l: Seq<char>) -> Option<(Seq<char>, Seq<char>)> {
    let s = separator_at(l, 0);
    if s < l.len() {
        Some((l.subrange(0, s), l.subrange(s + 2, l.len() as int)))
    } else {
        None
    }
}

/// Reads header lines from position `i` on into `acc`, up to an empty line
/// (which is consumed) or the end; gives the headers and where reading
/// stopped, or nothing where a line is no header.
pub open spec fn headers_from(t: Seq<char>, i: int, acc: Map<Seq<char>, Seq<char>>) -> Option<
    (Map<Seq<char>, Seq<char>>, int),
>
    decreases t.len() - i,
    via headers_from_decreases
{
    if i < 0 || i >= t.len() {
        Some((acc, i))
    } else if line_at(t, i).len() == 0 {
        Some((acc, next_line(t, i)))
    } else {
        match header_split(line_at(t, i)) {
            Some(kv) => headers_from(t, next_line(t, i), acc.insert(kv.0, kv.1)),
            None => None,
        }
    }
}

#[via_fn]
proof fn headers_from_decreases(t: Seq<char>, i: int, acc: Map<Seq<char>, Seq<char>>) {
    if 0 <= i < t.len() {
        lemma_line_end_bounds(t, i);
    }
}

/// The lines from position `i` on, joined with no line ends.
pub open spec fn joined_from(t: Seq<char>, i: int) -> Seq<char>
    decreases t.len() - i,
    via joined_from_decreases
{
    if i < 0 || i >= t.len() {
        Seq::empty()
    } else {
        line_at(t, i) + joined_from(t, next_line(t, i))
    }
}

#[via_fn]
proof fn joined_from_decreases(t: Seq<char>, i: int) {
    if 0 <= i < t.len() {
        lemma_line_end_bounds(t, i);
    }
}

/// The body: the first N characters of `rest`, where the headers declare a
/// length N that `rest` reaches; otherwise none. A body shorter than its
/// declared length (say, cut off by the single read) is therefore reported
/// as no body at all, not as an error.
pub open spec fn body_of(headers: Map<Seq<char>, Seq<char>>, rest: Seq<char>) -> Option<Seq<char>> {
    if headers.contains_key(content_length_name()) {
        match length_value(headers[content_length_name()]) {
            Some(n) => if n <= rest.len() {
                Some(rest.take(n as int))
            } else {
                None
            },
            None => None,
        }
    } else {
        None
    }
}

/// What a request text parses to.
pub open spec fn parse_request(t: Seq<char>) -> Result<RequestView, ParseErrorView> {
    let l = line_at(t, 0);
    let a0 = skip_white(l, 0);
    let b0 = word_end(l, a0);
    let a1 = skip_white(l, b0);
    let b1 = word_end(l, a1);
    let a2 = skip_white(l, b1);
    if t.len() == 0 {
        Err(ParseErrorView::EmptyRequest)
    } else if a0 >= l.len() {
        Err(ParseErrorView::MissingMethod)
    } else if a1 >= l.len() {
        Err(ParseErrorView::MissingPath)
    } else if a2 >= l.len() {
        Err(ParseErrorView::MissingVersion)
    } else {
        match method_of(l.subrange(a0, b0)) {
            None => Err(ParseErrorView::UnsupportedMethod(l.subrange(a0, b0))),
            Some(m) => match headers_from(t, next_line(t, 0), Map::empty()) {
                None => Err(ParseErrorView::InvalidHeaderLine),
                Some(hp) => Ok(
                    RequestView {
                        method: m,
                        path: l.subrange(a1, b1),
                        headers: hp.0,
                        body: body_of(hp.0, joined_from(t, hp.1)),
                    },
                ),
            },
        }
    }
}

/// The number that `v` writes, where it writes one no greater than `limit`.
fn length_within(v: &str, limit: usize) -> (r: Option<usize>)
    ensures
        match r {
            Some(n) => length_value(v@) == Some(n as nat) && n <= limit,
            None => length_value(v@) is None || length_value(v@)->0 > limit,
        },
{
    let n = v.unicode_len();
    let mut i: usize = 0;
    if n > 0 && v.get_char(0) == '+' {
        i = 1;
    }
    let start = i;
    let ghost d = unsigned_digits(v@);
    assert(d =~= v@.subrange(start as int, n as int));
    if start == n {
        return None;
    }
    let mut acc: usize = 0;
    while i < n
        invariant
            n == v@.len(),
            start <= i <= n,
            d == v@.subrange(start as int, n as int),
            d == unsigned_digits(v@),
            acc as nat == decimal_value(d.take(i - start)),
            acc <= limit,
            forall|j: int| 0 <= j < i - start ==> is_digit(#[trigger] d[j]),
        decreases n - i,
    {
        let c = v.get_char(i);
        assert(d[i - start] == c);
        if !('0' <= c && c <= '9') {
            assert(!is_digit(d[i - start]));
            return None;
        }
        assert(d.take(i - start + 1).drop_last() =~= d.take(i - start));
        let dv = (c as u32 - '0' as u32) as usize;
        assert(decimal_value(d.take(i - start + 1)) == acc * 10 + dv);
        let next = match acc.checked_mul(10) {
            Some(a) => a.checked_add(dv),
            None => None,
        };
        match next {
            Some(b) => {
                if b > limit {
                    proof {
                        lemma_prefix_value_le(d, i - start + 1);
                    }
                    return None;
                }
                acc = b;
            },
            None => {
                proof {
                    lemma_prefix_value_le(d, i - start + 1);
                    assert(acc * 10 + dv > usize::MAX);
                }
                return None;
            },
        }
        i = i + 1;
    }
    assert(d.take(n - start) =~= d);
    Some(acc)
}

/// A prefix of a digit string has no greater value than the whole string.
proof fn lemma_prefix_value_le(d: Seq<char>, k: int)
    requires
        0 <= k <= d.len(),
    ensures
        (forall|i: int| 0 <= i < d.len() ==> is_digit(#[trigger] d[i])) ==> decimal_value(
            d.take(k),
        ) <= decimal_value(d),
    decreases d.len(),
{
    if k == d.len() {
        assert(d.take(k) =~= d);
    } else {
        lemma_prefix_value_le(d.drop_last(), k);
        assert(d.drop_last().take(k) =~= d.take(k));
        if forall|i: int| 0 <= i < d.len() ==> is_digit(#[trigger] d[i]) {
            assert(forall|i: int|
                0 <= i < d.drop_last().len() ==> is_digit(#[trigger] d.drop_last()[i])) by {
                assert forall|i: int| 0 <= i < d.drop_last().len() implies is_digit(
                    #[trigger] d.drop_last()[i],
                ) by {
                    assert(d.drop_last()[i] == d[i]);
                }
            }
            let x = decimal_value(d.drop_last());
            assert(x <= x * 10) by (nonlinear_arith);
        }
    }
}

proof fn lemma_separator_bounds(l: Seq<char>, i: int)
    requires
        0 <= i <= l.len(),
    ensures
        i <= separator_at(l, i) <= l.len(),
        separator_at(l, i) < l.len() ==> separator_at(l, i) + 1 < l.len(),
    decreases l.len() - i,
{
    if i + 1 < l.len() && !(l[i] == ':' && l[i + 1] == ' ') {
        lemma_separator_bounds(l, i + 1);
    }
}

/// Index of the first `": "` in `t[lo..hi]`, or `hi`.
fn separator_in(t: &Vec<char>, lo: usize, hi: usize) -> (r: usize)
    requires
        lo <= hi <= t@.len(),
    ensures
        r == lo + separator_at(t@.subrange(lo as int, hi as int), 0),
{
    let ghost l = t@.subrange(lo as int, hi as int);
    let mut j = lo;
    while hi - j >= 2
        invariant
            lo <= j <= hi <= t@.len(),
            l == t@.subrange(lo as int, hi as int),
            separator_at(l, j - lo) == separator_at(l, 0),
        decreases hi - j,
    {
        assert(l[j - lo] == t@[j as int] && l[j + 1 - lo] == t@[j + 1]);
        if t[j] == ':' && t[j + 1] == ' ' {
            return j;
        }
        j = j + 1;
    }
    hi
}

/// Reads the header lines from `pos` on (see `headers_from`).
fn read_headers(t: &Vec<char>, pos: usize) -> (r: Option<(HeaderMap, usize)>)
    requires
        pos <= t@.len(),
    ensures
        match r {
            Some(hp) => headers_from(t@, pos as int, Map::empty()) == Some((hp.0@, hp.1 as int))
                && hp.1 <= t@.len(),
            None => headers_from(t@, pos as int, Map::empty()) is None,
        },
{
    let mut headers = HeaderMap::new();
    let mut p = pos;
    loop
        invariant
            pos <= p <= t@.len(),
            headers_from(t@, p as int, headers@) == headers_from(t@, pos as int, Map::empty()),
        decreases t@.len() - p,
    {
        if p >= t.len() {
            return Some((headers, p));
        }
        let (e, n) = line_bounds(t, p);
        let ghost l = line_at(t@, p as int);
        if e == p {
            return Some((headers, n));
        }
        assert(l == t@.subrange(p as int, e as int));
        let s = separator_in(t, p, e);
        proof {
            lemma_separator_bounds(l, 0);
        }
        if s >= e {
            return None;
        }
        assert(l.subrange(0, s - p) =~= t@.subrange(p as int, s as int));
        assert(l.subrange(s - p + 2, l.len() as int) =~= t@.subrange(s + 2, e as int));
        let name = text_between(t, p, s);
        let value = text_between(t, s + 2, e);
        headers.insert(name, value);
        p = n;
    }
}

/// The characters of the lines from `pos` on, joined with no line ends.
fn join_lines(t: &Vec<char>, pos: usize) -> (r: Vec<char>)
    requires
        pos <= t@.len(),
    ensures
        r@ == joined_from(t@, pos as int),
{
    let mut out: Vec<char> = Vec::new();
    let mut p = pos;
    while p < t.len()
        invariant
            pos <= p <= t@.len(),
            out@ + joined_from(t@, p as int) == joined_from(t@, pos as int),
        decreases t@.len() - p,
    {
        let (e, n) = line_bounds(t, p);
        let ghost before = out@;
        let mut k = p;
        while k < e
            invariant
                p <= k <= e <= t@.len(),
                out@ == before + t@.subrange(p as int, k as int),
            decreases e - k,
        {
            out.push(t[k]);
            assert(t@.subrange(p as int, k + 1) =~= t@.subrange(p as int, k as int).push(t@[k as int]));
            k = k + 1;
        }
        assert(before + (line_at(t@, p as int) + joined_from(t@, n as int)) =~= out@ + joined_from(t@, n as int));
        p = n;
    }
    assert(joined_from(t@, p as int) =~= Seq::<char>::empty());
    assert(out@ + Seq::<char>::empty() =~= out@);
    out
}

/// A parsed request.
#[derive(Debug)]
pub struct Request {
    method: Method,
    path: String,
    headers: HeaderMap,
    body: Option<String>,
}

impl View for Request {
    type V = RequestView;

    closed spec fn view(&self) -> RequestView {
        RequestView {
            method: self.method,
            path: self.path@,
            headers: self.headers@,
            body: match self.body {
                Some(b) => Some(b@),
                None => None,
            },
        }
    }
}

/// The result of parsing, as plain values.
pub open spec fn parse_result_view(r: Result<Request, ParseError>) -> Result<RequestView, ParseErrorView> {
    match r {
        Ok(req) => Ok(req@),
        Err(e) => Err(e@),
    }
}

impl Request {
    /// A request made of the given parts.
    pub fn new(method: Method, path: String, headers: HeaderMap, body: Option<String>) -> (r: Request)
        ensures
            r@ == (RequestView {
                method,
                path: path@,
                headers: headers@,
                body: match body {
                    Some(b) => Some(b@),
                    None => None,
                },
            }),
    {
        Request { method, path, headers, body }
    }

    /// Parses the text of a request (see `parse_request`).
    pub fn from_text(t: &Vec<char>) -> (r: Result<Request, ParseError>)
        ensures
            parse_result_view(r) == parse_request(t@),
    {
        if t.len() == 0 {
            return Err(ParseError::EmptyRequest);
        }
        let (e, n) = line_bounds(t, 0);
        let ghost l = line_at(t@, 0);
        assert(l == t@.subrange(0, e as int));
        let a0 = skip_white_in(t, 0, e, 0);
        if a0 >= e {
            return Err(ParseError::MissingMethod);
        }
        let b0 = word_end_in(t, 0, e, a0);
        let a1 = skip_white_in(t, 0, e, b0);
        if a1 >= e {
            return Err(ParseError::MissingPath);
        }
        let b1 = word_end_in(t, 0, e, a1);
        let a2 = skip_white_in(t, 0, e, b1);
        if a2 >= e {
            return Err(ParseError::MissingVersion);
        }
        assert(l.subrange(a0 as int, b0 as int) =~= t@.subrange(a0 as int, b0 as int));
        assert(l.subrange(a1 as int, b1 as int) =~= t@.subrange(a1 as int, b1 as int));
        let method = match method_in(t, a0, b0) {
            Some(m) => m,
            None => {
                return Err(ParseError::UnsupportedMethod(text_between(t, a0, b0)));
            },
        };
        let path = text_between(t, a1, b1);
        let (headers, rest_at) = match read_headers(t, n) {
            Some(hp) => hp,
            None => {
                return Err(ParseError::InvalidHeaderLine);
            },
        };
        let body = match headers.get("Content-Length") {
            Some(v) => {
                let rest = join_lines(t, rest_at);
                match length_within(v.as_str(), rest.len()) {
                    Some(len) => Some(
                        text_of(vstd::slice::slice_subrange(rest.as_slice(), 0, len)),
                    ),
                    None => None,
                }
            },
            None => None,
        };
        proof {
            reveal_strlit("Content-Length");
            assert("Content-Length"@ =~= content_length_name());
        }
        Ok(Request::new(method, path, headers, body))
    }

    /// Parses a raw request buffer; bytes that are not UTF-8 become
    /// replacement characters.
    pub fn from_raw(buffer: &[u8]) -> (r: Result<Request, ParseError>)
        ensures
            parse_result_view(r) == parse_request(lossy_text(buffer@)),
            valid_utf8(buffer@) ==> parse_result_view(r) == parse_request(decode_utf8(buffer@)),
    {
        let t = decode_lossy(buffer);
        Request::from_text(&t)
    }

    /// The request's method.
    pub fn method(&self) -> (r: &Method)
        ensures
            *r == self@.method,
    {
        &self.method
    }

    /// The request's path, exactly as received.
    pub fn path(&self) -> (r: &str)
        ensures
            r@ == self@.path,
    {
        self.path.as_str()
    }

    /// The request's headers.
    pub fn headers(&self) -> (r: &HeaderMap)
        ensures
            r@ == self@.headers,
    {
        &self.headers
    }

    /// The request's body, if it has one.
    pub fn body(&self) -> (r: Option<&String>)
        ensures
            match r {
                Some(b) => self@.body == Some(b@),
                None => self@.body is None,
            },
    {
        match &self.body {
            Some(b) => Some(b),
            None => None,
        }
    }
}

} // verus!
