use vstd::prelude::*;
use vstd::utf8::{
    decode_utf8, encode_utf8, encode_utf8_decode_utf8, encode_utf8_valid_utf8, valid_utf8,
};
use crate::http::method::{method_of, Method};
use crate::http::request::{
    body_of, content_length_name, header_split, headers_from, joined_from, length_value,
    parse_request, separator_at, RequestView,
};
use crate::http::parse_error::ParseErrorView;
use crate::http::text::{is_white, line_at, line_end, next_line, skip_white, word_end};
use crate::table::table_of;

verus! {

/// Line end as written by a client: carriage return, line feed.
pub open spec fn crlf() -> Seq<char> {
    seq!['\r', '\n']
}

/// A header line as written on the wire: `name: value` and a line end.
pub open spec fn header_text(h: (Seq<char>, Seq<char>)) -> Seq<char> {
    h.0 + seq![':', ' '] + h.1 + crlf()
}

/// The header lines for `hs`, in order.
pub open spec fn headers_text(hs: Seq<(Seq<char>, Seq<char>)>) -> Seq<char>
    decreases hs.len(),
{
    if hs.len() == 0 {
        Seq::empty()
    } else {
        headers_text(hs.drop_last()) + header_text(hs.last())
    }
}

/// The request line: method token, path and version, one space apart.
pub open spec fn request_line(token: Seq<char>, path: Seq<char>, version: Seq<char>) -> Seq<char> {
    token + seq![' '] + path + seq![' '] + version
}

/// A whole request text: request line, header lines, blank line, body.
pub open spec fn request_text(
    token: Seq<char>,
    path: Seq<char>,
    version: Seq<char>,
    hs: Seq<(Seq<char>, Seq<char>)>,
    body: Seq<char>,
) -> Seq<char> {
    request_line(token, path, version) + crlf() + headers_text(hs) + crlf() + body
}

/// A non-empty run of characters none of which is white space.
pub open spec fn is_word(s: Seq<char>) -> bool {
    s.len() > 0 && forall|i: int| 0 <= i < s.len() ==> !is_white(#[trigger] s[i])
}

/// A header that can be written on one line and read back: its name holds
/// no `:` and neither part holds a line feed.
pub open spec fn writable_header(h: (Seq<char>, Seq<char>)) -> bool {
    (forall|i: int| 0 <= i < h.0.len() ==> #[trigger] h.0[i] != ':' && h.0[i] != '\n') && (
    forall|i: int| 0 <= i < h.1.len() ==> #[trigger] h.1[i] != '\n')
}

proof fn lemma_line_end_at(t: Seq<char>, i: int, j: int)
    requires
        0 <= i <= j <= t.len(),
        forall|k: int| i <= k < j ==> #[trigger] t[k] != '\n',
        j == t.len() || t[j] == '\n',
    ensures
        line_end(t, i) == j,
    decreases j - i,
{
    if i < j {
        lemma_line_end_at(t, i + 1, j);
    }
}

proof fn lemma_skip_white_at(l: Seq<char>, i: int, j: int)
    requires
        0 <= i <= j <= l.len(),
        forall|k: int| i <= k < j ==> is_white(#[trigger] l[k]),
        j == l.len() || !is_white(l[j]),
    ensures
        skip_white(l, i) == j,
    decreases j - i,
{
    if i < j {
        lemma_skip_white_at(l, i + 1, j);
    }
}

proof fn lemma_word_end_at(l: Seq<char>, i: int, j: int)
    requires
        0 <= i <= j <= l.len(),
        forall|k: int| i <= k < j ==> !is_white(#[trigger] l[k]),
        j == l.len() || is_white(l[j]),
    ensures
        word_end(l, i) == j,
    decreases j - i,
{
    if i < j {
        lemma_word_end_at(l, i + 1, j);
    }
}

proof fn lemma_separator_first(l: Seq<char>, i: int, j: int)
    requires
        0 <= i <= j,
        j + 1 < l.len(),
        l[j] == ':' && l[j + 1] == ' ',
        forall|k: int| i <= k < j ==> #[trigger] l[k] != ':',
    ensures
        separator_at(l, i) == j,
    decreases j - i,
{
    if i < j {
        lemma_separator_first(l, i + 1, j);
    }
}

/// The header lines of a prefix of `hs` begin the header lines of `hs`.
proof fn lemma_headers_prefix(hs: Seq<(Seq<char>, Seq<char>)>, k: int)
    requires
        0 <= k <= hs.len(),
    ensures
        headers_text(hs.take(k)).len() <= headers_text(hs).len(),
        headers_text(hs).subrange(0, headers_text(hs.take(k)).len() as int) == headers_text(
            hs.take(k),
        ),
    decreases hs.len(),
{
    if k == hs.len() {
        assert(hs.take(k) =~= hs);
        assert(headers_text(hs).subrange(0, headers_text(hs).len() as int) =~= headers_text(hs));
    } else {
        lemma_headers_prefix(hs.drop_last(), k);
        assert(hs.drop_last().take(k) =~= hs.take(k));
        let a = headers_text(hs.drop_last());
        let n = headers_text(hs.take(k)).len() as int;
        assert(headers_text(hs).subrange(0, n) =~= a.subrange(0, n));
    }
}

/// Reading the header lines of `hs` from the line of header `j` on ends
/// with the map of all of `hs`, just past the blank line.
proof fn lemma_read_headers(
    t: Seq<char>,
    q0: int,
    hs: Seq<(Seq<char>, Seq<char>)>,
    j: int,
)
    requires
        0 <= j <= hs.len(),
        0 <= q0,
        q0 + headers_text(hs).len() as int + 2 <= t.len(),
        t.subrange(q0, q0 + headers_text(hs).len()) == headers_text(hs),
        t[q0 + headers_text(hs).len()] == '\r',
        t[q0 + headers_text(hs).len() as int + 1] == '\n',
        forall|i: int| 0 <= i < hs.len() ==> writable_header(#[trigger] hs[i]),
    ensures
        headers_from(t, q0 + headers_text(hs.take(j)).len(), table_of(hs.take(j))) == Some(
            (table_of(hs), q0 + headers_text(hs).len() as int + 2),
        ),
    decreases hs.len() as int - j,
{
    let h = headers_text(hs);
    let pj: int = q0 + headers_text(hs.take(j)).len();
    if j == hs.len() {
        assert(hs.take(j) =~= hs);
        lemma_line_end_at(t, pj, pj + 1);
        assert(line_at(t, pj) =~= Seq::<char>::empty());
    } else {
        let e = hs[j];
        let line = header_text(e);
        assert(hs.take(j + 1).drop_last() =~= hs.take(j));
        lemma_headers_prefix(hs, j + 1);
        let pn: int = q0 + headers_text(hs.take(j + 1)).len();
        assert(pn == pj + line.len());
        assert(h.subrange(pj - q0, pn - q0) =~= line) by {
            let pre = headers_text(hs.take(j + 1));
            assert(h.subrange(0, pre.len() as int) == pre);
            assert(pre.subrange(pj - q0, pn - q0) =~= line);
        }
        assert(t.subrange(pj, pn) =~= line) by {
            assert forall|k: int| pj <= k < pn implies t[k] == line[k - pj] by {
                assert(t.subrange(q0, q0 + h.len())[k - q0] == t[k]);
                assert(h.subrange(pj - q0, pn - q0)[k - pj] == h[k - q0]);
            }
        }
        assert(writable_header(e));
        assert forall|k: int| pj <= k < pn - 1 implies #[trigger] t[k] != '\n' by {
            assert(t.subrange(pj, pn)[k - pj] == t[k]);
            let m = k - pj;
            if m < e.0.len() {
                assert(line[m] == e.0[m]);
            } else if m < e.0.len() as int + 2 {
            } else if m < e.0.len() as int + 2 + e.1.len() {
                assert(line[m] == e.1[m - e.0.len() as int - 2]);
            } else {
            }
        }
        assert(t[pn - 1] == line[line.len() as int - 1]);
        assert(t[pn - 2] == line[line.len() as int - 2]);
        lemma_line_end_at(t, pj, pn - 1);
        let l = line_at(t, pj);
        assert(l =~= e.0 + seq![':', ' '] + e.1) by {
            assert(t.subrange(pj, pn - 2) =~= t.subrange(pj, pn).subrange(0, line.len() as int - 2));
            assert(line.subrange(0, line.len() as int - 2) =~= e.0 + seq![':', ' '] + e.1);
        }
        assert(l[e.0.len() as int] == ':' && l[e.0.len() as int + 1] == ' ');
        assert forall|k: int| 0 <= k < e.0.len() implies #[trigger] l[k] != ':' by {
            assert(l[k] == e.0[k]);
        }
        lemma_separator_first(l, 0, e.0.len() as int);
        assert(l.subrange(0, e.0.len() as int) =~= e.0);
        assert(l.subrange(e.0.len() as int + 2, l.len() as int) =~= e.1);
        assert(header_split(l) == Some((e.0, e.1)));
        assert(next_line(t, pj) == pn);
        lemma_read_headers(t, q0, hs, j + 1);
    }
}

/// Reading back a request written from a valid method token, a path, a
/// version, header lines and a body whose length the `Content-Length`
/// header declares gives exactly the method, path, headers and body it
/// was written from; the same holds of the request's UTF-8 bytes, which
/// `Request::from_raw` reads as `decode_utf8` does.
pub proof fn lemma_request_round_trip(
    token: Seq<char>,
    method: Method,
    path: Seq<char>,
    version: Seq<char>,
    hs: Seq<(Seq<char>, Seq<char>)>,
    body: Seq<char>,
)
    requires
        is_word(token),
        method_of(token) == Some(method),
        is_word(path),
        is_word(version),
        forall|i: int| 0 <= i < hs.len() ==> writable_header(#[trigger] hs[i]),
        table_of(hs).contains_key(content_length_name()),
        length_value(table_of(hs)[content_length_name()]) == Some(body.len()),
        forall|i: int| 0 <= i < body.len() ==> #[trigger] body[i] != '\n',
    ensures
        parse_request(request_text(token, path, version, hs, body)) == Ok::<_, ParseErrorView>(
            RequestView { method, path, headers: table_of(hs), body: Some(body) },
        ),
        valid_utf8(encode_utf8(request_text(token, path, version, hs, body))),
        parse_request(decode_utf8(encode_utf8(request_text(token, path, version, hs, body))))
            == Ok::<_, ParseErrorView>(
            RequestView { method, path, headers: table_of(hs), body: Some(body) },
        ),
{
    let t = request_text(token, path, version, hs, body);
    encode_utf8_valid_utf8(t);
    encode_utf8_decode_utf8(t);
    let l0 = request_line(token, path, version);
    let h = headers_text(hs);
    let q0: int = l0.len() as int + 2;
    let n0 = token.len() as int;
    let n1: int = n0 + 1 + path.len();
    // The request line.
    assert forall|k: int| 0 <= k < l0.len() implies #[trigger] l0[k] != '\n' && (k == n0 || k
        == n1 || !is_white(l0[k])) by {
        if k < n0 {
            assert(l0[k] == token[k]);
        } else if k == n0 {
        } else if k < n1 {
            assert(l0[k] == path[k - n0 - 1]);
        } else if k == n1 {
        } else {
            assert(l0[k] == version[k - n1 - 1]);
        }
    }
    assert forall|k: int| 0 <= k < l0.len() implies #[trigger] t[k] == l0[k] by {}
    assert(t[l0.len() as int] == '\r' && t[l0.len() as int + 1] == '\n');
    lemma_line_end_at(t, 0, l0.len() as int + 1);
    assert(line_at(t, 0) =~= l0);
    assert(next_line(t, 0) == q0);
    assert(l0[n0] == ' ' && is_white(' '));
    assert(l0[n1] == ' ');
    lemma_skip_white_at(l0, 0, 0);
    lemma_word_end_at(l0, 0, n0);
    lemma_skip_white_at(l0, n0, n0 + 1);
    lemma_word_end_at(l0, n0 + 1, n1);
    lemma_skip_white_at(l0, n1, n1 + 1);
    assert(l0.subrange(0, n0) =~= token);
    assert(l0.subrange(n0 + 1, n1) =~= path);
    // The header lines and the blank line.
    assert(t.subrange(q0, q0 + h.len()) =~= h);
    assert(t[q0 + h.len()] == '\r' && t[q0 + h.len() as int + 1] == '\n');
    assert(hs.take(0) =~= Seq::<(Seq<char>, Seq<char>)>::empty());
    assert(table_of(hs.take(0)) == Map::<Seq<char>, Seq<char>>::empty());
    lemma_read_headers(t, q0, hs, 0);
    // The body.
    let pb: int = q0 + h.len() as int + 2;
    assert(t.subrange(pb, t.len() as int) =~= body);
    if body.len() == 0 {
        assert(joined_from(t, pb) =~= body);
    } else {
        assert forall|k: int| pb <= k < t.len() implies #[trigger] t[k] != '\n' by {
            assert(t[k] == body[k - pb]);
        }
        lemma_line_end_at(t, pb, t.len() as int);
        assert(line_at(t, pb) =~= body);
        assert(joined_from(t, t.len() as int) =~= Seq::<char>::empty());
        assert(joined_from(t, pb) =~= body);
    }
    assert(body.take(body.len() as int) =~= body);
    assert(body_of(table_of(hs), joined_from(t, pb)) == Some(body));
}

} // verus!
