use vstd::prelude::*;
use vstd::utf8::{decode_utf8, valid_utf8};

verus! {

/// What `String::from_utf8_lossy` makes of a byte buffer.
pub uninterp spec fn lossy_text(b: Seq<u8>) -> Seq<char>;

/// Relies on `String::from_utf8_lossy`: the text it decodes from `b`, read
/// out as characters; valid UTF-8 decodes to exactly the characters it encodes.
#[verifier::external_body]
pub(crate) fn decode_lossy(b: &[u8]) -> (r: Vec<char>)
    ensures
        r@ == lossy_text(b@),
        valid_utf8(b@) ==> r@ == decode_utf8(b@),
{
    String::from_utf8_lossy(b).chars().collect()
}

/// Relies on `String`'s `FromIterator<char>`: the string holds `cs` in order.
#[verifier::external_body]
pub(crate) fn text_of(cs: &[char]) -> (r: String)
    ensures
        r@ == cs@,
{
    cs.iter().collect()
}

/// `t[lo..hi]` as a `String`.
pub(crate) fn text_between(t: &Vec<char>, lo: usize, hi: usize) -> (r: String)
    requires
        lo <= hi <= t@.len(),
    ensures
        r@ == t@.subrange(lo as int, hi as int),
{
    text_of(vstd::slice::slice_subrange(t.as_slice(), lo, hi))
}

/// Do `a` and `b` hold the same characters?
pub fn same_text(a: &str, b: &str) -> (r: bool)
    ensures
        r == (a@ == b@),
{
    let n = a.unicode_len();
    if n != b.unicode_len() {
        return false;
    }
    let mut i: usize = 0;
    while i < n
        invariant
            n == a@.len() == b@.len(),
            i <= n,
            forall|j: int| 0 <= j < i ==> a@[j] == b@[j],
        decreases n - i,
    {
        if a.get_char(i) != b.get_char(i) {
            return false;
        }
        i = i + 1;
    }
    assert(a@ =~= b@);
    true
}

/// White space as Unicode's White_Space property has it (what
/// `char::is_whitespace` tests).
pub open spec fn is_white(c: char) -> bool {
    let u = c as u32;
    (0x9 <= u <= 0xd) || u == 0x20 || u == 0x85 || u == 0xa0 || u == 0x1680 || (0x2000 <= u
        <= 0x200a) || u == 0x2028 || u == 0x2029 || u == 0x202f || u == 0x205f || u == 0x3000
}

/// Is `c` white space?
pub fn white(c: char) -> (r: bool)
    ensures
        r == is_white(c),
{
    let u = c as u32;
    (0x9 <= u && u <= 0xd) || u == 0x20 || u == 0x85 || u == 0xa0 || u == 0x1680 || (0x2000 <= u
        && u <= 0x200a) || u == 0x2028 || u == 0x2029 || u == 0x202f || u == 0x205f || u == 0x3000
}

/// First position at or after `i` that holds no white space (or the end).
pub open spec fn skip_white(l: Seq<char>, i: int) -> int
    decreases l.len() - i,
{
    if 0 <= i < l.len() && is_white(l[i]) {
        skip_white(l, i + 1)
    } else {
        i
    }
}

/// First position at or after `i` that holds white space (or the end).
pub open spec fn word_end(l: Seq<char>, i: int) -> int
    decreases l.len() - i,
{
    if 0 <= i < l.len() && !is_white(l[i]) {
        word_end(l, i + 1)
    } else {
        i
    }
}

/// First position at or after `i` that holds a line feed (or the end).
pub open spec fn line_end(t: Seq<char>, i: int) -> int
    decreases t.len() - i,
{
    if 0 <= i < t.len() && t[i] != '\n' {
        line_end(t, i + 1)
    } else {
        i
    }
}

/// The line that starts at `i`: up to the next line feed, without it and
/// without a carriage return just before it.
pub open spec fn line_at(t: Seq<char>, i: int) -> Seq<char> {
    let e = line_end(t, i);
    if e < t.len() && e > i && t[e - 1] == '\r' {
        t.subrange(i, e - 1)
    } else {
        t.subrange(i, e)
    }
}

/// Where the line after the one at `i` starts.
pub open spec fn next_line(t: Seq<char>, i: int) -> int {
    if line_end(t, i) < t.len() {
        line_end(t, i) + 1
    } else {
        t.len() as int
    }
}

pub proof fn lemma_line_end_bounds(t: Seq<char>, i: int)
    requires
        0 <= i <= t.len(),
    ensures
        i <= line_end(t, i) <= t.len(),
        line_end(t, i) < t.len() ==> t[line_end(t, i)] == '\n',
    decreases t.len() - i,
{
    if i < t.len() && t[i] != '\n' {
        lemma_line_end_bounds(t, i + 1);
    }
}

/// `lo + skip_white(t[lo..hi], i - lo)`.
pub(crate) fn skip_white_in(t: &Vec<char>, lo: usize, hi: usize, i: usize) -> (r: usize)
    requires
        lo <= i <= hi <= t@.len(),
    ensures
        r == lo + skip_white(t@.subrange(lo as int, hi as int), i - lo),
        i <= r <= hi,
{
    let ghost l = t@.subrange(lo as int, hi as int);
    let mut j = i;
    while j < hi && white(t[j])
        invariant
            lo <= i <= j <= hi <= t@.len(),
            l == t@.subrange(lo as int, hi as int),
            skip_white(l, j - lo) == skip_white(l, i - lo),
        decreases hi - j,
    {
        assert(l[j - lo] == t@[j as int]);
        j = j + 1;
    }
    if j < hi {
        assert(l[j - lo] == t@[j as int]);
    }
    j
}

/// `lo + word_end(t[lo..hi], i - lo)`.
pub(crate) fn word_end_in(t: &Vec<char>, lo: usize, hi: usize, i: usize) -> (r: usize)
    requires
        lo <= i <= hi <= t@.len(),
    ensures
        r == lo + word_end(t@.subrange(lo as int, hi as int), i - lo),
        i <= r <= hi,
{
    let ghost l = t@.subrange(lo as int, hi as int);
    let mut j = i;
    while j < hi && !white(t[j])
        invariant
            lo <= i <= j <= hi <= t@.len(),
            l == t@.subrange(lo as int, hi as int),
            word_end(l, j - lo) == word_end(l, i - lo),
        decreases hi - j,
    {
        assert(l[j - lo] == t@[j as int]);
        j = j + 1;
    }
    if j < hi {
        assert(l[j - lo] == t@[j as int]);
    }
    j
}

/// Where the line at `i` ends and where the next one starts: `(e, n)` with
/// `t[i..e] == line_at(t, i)` and `n == next_line(t, i)`.
pub(crate) fn line_bounds(t: &Vec<char>, i: usize) -> (r: (usize, usize))
    requires
        i < t@.len(),
    ensures
        i <= r.0 <= t@.len(),
        t@.subrange(i as int, r.0 as int) == line_at(t@, i as int),
        r.1 == next_line(t@, i as int),
        i < r.1 <= t@.len(),
{
    let mut j = i;
    while j < t.len() && t[j] != '\n'
        invariant
            i <= j <= t@.len(),
            line_end(t@, j as int) == line_end(t@, i as int),
        decreases t@.len() - j,
    {
        j = j + 1;
    }
    if j < t.len() {
        if j > i && t[j - 1] == '\r' {
            (j - 1, j + 1)
        } else {
            (j, j + 1)
        }
    } else {
        (j, j)
    }
}

} // verus!
