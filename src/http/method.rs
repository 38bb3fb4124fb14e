use vstd::prelude::*;
use crate::http::parse_error::ParseError;

verus! {

/// The request methods this server understands.
#[derive(Debug, Clone, Copy, PartialEq, Eq, Hash, Structural)]
pub enum Method {
    Get,
    Post,
    Put,
    Delete,
    Patch,
    Options,
    Head,
}

/// `c` is the letter `u` (an upper-case ASCII letter) in either case.
pub open spec fn same_letter(c: char, u: char) -> bool {
    c == u || c as u32 == u as u32 + 32
}

/// `t` spells the upper-case word `w`, ignoring ASCII case.
pub open spec fn matches_ignoring_case(t: Seq<char>, w: Seq<char>) -> bool {
    t.len() == w.len() && forall|i: int| 0 <= i < t.len() ==> same_letter(#[trigger] t[i], w[i])
}

impl Method {
    /// The canonical upper-case token of the method.
    pub open spec fn token(self) -> Seq<char> {
        match self {
            Method::Get => seq!['G', 'E', 'T'],
            Method::Post => seq!['P', 'O', 'S', 'T'],
            Method::Put => seq!['P', 'U', 'T'],
            Method::Delete => seq!['D', 'E', 'L', 'E', 'T', 'E'],
            Method::Patch => seq!['P', 'A', 'T', 'C', 'H'],
            Method::Options => seq!['O', 'P', 'T', 'I', 'O', 'N', 'S'],
            Method::Head => seq!['H', 'E', 'A', 'D'],
        }
    }
}

/// The method that a token names, if any; case does not matter.
pub open spec fn method_of(t: Seq<char>) -> Option<Method> {
    if matches_ignoring_case(t, Method::Get.token()) {
        Some(Method::Get)
    } else if matches_ignoring_case(t, Method::Post.token()) {
        Some(Method::Post)
    } else if matches_ignoring_case(t, Method::Put.token()) {
        Some(Method::Put)
    } else if matches_ignoring_case(t, Method::Delete.token()) {
        Some(Method::Delete)
    } else if matches_ignoring_case(t, Method::Patch.token()) {
        Some(Method::Patch)
    } else if matches_ignoring_case(t, Method::Options.token()) {
        Some(Method::Options)
    } else if matches_ignoring_case(t, Method::Head.token()) {
        Some(Method::Head)
    } else {
        None
    }
}

/// A token parses to a method exactly when it spells that method's token in
/// some mix of upper and lower case; every other token names no method.
pub proof fn lemma_method_parse(t: Seq<char>, m: Method)
    ensures
        method_of(t) == Some(m) <==> matches_ignoring_case(t, m.token()),
{
    if matches_ignoring_case(t, m.token()) {
        let g = Method::Get.token();
        let p = Method::Put.token();
        let o = Method::Post.token();
        let h = Method::Head.token();
        if t.len() == 3 && matches_ignoring_case(t, g) {
            assert(same_letter(t[0], g[0]));
            assert(!same_letter(t[0], p[0]));
        }
        if t.len() == 4 && matches_ignoring_case(t, o) {
            assert(same_letter(t[0], o[0]));
            assert(!same_letter(t[0], h[0]));
        }
        if t.len() == 3 && matches_ignoring_case(t, p) {
            assert(same_letter(t[0], p[0]));
            assert(!same_letter(t[0], g[0]));
        }
        if t.len() == 4 && matches_ignoring_case(t, h) {
            assert(same_letter(t[0], h[0]));
            assert(!same_letter(t[0], o[0]));
        }
    }
}

/// Does `t[lo..hi]` spell `w`, ignoring ASCII case?
fn spells(t: &Vec<char>, lo: usize, hi: usize, w: &Vec<char>) -> (r: bool)
    requires
        lo <= hi <= t@.len(),
    ensures
        r == matches_ignoring_case(t@.subrange(lo as int, hi as int), w@),
{
    if hi - lo != w.len() {
        return false;
    }
    let mut i: usize = 0;
    while i < w.len()
        invariant
            hi - lo == w@.len(),
            lo <= hi <= t@.len(),
            i <= w@.len(),
            forall|j: int| 0 <= j < i ==> same_letter(t@[lo + j], w@[j]),
        decreases w@.len() - i,
    {
        let c = t[lo + i];
        let u = w[i];
        if !(c == u || c as u32 as u64 == u as u32 as u64 + 32) {
            assert(!same_letter(t@.subrange(lo as int, hi as int)[i as int], w@[i as int]));
            return false;
        }
        i = i + 1;
    }
    assert forall|j: int| 0 <= j < hi - lo implies same_letter(
        #[trigger] t@.subrange(lo as int, hi as int)[j],
        w@[j],
    ) by {
        assert(t@.subrange(lo as int, hi as int)[j] == t@[lo + j]);
    }
    true
}

/// The method that `t[lo..hi]` names, if any.
pub fn method_in(t: &Vec<char>, lo: usize, hi: usize) -> (r: Option<Method>)
    requires
        lo <= hi <= t@.len(),
    ensures
        r == method_of(t@.subrange(lo as int, hi as int)),
{
    if spells(t, lo, hi, &vec!['G', 'E', 'T']) {
        Some(Method::Get)
    } else if spells(t, lo, hi, &vec!['P', 'O', 'S', 'T']) {
        Some(Method::Post)
    } else if spells(t, lo, hi, &vec!['P', 'U', 'T']) {
        Some(Method::Put)
    } else if spells(t, lo, hi, &vec!['D', 'E', 'L', 'E', 'T', 'E']) {
        Some(Method::Delete)
    } else if spells(t, lo, hi, &vec!['P', 'A', 'T', 'C', 'H']) {
        Some(Method::Patch)
    } else if spells(t, lo, hi, &vec!['O', 'P', 'T', 'I', 'O', 'N', 'S']) {
        Some(Method::Options)
    } else if spells(t, lo, hi, &vec!['H', 'E', 'A', 'D']) {
        Some(Method::Head)
    } else {
        None
    }
}

impl Method {
    /// Parses a method token, ignoring ASCII case.
    pub fn from_str(s: &str) -> (r: Result<Method, ParseError>)
        ensures
            match r {
                Ok(m) => method_of(s@) == Some(m),
                Err(e) => method_of(s@) is None && (e matches ParseError::UnsupportedMethod(tok)
                    && tok@ == s@),
            },
    {
        let n = s.unicode_len();
        let mut t: Vec<char> = Vec::new();
        let mut i: usize = 0;
        while i < n
            invariant
                n == s@.len(),
                i <= n,
                t@ == s@.subrange(0, i as int),
            decreases n - i,
        {
            t.push(s.get_char(i));
            i = i + 1;
        }
        assert(t@.subrange(0, n as int) =~= s@);
        match method_in(&t, 0, n) {
            Some(m) => Ok(m),
            None => Err(ParseError::UnsupportedMethod(s.to_string())),
        }
    }
}

} // verus!
