//! Extracting the session identifier from a cookie header: the value of
//! the first `session_id=` entry among the `;`-separated, space-trimmed
//! segments of the header's text.

use vstd::prelude::*;
use vstd::string::{StrSliceExecFns, StringExecFns};

verus! {

/// A character the parser trims around a cookie segment.
pub open spec fn is_cookie_space(c: char) -> bool {
    c == ' ' || c == '\t'
}

/// Index of the first `;` at or after `i`, or the length if none follows.
pub open spec fn first_semi(s: Seq<char>, i: int) -> int
    decreases s.len() - i when 0 <= i <= s.len()
{
    if i >= s.len() {
        s.len() as int
    } else if s[i] == ';' {
        i
    } else {
        first_semi(s, i + 1)
    }
}

proof fn lemma_first_semi(s: Seq<char>, i: int)
    requires
        0 <= i <= s.len(),
    ensures
        i <= first_semi(s, i) <= s.len(),
    decreases s.len() - i,
{
    if i < s.len() && s[i] != ';' {
        lemma_first_semi(s, i + 1);
    }
}

/// First non-space position in `[lo, hi)`, or `hi`.
pub open spec fn skip_spaces(s: Seq<char>, lo: int, hi: int) -> int
    decreases hi - lo when lo <= hi
{
    if lo >= hi {
        hi
    } else if is_cookie_space(s[lo]) {
        skip_spaces(s, lo + 1, hi)
    } else {
        lo
    }
}

proof fn lemma_skip_spaces(s: Seq<char>, lo: int, hi: int)
    requires
        lo <= hi,
    ensures
        lo <= skip_spaces(s, lo, hi) <= hi,
    decreases hi - lo,
{
    if lo < hi && is_cookie_space(s[lo]) {
        lemma_skip_spaces(s, lo + 1, hi);
    }
}

/// Position after the last non-space character of `[lo, hi)`, or `lo`.
pub open spec fn rskip_spaces(s: Seq<char>, lo: int, hi: int) -> int
    decreases hi - lo when lo <= hi
{
    if hi <= lo {
        lo
    } else if is_cookie_space(s[hi - 1]) {
        rskip_spaces(s, lo, hi - 1)
    } else {
        hi
    }
}

proof fn lemma_rskip_spaces(s: Seq<char>, lo: int, hi: int)
    requires
        lo <= hi,
    ensures
        lo <= rskip_spaces(s, lo, hi) <= hi,
    decreases hi - lo,
{
    if lo < hi && is_cookie_space(s[hi - 1]) {
        lemma_rskip_spaces(s, lo, hi - 1);
    }
}

/// The trimmed segment `[lo, hi)` starts with `session_id=`.
pub open spec fn names_session_id(s: Seq<char>, lo: int, hi: int) -> bool {
    hi - lo >= 11 && s.subrange(lo, lo + 11) == "session_id="@
}

/// The session identifier of the cookie text from position `i` on: the
/// value after `session_id=` in the first matching trimmed segment.
pub open spec fn spec_session_id(s: Seq<char>, i: int) -> Option<Seq<char>>
    decreases s.len() - i when 0 <= i <= s.len() via spec_session_id_decreases
{
    let e = first_semi(s, i);
    let lo = skip_spaces(s, i, e);
    let hi = rskip_spaces(s, lo, e);
    if names_session_id(s, lo, hi) {
        Some(s.subrange(lo + 11, hi))
    } else if e < s.len() {
        spec_session_id(s, e + 1)
    } else {
        Option::None
    }
}

#[via_fn]
proof fn spec_session_id_decreases(s: Seq<char>, i: int) {
    lemma_first_semi(s, i);
}

fn space_at(s: &str, i: usize) -> (b: bool)
    requires
        i < s@.len(),
    ensures
        b == is_cookie_space(s@[i as int]),
{
    let c = s.get_char(i);
    c == ' ' || c == '\t'
}

fn char_at(s: &str, i: usize) -> (c: char)
    requires
        i < s@.len(),
    ensures
        c == s@[i as int],
{
    s.get_char(i)
}

/// Extract the session identifier from a cookie header's text: the value
/// of the first `;`-separated segment that, once trimmed of spaces and
/// tabs, starts with `session_id=`.
pub fn session_id_from_cookie(cookie: &str) -> (r: Option<String>)
    ensures
        (match r {
            Some(v) => spec_session_id(cookie@, 0) == Some(v@),
            Option::None => spec_session_id(cookie@, 0) is None,
        }),
{
    let s = Ghost(cookie@);
    let n = cookie.unicode_len();
    let mut i: usize = 0;
    proof {
        reveal_strlit("session_id=");
    }
    loop
        invariant
            i <= n,
            n == s@.len(),
            s@ == cookie@,
            spec_session_id(s@, 0) == spec_session_id(s@, i as int),
        decreases n - i,
    {
        // End of the current segment.
        let mut e: usize = i;
        while e < n && char_at(cookie, e) != ';'
            invariant
                i <= e <= n,
                n == s@.len(),
                s@ == cookie@,
                first_semi(s@, i as int) == first_semi(s@, e as int),
            decreases n - e,
        {
            e = e + 1;
        }
        proof {
            assert(first_semi(s@, e as int) == e);
            lemma_first_semi(s@, i as int);
        }
        // Trim leading and trailing spaces.
        let mut lo: usize = i;
        while lo < e && space_at(cookie, lo)
            invariant
                i <= lo <= e,
                e <= n,
                n == s@.len(),
                s@ == cookie@,
                skip_spaces(s@, i as int, e as int) == skip_spaces(s@, lo as int, e as int),
            decreases e - lo,
        {
            lo = lo + 1;
        }
        proof {
            assert(skip_spaces(s@, lo as int, e as int) == lo);
            lemma_skip_spaces(s@, i as int, e as int);
        }
        let mut hi: usize = e;
        while hi > lo && space_at(cookie, hi - 1)
            invariant
                lo <= hi <= e,
                e <= n,
                n == s@.len(),
                s@ == cookie@,
                rskip_spaces(s@, lo as int, e as int) == rskip_spaces(s@, lo as int, hi as int),
            decreases hi - lo,
        {
            hi = hi - 1;
        }
        proof {
            assert(rskip_spaces(s@, lo as int, hi as int) == hi);
        }
        // Does the trimmed segment name the session identifier?
        let matches_name = hi - lo >= 11 && char_at(cookie, lo) == 's' && char_at(cookie, lo + 1)
            == 'e' && char_at(cookie, lo + 2) == 's' && char_at(cookie, lo + 3) == 's' && char_at(
            cookie,
            lo + 4,
        ) == 'i' && char_at(cookie, lo + 5) == 'o' && char_at(cookie, lo + 6) == 'n' && char_at(
            cookie,
            lo + 7,
        ) == '_' && char_at(cookie, lo + 8) == 'i' && char_at(cookie, lo + 9) == 'd' && char_at(
            cookie,
            lo + 10,
        ) == '=';
        proof {
            reveal_strlit("session_id=");
            if matches_name {
                assert(s@.subrange(lo as int, lo as int + 11) =~= "session_id="@);
            } else if hi - lo >= 11 && s@.subrange(lo as int, lo as int + 11) == "session_id="@ {
                assert(s@[lo as int] == "session_id="@[0]);
                assert(s@[lo as int + 1] == "session_id="@[1]);
                assert(s@[lo as int + 2] == "session_id="@[2]);
                assert(s@[lo as int + 3] == "session_id="@[3]);
                assert(s@[lo as int + 4] == "session_id="@[4]);
                assert(s@[lo as int + 5] == "session_id="@[5]);
                assert(s@[lo as int + 6] == "session_id="@[6]);
                assert(s@[lo as int + 7] == "session_id="@[7]);
                assert(s@[lo as int + 8] == "session_id="@[8]);
                assert(s@[lo as int + 9] == "session_id="@[9]);
                assert(s@[lo as int + 10] == "session_id="@[10]);
            }
            assert(matches_name == names_session_id(s@, lo as int, hi as int));
        }
        if matches_name {
            let value = cookie.substring_char(lo + 11, hi);
            let out = String::from_str(value);
            proof {
                assert(out@ == s@.subrange(lo as int + 11, hi as int));
            }
            return Some(out);
        }
        if e < n {
            i = e + 1;
        } else {
            proof {
                assert(spec_session_id(s@, i as int) is None);
            }
            return Option::None;
        }
    }
}

} // verus!
