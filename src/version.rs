use vstd::prelude::*;
use crate::text::eq_lit;

verus! {

/// `c` may continue a version number.
pub open spec fn version_char(c: char) -> bool {
    c == '.' || ('0' <= c && c <= '9')
}

/// `s` holds `Version ` at `p`, followed by a digit.
pub open spec fn version_at(s: Seq<char>, p: int) -> bool {
    &&& 0 <= p
    &&& p + 9 <= s.len()
    &&& s.subrange(p, p + 8) == "Version "@
    &&& '0' <= s[p + 8] && s[p + 8] <= '9'
}

/// `e` ends the run of version characters that starts at `start`.
pub open spec fn run_end(s: Seq<char>, start: int, e: int) -> bool {
    &&& start < e <= s.len()
    &&& e == s.len() || !version_char(s[e])
    &&& forall|j: int| start <= j < e ==> version_char(#[trigger] s[j])
}

/// `p` is the first place that holds `Version ` followed by a digit.
pub open spec fn first_version_at(s: Seq<char>, p: int) -> bool {
    version_at(s, p) && forall|q: int| 0 <= q < p ==> !version_at(s, q)
}

/// The run of digits and dots that follows the first `Version ` that a digit
/// follows; empty if there is none.
pub open spec fn version_of(s: Seq<char>) -> Seq<char> {
    if exists|p: int| version_at(s, p) {
        let start = (choose|p: int| first_version_at(s, p)) + 8;
        let e = choose|e: int| run_end(s, start, e);
        s.subrange(start, e)
    } else {
        Seq::empty()
    }
}

proof fn lemma_version_found(s: Seq<char>, p: int, e: int)
    requires
        first_version_at(s, p),
        run_end(s, p + 8, e),
    ensures
        version_of(s) == s.subrange(p + 8, e),
{
    let pp = choose|q: int| first_version_at(s, q);
    if pp < p {
        assert(!version_at(s, pp));
    } else if pp > p {
        assert(!version_at(s, p));
    }
    assert(pp == p);
    let start = p + 8;
    let ee = choose|x: int| run_end(s, start, x);
    if ee < e {
        assert(version_char(s[ee]));
    } else if ee > e {
        assert(version_char(s[e]));
    }
}

/// Finds the Unicode version in the text of the database's `ReadMe.txt`.
pub fn parse_unicode_version(text: &str) -> (r: &str)
    ensures
        r@ == version_of(text@),
{
    let n = text.unicode_len();
    let mut p: usize = 0;
    while n >= 9 && p <= n - 9
        invariant
            n == text@.len(),
            forall|q: int| 0 <= q < p ==> !version_at(text@, q),
        decreases n - p,
    {
        let d = text.get_char(p + 8);
        if '0' <= d && d <= '9' && eq_lit(text.substring_char(p, p + 8), "Version ") {
            assert(version_at(text@, p as int));
            let mut e: usize = p + 9;
            while e < n && (text.get_char(e) == '.' || ('0' <= text.get_char(e) && text.get_char(e) <= '9'))
                invariant
                    n == text@.len(),
                    p + 9 <= e <= n,
                    forall|j: int| p + 8 <= j < e ==> version_char(#[trigger] text@[j]),
                decreases n - e,
            {
                e = e + 1;
            }
            proof {
                assert(first_version_at(text@, p as int));
                assert(run_end(text@, p + 8, e as int));
                lemma_version_found(text@, p as int, e as int);
            }
            return text.substring_char(p + 8, e);
        }
        p = p + 1;
    }
    assert forall|q: int| !version_at(text@, q) by {
        if 0 <= q < p {
        }
    }
    text.substring_char(0, 0)
}

} // verus!
