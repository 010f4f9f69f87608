use vstd::prelude::*;
use crate::text::{hex_u32, parse_hex_u32};

verus! {

/// Message for a code that does not read as a hexadecimal number.
pub open spec fn code_error(s: Seq<char>) -> Seq<char> {
    "`"@ + s + "` is not a valid code"@
}

/// Reads a codepoint written in hexadecimal.
pub fn parse_code(input: &str) -> (r: Result<u32, String>)
    ensures
        match r {
            Ok(v) => hex_u32(input@) == Some(v),
            Err(e) => hex_u32(input@) is None && e@ == code_error(input@),
        },
{
    match parse_hex_u32(input) {
        Some(v) => Ok(v),
        None => {
            let mut e = String::from_str("`");
            e.append(input);
            e.append("` is not a valid code");
            Err(e)
        },
    }
}

/// `s` holds `..` at index `i`.
pub open spec fn dots_at(s: Seq<char>, i: int) -> bool {
    0 <= i && i + 1 < s.len() && s[i] == '.' && s[i + 1] == '.'
}

/// Index of the first `..` in `s`, if any.
pub open spec fn find_dots(s: Seq<char>) -> Option<int> {
    if exists|i: int| dots_at(s, i) {
        Some(choose|i: int| dots_at(s, i) && forall|j: int| 0 <= j < i ==> !dots_at(s, j))
    } else {
        None
    }
}

/// What `parse_range` makes of `s`: the two codes around the first `..`, or
/// the message of the first thing wrong.
pub open spec fn range_result(s: Seq<char>) -> Result<(u32, u32), Seq<char>> {
    match find_dots(s) {
        None => Err("`"@ + s + "` is not a valid range"@),
        Some(k) => {
            let a = s.subrange(0, k);
            let b = s.subrange(k + 2, s.len() as int);
            match hex_u32(a) {
                None => Err("range start "@ + code_error(a)),
                Some(x) => match hex_u32(b) {
                    None => Err("range end "@ + code_error(b)),
                    Some(y) => Ok((x, y)),
                },
            }
        },
    }
}

fn find_dots_in(s: &str) -> (r: Option<usize>)
    ensures
        match r {
            Some(k) => find_dots(s@) == Some(k as int) && k + 2 <= s@.len(),
            None => find_dots(s@) is None,
        },
{
    let n = s.unicode_len();
    let mut i: usize = 0;
    while n > 0 && i < n - 1
        invariant
            n == s@.len(),
            i <= n,
            forall|j: int| 0 <= j < i ==> !dots_at(s@, j),
        decreases n - i,
    {
        if s.get_char(i) == '.' && s.get_char(i + 1) == '.' {
            proof {
                assert(dots_at(s@, i as int));
                let k = choose|k: int| dots_at(s@, k) && forall|j: int| 0 <= j < k ==> !dots_at(s@, j);
                if k > i {
                    assert(!dots_at(s@, i as int));
                }
            }
            return Some(i);
        }
        i = i + 1;
    }
    assert forall|j: int| !dots_at(s@, j) by {
        if 0 <= j < i {
        }
    }
    None
}

/// Reads a range of codepoints written as two hexadecimal codes around `..`.
#[verifier::rlimit(50)]
pub fn parse_range(input: &str) -> (r: Result<(u32, u32), String>)
    ensures
        match r {
            Ok(p) => range_result(input@) == Ok::<(u32, u32), Seq<char>>(p),
            Err(e) => range_result(input@) == Err::<(u32, u32), Seq<char>>(e@),
        },
{
    let n = input.unicode_len();
    let k = match find_dots_in(input) {
        Some(k) => k,
        None => {
            let mut e = String::from_str("`");
            e.append(input);
            e.append("` is not a valid range");
            return Err(e);
        },
    };
    let sta = input.substring_char(0, k);
    let end = input.substring_char(k + 2, n);
    let ghost a = input@.subrange(0, k as int);
    let ghost b = input@.subrange(k + 2, n as int);
    assert(sta@ == a && end@ == b);
    let sta = match parse_code(sta) {
        Ok(v) => v,
        Err(err) => {
            let mut e = String::from_str("range start ");
            e.append(err.as_str());
            return Err(e);
        },
    };
    let end = match parse_code(end) {
        Ok(v) => v,
        Err(err) => {
            let mut e = String::from_str("range end ");
            e.append(err.as_str());
            return Err(e);
        },
    };
    Ok((sta, end))
}

} // verus!
