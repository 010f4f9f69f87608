use vstd::prelude::*;

verus! {

/// Whether `s` is exactly `lit`.
pub fn eq_lit(s: &str, lit: &str) -> (r: bool)
    ensures
        r == (s@ == lit@),
{
    let n = s.unicode_len();
    if n != lit.unicode_len() {
        return false;
    }
    let mut i: usize = 0;
    while i < n
        invariant
            n == s@.len() == lit@.len(),
            0 <= i <= n,
            forall|j: int| 0 <= j < i ==> s@[j] == lit@[j],
        decreases n - i,
    {
        if s.get_char(i) != lit.get_char(i) {
            return false;
        }
        i = i + 1;
    }
    assert(s@ =~= lit@);
    true
}

/// Index of the first `c` in `s`, if any.
pub open spec fn find_char(s: Seq<char>, c: char) -> Option<int> {
    if exists|i: int| 0 <= i < s.len() && s[i] == c {
        Some(choose|i: int| 0 <= i < s.len() && s[i] == c && forall|j: int| 0 <= j < i ==> s[j] != c)
    } else {
        None
    }
}

/// Finds the first `c` in `s`.
pub fn find(s: &str, c: char) -> (r: Option<usize>)
    ensures
        match r {
            Some(k) => find_char(s@, c) == Some(k as int) && k < s@.len(),
            None => find_char(s@, c) is None,
        },
{
    let n = s.unicode_len();
    let mut i: usize = 0;
    while i < n
        invariant
            n == s@.len(),
            0 <= i <= n,
            forall|j: int| 0 <= j < i ==> s@[j] != c,
        decreases n - i,
    {
        if s.get_char(i) == c {
            proof {
                let k = choose|k: int| 0 <= k < s@.len() && s@[k] == c && forall|j: int| 0 <= j < k ==> s@[j] != c;
                if k < i {
                } else if k > i {
                    assert(s@[i as int] != c);
                }
            }
            return Some(i);
        }
        i = i + 1;
    }
    None
}

/// Value of a hexadecimal digit, or -1 for another character.
pub open spec fn hex_digit(c: char) -> int {
    if '0' <= c && c <= '9' {
        c as int - '0' as int
    } else if 'a' <= c && c <= 'f' {
        c as int - 'a' as int + 10
    } else if 'A' <= c && c <= 'F' {
        c as int - 'A' as int + 10
    } else {
        -1
    }
}

/// Digit values in base 10 or 16.
pub open spec fn digit_of(base: int) -> spec_fn(char) -> int {
    if base == 16 {
        |c: char| hex_digit(c)
    } else {
        |c: char| dec_digit(c)
    }
}

/// Value of the digits `s` in base `base`, where `digit` gives each one's value.
pub open spec fn digits_value(s: Seq<char>, base: int, digit: spec_fn(char) -> int) -> int
    decreases s.len(),
{
    if s.len() == 0 {
        0
    } else {
        digits_value(s.drop_last(), base, digit) * base + digit(s.last())
    }
}

/// Value of a decimal digit, or -1 for another character.
pub open spec fn dec_digit(c: char) -> int {
    if '0' <= c && c <= '9' {
        c as int - '0' as int
    } else {
        -1
    }
}

/// `s` is one or more digits.
pub open spec fn all_digits(s: Seq<char>, digit: spec_fn(char) -> int) -> bool {
    s.len() > 0 && forall|i: int| 0 <= i < s.len() ==> digit(#[trigger] s[i]) >= 0
}

/// `s` without a leading `+`.
pub open spec fn unsigned_digits(s: Seq<char>) -> Seq<char> {
    if s.len() > 0 && s[0] == '+' {
        s.drop_first()
    } else {
        s
    }
}

/// Number that `u32::from_str_radix(s, 16)` reads: an optional `+`, then one
/// or more hexadecimal digits, of a value that fits in 32 bits.
pub open spec fn hex_u32(s: Seq<char>) -> Option<u32> {
    let d = unsigned_digits(s);
    if all_digits(d, digit_of(16)) && digits_value(d, 16, digit_of(16)) <= u32::MAX {
        Some(digits_value(d, 16, digit_of(16)) as u32)
    } else {
        None
    }
}

/// Number that `str::parse` reads for an integer type of range `[lo, hi]`: an
/// optional sign (`-` only where `lo` is negative), then one or more decimal
/// digits, of a value in the range.
pub open spec fn dec_int(s: Seq<char>, lo: int, hi: int) -> Option<int> {
    let neg = lo < 0 && s.len() > 0 && s[0] == '-';
    let d = if neg { s.drop_first() } else { unsigned_digits(s) };
    let m = digits_value(d, 10, digit_of(10));
    let v = if neg { -m } else { m };
    if all_digits(d, digit_of(10)) && lo <= v <= hi {
        Some(v)
    } else {
        None
    }
}

proof fn lemma_digits_value_prefix(s: Seq<char>, base: int, digit: spec_fn(char) -> int, k: int)
    requires
        base >= 2,
        0 <= k <= s.len(),
        forall|i: int| 0 <= i < s.len() ==> digit(#[trigger] s[i]) >= 0,
    ensures
        0 <= digits_value(s.subrange(0, k), base, digit) <= digits_value(s, base, digit),
    decreases s.len(),
{
    if s.len() > 0 {
        if k == s.len() {
            assert(s.subrange(0, k) =~= s);
            lemma_digits_value_prefix(s.drop_last(), base, digit, k - 1);
            assert(s.drop_last().subrange(0, k - 1) =~= s.drop_last());
        } else {
            lemma_digits_value_prefix(s.drop_last(), base, digit, k);
            assert(s.drop_last().subrange(0, k) =~= s.subrange(0, k));
            assert(digits_value(s.drop_last(), base, digit) >= 0);
            assert(digits_value(s.drop_last(), base, digit) * base >= digits_value(s.drop_last(), base, digit))
                by (nonlinear_arith)
                requires
                    digits_value(s.drop_last(), base, digit) >= 0,
                    base >= 2,
            ;
        }
    }
}

/// Reads the digits of `s` from index `start` on, in base `base`, up to a
/// value of `bound`.
fn read_digits(s: &str, start: usize, base: u64, bound: u64) -> (r: Option<u64>)
    requires
        start <= s@.len(),
        base == 10 || base == 16,
    ensures
        ({
            let d = s@.subrange(start as int, s@.len() as int);
            let digit = digit_of(base as int);
            &&& r is Some <==> all_digits(d, digit) && digits_value(d, base as int, digit) <= bound
            &&& r is Some ==> r->0 == digits_value(d, base as int, digit)
        }),
{
    let ghost d = s@.subrange(start as int, s@.len() as int);
    let ghost digit = digit_of(base as int);
    let n = s.unicode_len();
    if start == n {
        return None;
    }
    let mut v: u128 = 0;
    let mut i: usize = start;
    while i < n
        invariant
            n == s@.len(),
            start <= i <= n,
            start < n,
            d == s@.subrange(start as int, n as int),
            base == 10 || base == 16,
            digit == digit_of(base as int),
            forall|j: int| 0 <= j < i - start ==> digit(#[trigger] d[j]) >= 0,
            v == digits_value(d.subrange(0, i - start), base as int, digit),
            v <= bound,
        decreases n - i,
    {
        let c = s.get_char(i);
        let x: u128 = if base == 16 {
            if '0' <= c && c <= '9' {
                (c as u128) - ('0' as u128)
            } else if 'a' <= c && c <= 'f' {
                (c as u128) - ('a' as u128) + 10
            } else if 'A' <= c && c <= 'F' {
                (c as u128) - ('A' as u128) + 10
            } else {
                assert(digit(d[i - start]) < 0);
                return None;
            }
        } else {
            if '0' <= c && c <= '9' {
                (c as u128) - ('0' as u128)
            } else {
                assert(digit(d[i - start]) < 0);
                return None;
            }
        };
        assert(x == digit(d[i - start]));
        assert(d.subrange(0, i - start + 1).drop_last() =~= d.subrange(0, i - start));
        assert(v * (base as u128) <= 0xffff_ffff_ffff_ffff * 16) by (nonlinear_arith)
            requires
                v <= 0xffff_ffff_ffff_ffff,
                base <= 16,
        ;
        let nv = v * (base as u128) + x;
        if nv > bound as u128 {
            proof {
                assert forall|j: int| 0 <= j < d.len() implies digit(#[trigger] d[j]) >= 0 || !all_digits(d, digit) by {}
                if all_digits(d, digit) {
                    lemma_digits_value_prefix(d, base as int, digit, i - start + 1);
                }
            }
            return None;
        }
        v = nv;
        i = i + 1;
    }
    assert(d.subrange(0, n - start) =~= d);
    Some(v as u64)
}

/// Reads an integer as `str::parse` does for an integer type of range
/// `[lo, hi]`.
pub fn parse_int(s: &str, lo: i64, hi: i64) -> (r: Option<i64>)
    requires
        lo <= 0 <= hi,
    ensures
        match r {
            Some(v) => dec_int(s@, lo as int, hi as int) == Some(v as int),
            None => dec_int(s@, lo as int, hi as int) is None,
        },
{
    let n = s.unicode_len();
    let neg = lo < 0 && n > 0 && s.get_char(0) == '-';
    let start: usize = if neg || (n > 0 && s.get_char(0) == '+') { 1 } else { 0 };
    let ghost d = if neg { s@.drop_first() } else { unsigned_digits(s@) };
    assert(s@.subrange(start as int, s@.len() as int) =~= d);
    // the largest magnitude in range
    let bound: u64 = if neg { (-(lo as i128)) as u64 } else { hi as u64 };
    let r = read_digits(s, start, 10, bound);
    proof {
        if all_digits(d, digit_of(10)) {
            lemma_digits_value_prefix(d, 10, digit_of(10), 0);
        }
    }
    match r {
        Some(m) => if neg { Some((-(m as i128)) as i64) } else { Some(m as i64) },
        None => None,
    }
}

/// Digit of value `d` (below 16), upper case.
pub open spec fn digit_char(d: int) -> char {
    "0123456789ABCDEF"@[d]
}

/// Digits of `n` in base `base` (10 or 16), without leading zeros.
pub open spec fn digits_of(n: nat, base: nat) -> Seq<char>
    decreases n
    via digits_of_decreases
{
    if n < base || base < 2 {
        seq![digit_char(n as int)]
    } else {
        digits_of(n / base, base).push(digit_char((n % base) as int))
    }
}

#[via_fn]
proof fn digits_of_decreases(n: nat, base: nat) {
    if !(n < base || base < 2) {
        assert(n / base < n) by (nonlinear_arith)
            requires
                n >= base,
                base >= 2,
        ;
    }
}

/// `s` left-padded with `0` to at least `w` characters.
pub open spec fn zero_padded(s: Seq<char>, w: nat) -> Seq<char> {
    if s.len() < w {
        Seq::new((w - s.len()) as nat, |i: int| '0') + s
    } else {
        s
    }
}

/// `n` in upper-case hexadecimal, at least four digits (`{:04X}`).
pub open spec fn hex4(n: nat) -> Seq<char> {
    zero_padded(digits_of(n, 16), 4)
}

/// `v` in decimal, with a `-` if it is negative (`{}`).
pub open spec fn int_chars(v: int) -> Seq<char> {
    if v < 0 {
        seq!['-'] + digits_of((-v) as nat, 10)
    } else {
        digits_of(v as nat, 10)
    }
}

/// Appends the digits of `n` in base `base`.
pub fn push_digits(out: &mut String, n: u64, base: u64)
    requires
        base == 10 || base == 16,
    ensures
        final(out)@ == old(out)@ + digits_of(n as nat, base as nat),
    decreases n,
{
    if n >= base {
        push_digits(out, n / base, base);
    }
    let d = (n % base) as usize;
    let ds = "0123456789ABCDEF";
    proof {
        reveal_strlit("0123456789ABCDEF");
    }
    let ghost before = out@;
    out.append(ds.substring_char(d, d + 1));
    assert(ds@.subrange(d as int, d + 1) =~= seq![digit_char(d as int)]);
    if n >= base {
        assert(out@ =~= old(out)@ + digits_of(n as nat, base as nat));
    } else {
        assert(out@ =~= old(out)@ + digits_of(n as nat, base as nat));
    }
}

/// Appends `n` as `{:04X}` writes it.
pub fn push_hex4(out: &mut String, n: u32)
    ensures
        final(out)@ == old(out)@ + hex4(n as nat),
{
    let mut t = String::new();
    push_digits(&mut t, n as u64, 16);
    let len = t.as_str().unicode_len();
    let mut k: usize = len;
    let ghost start = out@;
    while k < 4
        invariant
            len == digits_of(n as nat, 16).len(),
            len <= k <= 4 || (k == len && len > 4),
            out@ == start + Seq::new((k - len) as nat, |i: int| '0'),
        decreases 4 - k,
    {
        out.append("0");
        proof {
            reveal_strlit("0");
        }
        assert(out@ =~= start + Seq::new((k + 1 - len) as nat, |i: int| '0'));
        k = k + 1;
    }
    out.append(t.as_str());
    assert(out@ =~= old(out)@ + hex4(n as nat));
}

/// Appends `v` as `{}` writes it.
pub fn push_int(out: &mut String, v: i64)
    ensures
        final(out)@ == old(out)@ + int_chars(v as int),
{
    if v < 0 {
        out.append("-");
        proof {
            reveal_strlit("-");
        }
        push_digits(out, (-(v as i128)) as u64, 10);
        assert(out@ =~= old(out)@ + int_chars(v as int));
    } else {
        push_digits(out, v as u64, 10);
    }
}

/// `c` has the Unicode `White_Space` property (`char::is_whitespace`).
pub open spec fn is_white_space(c: char) -> bool {
    ||| '\t' <= c && c <= '\r'
    ||| c == ' ' || c == '\u{85}' || c == '\u{a0}' || c == '\u{1680}'
    ||| '\u{2000}' <= c && c <= '\u{200a}'
    ||| c == '\u{2028}' || c == '\u{2029}' || c == '\u{202f}' || c == '\u{205f}' || c == '\u{3000}'
}

pub fn white_space(c: char) -> (r: bool)
    ensures
        r == is_white_space(c),
{
    ('\t' <= c && c <= '\r') || c == ' ' || c == '\u{85}' || c == '\u{a0}' || c == '\u{1680}'
        || ('\u{2000}' <= c && c <= '\u{200a}') || c == '\u{2028}' || c == '\u{2029}' || c == '\u{202f}'
        || c == '\u{205f}' || c == '\u{3000}'
}

/// `s` without trailing white space (`str::trim_end`).
pub open spec fn trim_end(s: Seq<char>) -> Seq<char>
    decreases s.len(),
{
    if s.len() > 0 && is_white_space(s.last()) {
        trim_end(s.drop_last())
    } else {
        s
    }
}

/// `s` without leading white space (`str::trim_start`).
pub open spec fn trim_start(s: Seq<char>) -> Seq<char>
    decreases s.len(),
{
    if s.len() > 0 && is_white_space(s[0]) {
        trim_start(s.drop_first())
    } else {
        s
    }
}

/// Strips trailing white space.
pub fn trim_end_str(s: &str) -> (r: &str)
    ensures
        r@ == trim_end(s@),
{
    let mut k = s.unicode_len();
    assert(s@.subrange(0, k as int) =~= s@);
    while k > 0 && white_space(s.get_char(k - 1))
        invariant
            k <= s@.len(),
            trim_end(s@) == trim_end(s@.subrange(0, k as int)),
        decreases k,
    {
        assert(s@.subrange(0, k as int).drop_last() =~= s@.subrange(0, k - 1));
        k = k - 1;
    }
    s.substring_char(0, k)
}

/// Strips leading and trailing white space (`str::trim`).
pub fn trim_str(s: &str) -> (r: &str)
    ensures
        r@ == trim_start(trim_end(s@)),
{
    let t = trim_end_str(s);
    let n = t.unicode_len();
    let mut k: usize = 0;
    assert(t@.subrange(0, n as int) =~= t@);
    while k < n && white_space(t.get_char(k))
        invariant
            n == t@.len(),
            k <= n,
            trim_start(t@) == trim_start(t@.subrange(k as int, n as int)),
        decreases n - k,
    {
        assert(t@.subrange(k as int, n as int).drop_first() =~= t@.subrange(k + 1, n as int));
        k = k + 1;
    }
    t.substring_char(k, n)
}

/// The parts of `s` between occurrences of `c` (`str::split`).
#[verifier::opaque]
pub open spec fn split_on(s: Seq<char>, c: char) -> Seq<Seq<char>>
    decreases s.len(),
{
    match find_char(s, c) {
        None => seq![s],
        Some(k) => if 0 <= k < s.len() {
            seq![s.subrange(0, k)] + split_on(s.subrange(k + 1, s.len() as int), c)
        } else {
            seq![s]
        },
    }
}

proof fn lemma_split_at(t: Seq<char>, c: char, k: int)
    requires
        find_char(t, c) == Some(k),
        0 <= k < t.len(),
    ensures
        split_on(t, c) == seq![t.subrange(0, k)] + split_on(t.subrange(k + 1, t.len() as int), c),
{
    reveal(split_on);
}

proof fn lemma_split_last(t: Seq<char>, c: char)
    requires
        find_char(t, c) is None,
    ensures
        split_on(t, c) == seq![t],
{
    reveal(split_on);
}

/// Views of a sequence of strings.
pub open spec fn views<'a>(v: Seq<&'a str>) -> Seq<Seq<char>> {
    v.map_values(|p: &'a str| p@)
}

/// Splits `s` at each `c`.
pub fn split<'a>(s: &'a str, c: char) -> (r: Vec<&'a str>)
    ensures
        views(r@) == split_on(s@, c),
{
    let n = s.unicode_len();
    let mut parts: Vec<&'a str> = Vec::new();
    let mut pos: usize = 0;
    assert(s@.subrange(0, n as int) =~= s@);
    assert(views(parts@) =~= Seq::<Seq<char>>::empty());
    loop
        invariant
            n == s@.len(),
            pos <= n,
            split_on(s@, c) == views(parts@) + split_on(s@.subrange(pos as int, n as int), c),
        decreases n - pos,
    {
        let rest = s.substring_char(pos, n);
        match find(rest, c) {
            Some(k) => {
                let ghost before = parts@;
                parts.push(rest.substring_char(0, k));
                proof {
                    let t = s@.subrange(pos as int, n as int);
                    assert(rest@ == t);
                    lemma_split_at(t, c, k as int);
                    assert(t.subrange(k + 1, t.len() as int) =~= s@.subrange(pos + k + 1, n as int));
                    assert(views(parts@) =~= views(before) + seq![t.subrange(0, k as int)]);
                }
                pos = pos + k + 1;
            },
            None => {
                let ghost before = parts@;
                proof {
                    lemma_split_last(rest@, c);
                }
                parts.push(rest);
                assert(views(parts@) =~= views(before) + seq![rest@]);
                return parts;
            },
        }
    }
}

/// Reads a number as `u32::from_str_radix(s, 16)` does.
pub fn parse_hex_u32(s: &str) -> (r: Option<u32>)
    ensures
        r == hex_u32(s@),
{
    let start: usize = if s.unicode_len() > 0 && s.get_char(0) == '+' { 1 } else { 0 };
    assert(s@.subrange(start as int, s@.len() as int) =~= unsigned_digits(s@));
    let r = read_digits(s, start, 16, 0xffff_ffff);
    let ghost d = unsigned_digits(s@);
    match r {
        Some(v) => {
            assert(s@.subrange(start as int, s@.len() as int) == d);
            Some(v as u32)
        },
        None => {
            assert(s@.subrange(start as int, s@.len() as int) == d);
            None
        },
    }
}

} // verus!
