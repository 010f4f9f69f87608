use vstd::prelude::*;
use core::ops::RangeInclusive;
use crate::parse::{parse_range, range_result};
use crate::text::{find, find_char, hex4, push_hex4, trim_end, trim_start, trim_str};

verus! {

/// Block of codepoints from the Unicode Character Database.
#[derive(Debug)]
pub struct Block<'a> {
    /// Inclusive range of codepoints in this block.
    pub range: RangeInclusive<u32>,
    /// Name of the block.
    ///
    /// When comparing block names, casing, whitespace, hyphens, and underbars
    /// are ignored. For example, "Latin Extended-A" and "latin extended a" are
    /// equivalent.
    pub name: &'a str,
}

/// What `Block::parse` makes of a line: the range before the first `;` and
/// the trimmed name after it, or the message of the first thing wrong.
pub open spec fn block_result(s: Seq<char>) -> Result<(u32, u32, Seq<char>), Seq<char>> {
    match find_char(s, ';') {
        None => Err("`"@ + s + "` block is missing `;`"@),
        Some(k) => match range_result(s.subrange(0, k)) {
            Err(e) => Err("block "@ + e + " -- in `"@ + s + "`"@),
            Ok((a, b)) => Ok((a, b, trim_start(trim_end(s.subrange(k + 1, s.len() as int))))),
        },
    }
}

/// How `Blocks.txt` writes a block.
pub open spec fn block_line(first: u32, last: u32, name: Seq<char>) -> Seq<char> {
    hex4(first as nat) + ".."@ + hex4(last as nat) + "; "@ + name
}

impl<'a> Block<'a> {
    pub fn new(range: RangeInclusive<u32>, name: &'a str) -> (r: Self)
        ensures
            r.range == range,
            r.name == name,
    {
        Block { range, name }
    }

    /// Reads a line of `Blocks.txt`: a range, `;`, and a name.
    pub fn parse(input: &'a str) -> (r: Result<Self, String>)
        ensures
            match r {
                Ok(b) => block_result(input@) == Ok::<(u32, u32, Seq<char>), Seq<char>>(
                    (b.range@.start, b.range@.end, b.name@),
                ) && !b.range@.exhausted,
                Err(e) => block_result(input@) == Err::<(u32, u32, Seq<char>), Seq<char>>(e@),
            },
    {
        let n = input.unicode_len();
        let semicolon = match find(input, ';') {
            Some(k) => k,
            None => {
                let mut e = String::from_str("`");
                e.append(input);
                e.append("` block is missing `;`");
                return Err(e);
            },
        };
        let range = input.substring_char(0, semicolon);
        let name = trim_str(input.substring_char(semicolon + 1, n));
        match parse_range(range) {
            Ok((start, end)) => Ok(Block::new(start..=end, name)),
            Err(err) => {
                let mut e = String::from_str("block ");
                e.append(err.as_str());
                e.append(" -- in `");
                e.append(input);
                e.append("`");
                Err(e)
            },
        }
    }

    /// The block as `Blocks.txt` writes it.
    pub fn to_string(&self) -> (r: String)
        ensures
            r@ == block_line(self.range@.start, self.range@.end, self.name@),
    {
        let mut out = String::new();
        push_hex4(&mut out, *self.range.start());
        out.append("..");
        push_hex4(&mut out, *self.range.end());
        out.append("; ");
        out.append(self.name);
        out
    }
}

} // verus!
