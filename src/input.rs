use vstd::prelude::*;
use crate::text::{find, find_char, split, split_on, trim_end, trim_end_str, views};

verus! {

/// Text of an input file of the Unicode Character Database.
pub struct Input(&'static str);

/// A line without its comment, which starts at `#`, and without trailing
/// white space.
pub open spec fn clean_line(l: Seq<char>) -> Seq<char> {
    trim_end(
        match find_char(l, '#') {
            Some(k) => l.subrange(0, k),
            None => l,
        },
    )
}

/// The cleaned lines that are not empty, in order.
pub open spec fn content_lines(ls: Seq<Seq<char>>) -> Seq<Seq<char>>
    decreases ls.len(),
{
    if ls.len() == 0 {
        Seq::empty()
    } else {
        let rest = content_lines(ls.drop_last());
        let c = clean_line(ls.last());
        if c.len() > 0 {
            rest.push(c)
        } else {
            rest
        }
    }
}

impl View for Input {
    type V = Seq<char>;

    closed spec fn view(&self) -> Seq<char> {
        self.0@
    }
}

impl Input {
    pub fn new(text: &'static str) -> (r: Input)
        ensures
            r@ == text@,
    {
        Input(text)
    }

    /// The lines that hold data: comments, trailing white space and empty
    /// lines are left out.
    pub fn lines(&self) -> (r: Vec<&'static str>)
        ensures
            views(r@) == content_lines(split_on(self@, '\n')),
    {
        let all = split(self.0, '\n');
        let ghost ls = split_on(self@, '\n');
        let mut out: Vec<&'static str> = Vec::new();
        let mut i: usize = 0;
        while i < all.len()
            invariant
                views(all@) == ls,
                0 <= i <= all@.len(),
                views(out@) == content_lines(ls.subrange(0, i as int)),
            decreases all@.len() - i,
        {
            let line = all[i];
            assert(line@ == ls[i as int]);
            let line = match find(line, '#') {
                Some(k) => line.substring_char(0, k),
                None => line,
            };
            let line = trim_end_str(line);
            assert(ls.subrange(0, i + 1).drop_last() =~= ls.subrange(0, i as int));
            if line.unicode_len() > 0 {
                let ghost before = out@;
                out.push(line);
                assert(views(out@) =~= views(before).push(line@));
            }
            i = i + 1;
        }
        assert(ls.subrange(0, all@.len() as int) =~= ls);
        out
    }
}

} // verus!
