use vstd::prelude::*;
use crate::text::{eq_lit, hex4, hex_u32, parse_hex_u32, push_hex4, split, split_on};

verus! {
/// Tag of a compatibility [`Decomposition`](crate::decomposition::Decomposition),
/// which generally gives formatting information.
///
/// A mapping without a tag is canonical.
#[derive(Clone, Copy, Debug, PartialEq, Eq, Structural)]
pub enum DecompositionTag {
    /// A font variant (e.g. a blackletter form).
    Font,
    /// A no-break version of a space or hyphen.
    NoBreak,
    /// An initial presentation form (Arabic).
    Initial,
    /// A medial presentation form (Arabic).
    Medial,
    /// A final presentation form (Arabic).
    Final,
    /// An isolated presentation form (Arabic).
    Isolated,
    /// An encircled form.
    Circle,
    /// A superscript form.
    Super,
    /// A subscript form.
    Sub,
    /// A vertical layout presentation form.
    Vertical,
    /// A wide (or zenkaku) compatibility character.
    Wide,
    /// A narrow (or hankaku) compatibility character.
    Narrow,
    /// A small variant form (CNS compatibility).
    Small,
    /// A CJK squared font variant.
    Square,
    /// A vulgar fraction form.
    Fraction,
    /// Otherwise unspecified compatibility character.
    Compat,
}

/// Code of each DecompositionTag in the Unicode Character Database.
pub open spec fn tag_code(x: DecompositionTag) -> Seq<char> {
    match x {
        DecompositionTag::Font => "<font>"@,
        DecompositionTag::NoBreak => "<noBreak>"@,
        DecompositionTag::Initial => "<initial>"@,
        DecompositionTag::Medial => "<medial>"@,
        DecompositionTag::Final => "<final>"@,
        DecompositionTag::Isolated => "<isolated>"@,
        DecompositionTag::Circle => "<circle>"@,
        DecompositionTag::Super => "<super>"@,
        DecompositionTag::Sub => "<sub>"@,
        DecompositionTag::Vertical => "<vertical>"@,
        DecompositionTag::Wide => "<wide>"@,
        DecompositionTag::Narrow => "<narrow>"@,
        DecompositionTag::Small => "<small>"@,
        DecompositionTag::Square => "<square>"@,
        DecompositionTag::Fraction => "<fraction>"@,
        DecompositionTag::Compat => "<compat>"@,
    }
}

/// Distinct tags have distinct codes, so `parse` reads the code of a tag
/// as that tag.
pub proof fn lemma_tag_code_unique(x: DecompositionTag)
    ensures
        forall|y: DecompositionTag| #[trigger] tag_code(y) == tag_code(x) ==> y == x,
{
    assert forall|y: DecompositionTag| #[trigger] tag_code(y) == tag_code(x) implies y == x by {
        reveal_strlit("<font>");
        reveal_strlit("<noBreak>");
        reveal_strlit("<initial>");
        reveal_strlit("<medial>");
        reveal_strlit("<final>");
        reveal_strlit("<isolated>");
        reveal_strlit("<circle>");
        reveal_strlit("<super>");
        reveal_strlit("<sub>");
        reveal_strlit("<vertical>");
        reveal_strlit("<wide>");
        reveal_strlit("<narrow>");
        reveal_strlit("<small>");
        reveal_strlit("<square>");
        reveal_strlit("<fraction>");
        reveal_strlit("<compat>");
        if y != x {
            // the codes differ in length or in one of their first characters
            assert(tag_code(y).len() != tag_code(x).len() || tag_code(y)[1] != tag_code(x)[1] || tag_code(y)[2] != tag_code(x)[2] || tag_code(y)[3] != tag_code(x)[3]);
        }
    }
}

impl DecompositionTag {
    /// Reads a decomposition tag, brackets included.
    pub fn parse(input: &str) -> (r: Option<DecompositionTag>)
        ensures
            match r {
                Some(x) => tag_code(x) == input@,
                None => forall|x: DecompositionTag| tag_code(x) != input@,
            },
    {
        if eq_lit(input, "<font>") {
            return Some(DecompositionTag::Font);
        }
        if eq_lit(input, "<noBreak>") {
            return Some(DecompositionTag::NoBreak);
        }
        if eq_lit(input, "<initial>") {
            return Some(DecompositionTag::Initial);
        }
        if eq_lit(input, "<medial>") {
            return Some(DecompositionTag::Medial);
        }
        if eq_lit(input, "<final>") {
            return Some(DecompositionTag::Final);
        }
        if eq_lit(input, "<isolated>") {
            return Some(DecompositionTag::Isolated);
        }
        if eq_lit(input, "<circle>") {
            return Some(DecompositionTag::Circle);
        }
        if eq_lit(input, "<super>") {
            return Some(DecompositionTag::Super);
        }
        if eq_lit(input, "<sub>") {
            return Some(DecompositionTag::Sub);
        }
        if eq_lit(input, "<vertical>") {
            return Some(DecompositionTag::Vertical);
        }
        if eq_lit(input, "<wide>") {
            return Some(DecompositionTag::Wide);
        }
        if eq_lit(input, "<narrow>") {
            return Some(DecompositionTag::Narrow);
        }
        if eq_lit(input, "<small>") {
            return Some(DecompositionTag::Small);
        }
        if eq_lit(input, "<square>") {
            return Some(DecompositionTag::Square);
        }
        if eq_lit(input, "<fraction>") {
            return Some(DecompositionTag::Fraction);
        }
        if eq_lit(input, "<compat>") {
            return Some(DecompositionTag::Compat);
        }
        None
    }

    /// The code of this value, as the Unicode Character Database writes it.
    pub fn to_string(&self) -> (r: String)
        ensures
            r@ == tag_code(*self),
    {
        match self {
            DecompositionTag::Font => String::from_str("<font>"),
            DecompositionTag::NoBreak => String::from_str("<noBreak>"),
            DecompositionTag::Initial => String::from_str("<initial>"),
            DecompositionTag::Medial => String::from_str("<medial>"),
            DecompositionTag::Final => String::from_str("<final>"),
            DecompositionTag::Isolated => String::from_str("<isolated>"),
            DecompositionTag::Circle => String::from_str("<circle>"),
            DecompositionTag::Super => String::from_str("<super>"),
            DecompositionTag::Sub => String::from_str("<sub>"),
            DecompositionTag::Vertical => String::from_str("<vertical>"),
            DecompositionTag::Wide => String::from_str("<wide>"),
            DecompositionTag::Narrow => String::from_str("<narrow>"),
            DecompositionTag::Small => String::from_str("<small>"),
            DecompositionTag::Square => String::from_str("<square>"),
            DecompositionTag::Fraction => String::from_str("<fraction>"),
            DecompositionTag::Compat => String::from_str("<compat>"),
        }
    }
}

/// Decomposition mapping of a character.
#[derive(Clone, Debug, PartialEq, Eq)]
pub struct Decomposition {
    pub tag: Option<DecompositionTag>,
    pub codes: Vec<u32>,
}

/// The field begins with a tag in angle brackets.
pub open spec fn has_tag(toks: Seq<Seq<char>>) -> bool {
    toks.len() > 0 && toks[0].len() > 0 && toks[0][0] == '<'
}

/// The parts of the field that write codes.
pub open spec fn code_tokens(toks: Seq<Seq<char>>) -> Seq<Seq<char>> {
    if has_tag(toks) {
        toks.drop_first()
    } else {
        toks
    }
}

/// Some tag is written `t`.
pub open spec fn is_tag(t: Seq<char>) -> bool {
    exists|x: DecompositionTag| tag_code(x) == t
}

/// A decomposition field, parts separated by single spaces: an optional tag,
/// then hexadecimal codes.
pub open spec fn decomposition_valid(s: Seq<char>) -> bool {
    let toks = split_on(s, ' ');
    &&& !has_tag(toks) || is_tag(toks[0])
    &&& forall|i: int| 0 <= i < code_tokens(toks).len() ==> (#[trigger] hex_u32(code_tokens(toks)[i])) is Some
}

/// Index of the first part that does not read as a code.
pub open spec fn first_bad_code(c: Seq<Seq<char>>) -> int {
    choose|i: int| 0 <= i < c.len() && hex_u32(c[i]) is None && forall|j: int| 0 <= j < i ==> (#[trigger] hex_u32(c[j])) is Some
}

/// What is wrong with an invalid decomposition field.
pub open spec fn decomposition_error(s: Seq<char>) -> Seq<char> {
    let toks = split_on(s, ' ');
    if has_tag(toks) && !is_tag(toks[0]) {
        "decomposition tag `"@ + toks[0] + "` is not valid"@
    } else {
        "decomposition code `"@ + code_tokens(toks)[first_bad_code(code_tokens(toks))] + "` is not valid"@
    }
}

/// The codes that a valid decomposition field writes.
pub open spec fn decomposition_codes(s: Seq<char>) -> Seq<u32> {
    let c = code_tokens(split_on(s, ' '));
    Seq::new(c.len(), |i: int| hex_u32(c[i])->0)
}

/// The codes, in `{:04X}` form, separated by spaces.
pub open spec fn joined_codes(codes: Seq<u32>) -> Seq<char>
    decreases codes.len(),
{
    if codes.len() == 0 {
        Seq::empty()
    } else if codes.len() == 1 {
        hex4(codes[0] as nat)
    } else {
        joined_codes(codes.drop_last()) + " "@ + hex4(codes.last() as nat)
    }
}

/// How the Unicode Character Database writes a decomposition.
pub open spec fn decomposition_chars(tag: Option<DecompositionTag>, codes: Seq<u32>) -> Seq<char> {
    match tag {
        None => joined_codes(codes),
        Some(t) => if codes.len() == 0 {
            tag_code(t)
        } else {
            tag_code(t) + " "@ + joined_codes(codes)
        },
    }
}

impl Decomposition {
    /// Reads a non-empty decomposition field, or says what is wrong with it.
    pub fn try_parse(input: &str) -> (r: Result<Decomposition, String>)
        ensures
            r is Ok <==> decomposition_valid(input@),
            r is Err ==> r->Err_0@ == decomposition_error(input@),
            r is Ok ==> ({
                let d = r->Ok_0;
                &&& d.tag is Some <==> has_tag(split_on(input@, ' '))
                &&& d.tag is Some ==> tag_code(d.tag->0) == split_on(input@, ' ')[0]
                &&& d.codes@ == decomposition_codes(input@)
            }),
    {
        let toks = split(input, ' ');
        let ghost t = split_on(input@, ' ');
        assert(toks@.len() == t.len());
        let mut tag: Option<DecompositionTag> = None;
        let mut start: usize = 0;
        if toks.len() > 0 && toks[0].unicode_len() > 0 && toks[0].get_char(0) == '<' {
            assert(toks@[0]@ == t[0]);
            match DecompositionTag::parse(toks[0]) {
                Some(x) => {
                    assert(is_tag(t[0]));
                    tag = Some(x);
                    start = 1;
                },
                None => {
                    let mut e = String::from_str("decomposition tag `");
                    e.append(toks[0]);
                    e.append("` is not valid");
                    return Err(e);
                },
            }
        }
        let ghost c = code_tokens(t);
        assert(has_tag(t) <==> start == 1);
        assert(forall|i: int| 0 <= i < c.len() ==> c[i] == toks@[i + start]@);
        let mut codes: Vec<u32> = Vec::new();
        let mut i: usize = start;
        while i < toks.len()
            invariant
                toks@.len() == t.len(),
                t == split_on(input@, ' '),
                c == code_tokens(t),
                start == (if has_tag(t) { 1int } else { 0 }),
                has_tag(t) ==> is_tag(t[0]),
                start <= i <= toks@.len(),
                forall|j: int| 0 <= j < c.len() ==> c[j] == toks@[j + start]@,
                forall|j: int| 0 <= j < i - start ==> (#[trigger] hex_u32(c[j])) is Some,
                codes@ == Seq::new((i - start) as nat, |j: int| hex_u32(c[j])->0),
            decreases toks@.len() - i,
        {
            match parse_hex_u32(toks[i]) {
                Some(v) => {
                    codes.push(v);
                    assert(codes@ =~= Seq::new((i + 1 - start) as nat, |j: int| hex_u32(c[j])->0));
                },
                None => {
                    assert(c.len() == t.len() - start);
                    assert(hex_u32(code_tokens(t)[i - start]) is None);
                    assert(!decomposition_valid(input@));
                    proof {
                        let w = i - start;
                        assert(0 <= w < c.len() && hex_u32(c[w]) is None && forall|j: int|
                            0 <= j < w ==> (#[trigger] hex_u32(c[j])) is Some);
                        let k = first_bad_code(c);
                        assert(hex_u32(c[i - start]) is None);
                        if k < i - start {
                        } else if k > i - start {
                            assert(hex_u32(c[i - start]) is Some);
                        }
                        assert(toks@[i as int]@ == c[i - start]);
                    }
                    let mut e = String::from_str("decomposition code `");
                    e.append(toks[i]);
                    e.append("` is not valid");
                    return Err(e);
                },
            }
            i = i + 1;
        }
        Ok(Decomposition { tag, codes })
    }

    /// Reads a decomposition field; an empty field has none. The field must
    /// be valid; `message` names the row for a reader of the input.
    pub fn parse(input: &str, message: &str) -> (r: Option<Decomposition>)
        requires
            input@.len() == 0 || decomposition_valid(input@),
        ensures
            r is None <==> input@.len() == 0,
            r is Some ==> ({
                let d = r->0;
                &&& d.tag is Some <==> has_tag(split_on(input@, ' '))
                &&& d.tag is Some ==> tag_code(d.tag->0) == split_on(input@, ' ')[0]
                &&& d.codes@ == decomposition_codes(input@)
            }),
    {
        if input.unicode_len() == 0 {
            return None;
        }
        match Decomposition::try_parse(input) {
            Ok(d) => Some(d),
            Err(_) => None,
        }
    }

    /// The decomposition as the Unicode Character Database writes it.
    pub fn to_string(&self) -> (r: String)
        ensures
            r@ == decomposition_chars(self.tag, self.codes@),
    {
        let mut out = String::new();
        match self.tag {
            Some(t) => out = t.to_string(),
            None => {},
        }
        let mut i: usize = 0;
        while i < self.codes.len()
            invariant
                0 <= i <= self.codes@.len(),
                out@ == decomposition_chars(self.tag, self.codes@.subrange(0, i as int)),
            decreases self.codes@.len() - i,
        {
            let ghost prev = self.codes@.subrange(0, i as int);
            let ghost next = self.codes@.subrange(0, i + 1);
            assert(next.drop_last() =~= prev);
            if i > 0 || self.tag.is_some() {
                out.append(" ");
            }
            push_hex4(&mut out, self.codes[i]);
            proof {
                if i == 0 {
                    assert(joined_codes(next) == hex4(next[0] as nat));
                }
                assert(out@ =~= decomposition_chars(self.tag, next));
            }
            i = i + 1;
        }
        assert(self.codes@.subrange(0, self.codes@.len() as int) =~= self.codes@);
        out
    }
}

} // verus!
