use vstd::prelude::*;
use crate::text::eq_lit;

verus! {
/// Bidirectional character types, as the Bidirectional Algorithm of the
/// Unicode Standard uses them.
///
/// See https://www.unicode.org/reports/tr9/#Bidirectional_Character_Types
#[derive(Clone, Copy, Debug, PartialEq, Eq, Structural)]
pub enum Bidi {
    /// Left-to-Right: most alphabetic, syllabic, Han ideographs, non-European or non-Arabic digits, ...
    L,
    /// Right-to-Left: RLM, Hebrew alphabet, and related punctuation
    R,
    /// Right-to-Left Arabic: ALM, Arabic, Thaana, and Syriac alphabets, most punctuation specific to those scripts, ...
    AL,
    /// European Number: European digits, Eastern Arabic-Indic digits, ...
    EN,
    /// European Number Separator: PLUS SIGN, MINUS SIGN
    ES,
    /// European Number Terminator: DEGREE SIGN, currency symbols, ...
    ET,
    /// Arabic Number: Arabic-Indic digits, Arabic decimal and thousands separators, ...
    AN,
    /// Common Number Separator: COLON, COMMA, FULL STOP, NO-BREAK SPACE, ...
    CS,
    /// Nonspacing Mark: Characters with the General Category values: Mn (Nonspacing_Mark) and Me (Enclosing_Mark)
    NSM,
    /// Boundary Neutral: Default ignorables, non-characters, and control characters, other than those explicitly given other types.
    BN,
    /// Paragraph Separator: PARAGRAPH SEPARATOR, appropriate Newline Functions, higher-level protocol paragraph determination
    B,
    /// Segment Separator: Tab
    S,
    /// Whitespace: SPACE, FIGURE SPACE, LINE SEPARATOR, FORM FEED, general punctuation spaces, ...
    WS,
    /// Other Neutrals: All other characters, including OBJECT REPLACEMENT CHARACTER
    ON,
    /// Left-to-Right Embedding
    LRE,
    /// Left-to-Right Override
    LRO,
    /// Right-to-Left Embedding
    RLE,
    /// Right-to-Left Override
    RLO,
    /// Pop Directional Format
    PDF,
    /// Left-to-Right Isolate
    LRI,
    /// Right-to-Left Isolate
    RLI,
    /// First Strong Isolate
    FSI,
    /// Pop Directional Isolate
    PDI,
}

/// Code of each Bidi in the Unicode Character Database.
pub open spec fn bidi_code(x: Bidi) -> Seq<char> {
    match x {
        Bidi::L => "L"@,
        Bidi::R => "R"@,
        Bidi::AL => "AL"@,
        Bidi::EN => "EN"@,
        Bidi::ES => "ES"@,
        Bidi::ET => "ET"@,
        Bidi::AN => "AN"@,
        Bidi::CS => "CS"@,
        Bidi::NSM => "NSM"@,
        Bidi::BN => "BN"@,
        Bidi::B => "B"@,
        Bidi::S => "S"@,
        Bidi::WS => "WS"@,
        Bidi::ON => "ON"@,
        Bidi::LRE => "LRE"@,
        Bidi::LRO => "LRO"@,
        Bidi::RLE => "RLE"@,
        Bidi::RLO => "RLO"@,
        Bidi::PDF => "PDF"@,
        Bidi::LRI => "LRI"@,
        Bidi::RLI => "RLI"@,
        Bidi::FSI => "FSI"@,
        Bidi::PDI => "PDI"@,
    }
}

/// Distinct types have distinct codes, so `parse` reads the code of a type
/// as that type.
pub proof fn lemma_bidi_code_unique(x: Bidi)
    ensures
        forall|y: Bidi| #[trigger] bidi_code(y) == bidi_code(x) ==> y == x,
{
    assert forall|y: Bidi| #[trigger] bidi_code(y) == bidi_code(x) implies y == x by {
        reveal_strlit("L");
        reveal_strlit("R");
        reveal_strlit("AL");
        reveal_strlit("EN");
        reveal_strlit("ES");
        reveal_strlit("ET");
        reveal_strlit("AN");
        reveal_strlit("CS");
        reveal_strlit("NSM");
        reveal_strlit("BN");
        reveal_strlit("B");
        reveal_strlit("S");
        reveal_strlit("WS");
        reveal_strlit("ON");
        reveal_strlit("LRE");
        reveal_strlit("LRO");
        reveal_strlit("RLE");
        reveal_strlit("RLO");
        reveal_strlit("PDF");
        reveal_strlit("LRI");
        reveal_strlit("RLI");
        reveal_strlit("FSI");
        reveal_strlit("PDI");
        if y != x {
            // the codes differ in length or in one of their first characters
            assert(bidi_code(y).len() != bidi_code(x).len() || bidi_code(y)[0] != bidi_code(x)[0] || bidi_code(y)[1] != bidi_code(x)[1] || bidi_code(y)[2] != bidi_code(x)[2]);
        }
    }
}

impl Bidi {
    /// Reads a bidirectional type from its code.
    pub fn parse(input: &str) -> (r: Option<Bidi>)
        ensures
            match r {
                Some(x) => bidi_code(x) == input@,
                None => forall|x: Bidi| bidi_code(x) != input@,
            },
    {
        if eq_lit(input, "L") {
            return Some(Bidi::L);
        }
        if eq_lit(input, "R") {
            return Some(Bidi::R);
        }
        if eq_lit(input, "AL") {
            return Some(Bidi::AL);
        }
        if eq_lit(input, "EN") {
            return Some(Bidi::EN);
        }
        if eq_lit(input, "ES") {
            return Some(Bidi::ES);
        }
        if eq_lit(input, "ET") {
            return Some(Bidi::ET);
        }
        if eq_lit(input, "AN") {
            return Some(Bidi::AN);
        }
        if eq_lit(input, "CS") {
            return Some(Bidi::CS);
        }
        if eq_lit(input, "NSM") {
            return Some(Bidi::NSM);
        }
        if eq_lit(input, "BN") {
            return Some(Bidi::BN);
        }
        if eq_lit(input, "B") {
            return Some(Bidi::B);
        }
        if eq_lit(input, "S") {
            return Some(Bidi::S);
        }
        if eq_lit(input, "WS") {
            return Some(Bidi::WS);
        }
        if eq_lit(input, "ON") {
            return Some(Bidi::ON);
        }
        if eq_lit(input, "LRE") {
            return Some(Bidi::LRE);
        }
        if eq_lit(input, "LRO") {
            return Some(Bidi::LRO);
        }
        if eq_lit(input, "RLE") {
            return Some(Bidi::RLE);
        }
        if eq_lit(input, "RLO") {
            return Some(Bidi::RLO);
        }
        if eq_lit(input, "PDF") {
            return Some(Bidi::PDF);
        }
        if eq_lit(input, "LRI") {
            return Some(Bidi::LRI);
        }
        if eq_lit(input, "RLI") {
            return Some(Bidi::RLI);
        }
        if eq_lit(input, "FSI") {
            return Some(Bidi::FSI);
        }
        if eq_lit(input, "PDI") {
            return Some(Bidi::PDI);
        }
        None
    }

    /// The code of this value, as the Unicode Character Database writes it.
    pub fn to_string(&self) -> (r: String)
        ensures
            r@ == bidi_code(*self),
    {
        match self {
            Bidi::L => String::from_str("L"),
            Bidi::R => String::from_str("R"),
            Bidi::AL => String::from_str("AL"),
            Bidi::EN => String::from_str("EN"),
            Bidi::ES => String::from_str("ES"),
            Bidi::ET => String::from_str("ET"),
            Bidi::AN => String::from_str("AN"),
            Bidi::CS => String::from_str("CS"),
            Bidi::NSM => String::from_str("NSM"),
            Bidi::BN => String::from_str("BN"),
            Bidi::B => String::from_str("B"),
            Bidi::S => String::from_str("S"),
            Bidi::WS => String::from_str("WS"),
            Bidi::ON => String::from_str("ON"),
            Bidi::LRE => String::from_str("LRE"),
            Bidi::LRO => String::from_str("LRO"),
            Bidi::RLE => String::from_str("RLE"),
            Bidi::RLO => String::from_str("RLO"),
            Bidi::PDF => String::from_str("PDF"),
            Bidi::LRI => String::from_str("LRI"),
            Bidi::RLI => String::from_str("RLI"),
            Bidi::FSI => String::from_str("FSI"),
            Bidi::PDI => String::from_str("PDI"),
        }
    }
}

} // verus!
