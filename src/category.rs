use vstd::prelude::*;
use crate::text::eq_lit;

verus! {
/// General category of a character. These are a useful breakdown into
/// various "character types" which can be used as a default categorization
/// in implementations.
#[derive(Clone, Copy, Debug, PartialEq, Eq, Structural)]
pub enum Category {
    /// `Cn` Unicode category (no characters in the file have this property).
    OtherNotAssigned,
    /// `Lu` Unicode category.
    LetterUppercase,
    /// `Ll` Unicode category.
    LetterLowercase,
    /// `Lt` Unicode category.
    LetterTitlecase,
    /// `Mn` Unicode category.
    MarkNonSpacing,
    /// `Mc` Unicode category.
    MarkSpacingCombining,
    /// `Me` Unicode category.
    MarkEnclosing,
    /// `Nd` Unicode category.
    NumberDecimalDigit,
    /// `Nl` Unicode category.
    NumberLetter,
    /// `No` Unicode category.
    NumberOther,
    /// `Zs` Unicode category.
    SeparatorSpace,
    /// `Zl` Unicode category.
    SeparatorLine,
    /// `Zp` Unicode category.
    SeparatorParagraph,
    /// `Cc` Unicode category.
    OtherControl,
    /// `Cf` Unicode category.
    OtherFormat,
    /// `Cs` Unicode category.
    OtherSurrogate,
    /// `Co` Unicode category.
    OtherPrivateUse,
    /// `Lm` Unicode category.
    LetterModifier,
    /// `Lo` Unicode category.
    LetterOther,
    /// `Pc` Unicode category.
    PunctuationConnector,
    /// `Pd` Unicode category.
    PunctuationDash,
    /// `Ps` Unicode category.
    PunctuationOpen,
    /// `Pe` Unicode category.
    PunctuationClose,
    /// `Pi` Unicode category (may behave like Ps or Pe depending on usage).
    PunctuationInitialQuote,
    /// `Pf` Unicode category (may behave like Ps or Pe depending on usage).
    PunctuationFinalQuote,
    /// `Po` Unicode category.
    PunctuationOther,
    /// `Sm` Unicode category.
    SymbolMath,
    /// `Sc` Unicode category.
    SymbolCurrency,
    /// `Sk` Unicode category.
    SymbolModifier,
    /// `So` Unicode category.
    SymbolOther,
}

/// Code of each Category in the Unicode Character Database.
pub open spec fn category_code(x: Category) -> Seq<char> {
    match x {
        Category::OtherNotAssigned => "Cn"@,
        Category::LetterUppercase => "Lu"@,
        Category::LetterLowercase => "Ll"@,
        Category::LetterTitlecase => "Lt"@,
        Category::MarkNonSpacing => "Mn"@,
        Category::MarkSpacingCombining => "Mc"@,
        Category::MarkEnclosing => "Me"@,
        Category::NumberDecimalDigit => "Nd"@,
        Category::NumberLetter => "Nl"@,
        Category::NumberOther => "No"@,
        Category::SeparatorSpace => "Zs"@,
        Category::SeparatorLine => "Zl"@,
        Category::SeparatorParagraph => "Zp"@,
        Category::OtherControl => "Cc"@,
        Category::OtherFormat => "Cf"@,
        Category::OtherSurrogate => "Cs"@,
        Category::OtherPrivateUse => "Co"@,
        Category::LetterModifier => "Lm"@,
        Category::LetterOther => "Lo"@,
        Category::PunctuationConnector => "Pc"@,
        Category::PunctuationDash => "Pd"@,
        Category::PunctuationOpen => "Ps"@,
        Category::PunctuationClose => "Pe"@,
        Category::PunctuationInitialQuote => "Pi"@,
        Category::PunctuationFinalQuote => "Pf"@,
        Category::PunctuationOther => "Po"@,
        Category::SymbolMath => "Sm"@,
        Category::SymbolCurrency => "Sc"@,
        Category::SymbolModifier => "Sk"@,
        Category::SymbolOther => "So"@,
    }
}

/// Distinct categorys have distinct codes, so `parse` reads the code of a category
/// as that category.
pub proof fn lemma_category_code_unique(x: Category)
    ensures
        forall|y: Category| #[trigger] category_code(y) == category_code(x) ==> y == x,
{
    assert forall|y: Category| #[trigger] category_code(y) == category_code(x) implies y == x by {
        reveal_strlit("Cn");
        reveal_strlit("Lu");
        reveal_strlit("Ll");
        reveal_strlit("Lt");
        reveal_strlit("Mn");
        reveal_strlit("Mc");
        reveal_strlit("Me");
        reveal_strlit("Nd");
        reveal_strlit("Nl");
        reveal_strlit("No");
        reveal_strlit("Zs");
        reveal_strlit("Zl");
        reveal_strlit("Zp");
        reveal_strlit("Cc");
        reveal_strlit("Cf");
        reveal_strlit("Cs");
        reveal_strlit("Co");
        reveal_strlit("Lm");
        reveal_strlit("Lo");
        reveal_strlit("Pc");
        reveal_strlit("Pd");
        reveal_strlit("Ps");
        reveal_strlit("Pe");
        reveal_strlit("Pi");
        reveal_strlit("Pf");
        reveal_strlit("Po");
        reveal_strlit("Sm");
        reveal_strlit("Sc");
        reveal_strlit("Sk");
        reveal_strlit("So");
        if y != x {
            // the codes differ in length or in one of their first characters
            assert(category_code(y).len() != category_code(x).len() || category_code(y)[0] != category_code(x)[0] || category_code(y)[1] != category_code(x)[1]);
        }
    }
}

impl Category {
    /// Reads a general category from its two-letter code.
    pub fn parse(input: &str) -> (r: Option<Category>)
        ensures
            match r {
                Some(x) => category_code(x) == input@,
                None => forall|x: Category| category_code(x) != input@,
            },
    {
        if eq_lit(input, "Cn") {
            return Some(Category::OtherNotAssigned);
        }
        if eq_lit(input, "Lu") {
            return Some(Category::LetterUppercase);
        }
        if eq_lit(input, "Ll") {
            return Some(Category::LetterLowercase);
        }
        if eq_lit(input, "Lt") {
            return Some(Category::LetterTitlecase);
        }
        if eq_lit(input, "Mn") {
            return Some(Category::MarkNonSpacing);
        }
        if eq_lit(input, "Mc") {
            return Some(Category::MarkSpacingCombining);
        }
        if eq_lit(input, "Me") {
            return Some(Category::MarkEnclosing);
        }
        if eq_lit(input, "Nd") {
            return Some(Category::NumberDecimalDigit);
        }
        if eq_lit(input, "Nl") {
            return Some(Category::NumberLetter);
        }
        if eq_lit(input, "No") {
            return Some(Category::NumberOther);
        }
        if eq_lit(input, "Zs") {
            return Some(Category::SeparatorSpace);
        }
        if eq_lit(input, "Zl") {
            return Some(Category::SeparatorLine);
        }
        if eq_lit(input, "Zp") {
            return Some(Category::SeparatorParagraph);
        }
        if eq_lit(input, "Cc") {
            return Some(Category::OtherControl);
        }
        if eq_lit(input, "Cf") {
            return Some(Category::OtherFormat);
        }
        if eq_lit(input, "Cs") {
            return Some(Category::OtherSurrogate);
        }
        if eq_lit(input, "Co") {
            return Some(Category::OtherPrivateUse);
        }
        if eq_lit(input, "Lm") {
            return Some(Category::LetterModifier);
        }
        if eq_lit(input, "Lo") {
            return Some(Category::LetterOther);
        }
        if eq_lit(input, "Pc") {
            return Some(Category::PunctuationConnector);
        }
        if eq_lit(input, "Pd") {
            return Some(Category::PunctuationDash);
        }
        if eq_lit(input, "Ps") {
            return Some(Category::PunctuationOpen);
        }
        if eq_lit(input, "Pe") {
            return Some(Category::PunctuationClose);
        }
        if eq_lit(input, "Pi") {
            return Some(Category::PunctuationInitialQuote);
        }
        if eq_lit(input, "Pf") {
            return Some(Category::PunctuationFinalQuote);
        }
        if eq_lit(input, "Po") {
            return Some(Category::PunctuationOther);
        }
        if eq_lit(input, "Sm") {
            return Some(Category::SymbolMath);
        }
        if eq_lit(input, "Sc") {
            return Some(Category::SymbolCurrency);
        }
        if eq_lit(input, "Sk") {
            return Some(Category::SymbolModifier);
        }
        if eq_lit(input, "So") {
            return Some(Category::SymbolOther);
        }
        None
    }

    /// The code of this value, as the Unicode Character Database writes it.
    pub fn to_string(&self) -> (r: String)
        ensures
            r@ == category_code(*self),
    {
        match self {
            Category::OtherNotAssigned => String::from_str("Cn"),
            Category::LetterUppercase => String::from_str("Lu"),
            Category::LetterLowercase => String::from_str("Ll"),
            Category::LetterTitlecase => String::from_str("Lt"),
            Category::MarkNonSpacing => String::from_str("Mn"),
            Category::MarkSpacingCombining => String::from_str("Mc"),
            Category::MarkEnclosing => String::from_str("Me"),
            Category::NumberDecimalDigit => String::from_str("Nd"),
            Category::NumberLetter => String::from_str("Nl"),
            Category::NumberOther => String::from_str("No"),
            Category::SeparatorSpace => String::from_str("Zs"),
            Category::SeparatorLine => String::from_str("Zl"),
            Category::SeparatorParagraph => String::from_str("Zp"),
            Category::OtherControl => String::from_str("Cc"),
            Category::OtherFormat => String::from_str("Cf"),
            Category::OtherSurrogate => String::from_str("Cs"),
            Category::OtherPrivateUse => String::from_str("Co"),
            Category::LetterModifier => String::from_str("Lm"),
            Category::LetterOther => String::from_str("Lo"),
            Category::PunctuationConnector => String::from_str("Pc"),
            Category::PunctuationDash => String::from_str("Pd"),
            Category::PunctuationOpen => String::from_str("Ps"),
            Category::PunctuationClose => String::from_str("Pe"),
            Category::PunctuationInitialQuote => String::from_str("Pi"),
            Category::PunctuationFinalQuote => String::from_str("Pf"),
            Category::PunctuationOther => String::from_str("Po"),
            Category::SymbolMath => String::from_str("Sm"),
            Category::SymbolCurrency => String::from_str("Sc"),
            Category::SymbolModifier => String::from_str("Sk"),
            Category::SymbolOther => String::from_str("So"),
        }
    }
}

} // verus!
