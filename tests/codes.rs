use property_ranges::bidi::Bidi;
use property_ranges::category::Category;
use property_ranges::decomposition::{Decomposition, DecompositionTag};

#[test]
fn category_from_string() {
    fn parse(input: &'static str) -> Category {
        Category::parse(input).unwrap()
    }

    assert_eq!(parse("Cn"), Category::OtherNotAssigned);
    assert_eq!(parse("Lu"), Category::LetterUppercase);
    assert_eq!(parse("Ll"), Category::LetterLowercase);
    assert_eq!(parse("Lt"), Category::LetterTitlecase);
    assert_eq!(parse("Mn"), Category::MarkNonSpacing);
    assert_eq!(parse("Mc"), Category::MarkSpacingCombining);
    assert_eq!(parse("Me"), Category::MarkEnclosing);
    assert_eq!(parse("Nd"), Category::NumberDecimalDigit);
    assert_eq!(parse("Nl"), Category::NumberLetter);
    assert_eq!(parse("No"), Category::NumberOther);
    assert_eq!(parse("Zs"), Category::SeparatorSpace);
    assert_eq!(parse("Zl"), Category::SeparatorLine);
    assert_eq!(parse("Zp"), Category::SeparatorParagraph);
    assert_eq!(parse("Cc"), Category::OtherControl);
    assert_eq!(parse("Cf"), Category::OtherFormat);
    assert_eq!(parse("Cs"), Category::OtherSurrogate);
    assert_eq!(parse("Co"), Category::OtherPrivateUse);
    assert_eq!(parse("Lm"), Category::LetterModifier);
    assert_eq!(parse("Lo"), Category::LetterOther);
    assert_eq!(parse("Pc"), Category::PunctuationConnector);
    assert_eq!(parse("Pd"), Category::PunctuationDash);
    assert_eq!(parse("Ps"), Category::PunctuationOpen);
    assert_eq!(parse("Pe"), Category::PunctuationClose);
    assert_eq!(parse("Pi"), Category::PunctuationInitialQuote);
    assert_eq!(parse("Pf"), Category::PunctuationFinalQuote);
    assert_eq!(parse("Po"), Category::PunctuationOther);
    assert_eq!(parse("Sm"), Category::SymbolMath);
    assert_eq!(parse("Sc"), Category::SymbolCurrency);
    assert_eq!(parse("Sk"), Category::SymbolModifier);
    assert_eq!(parse("So"), Category::SymbolOther);
}

#[test]
fn category_parses_from_string() {
    fn parse(input: &'static str) -> Category {
        Category::parse(input).unwrap()
    }

    assert_eq!(parse("Cn"), Category::OtherNotAssigned);
    assert_eq!(parse("Lu"), Category::LetterUppercase);
    assert_eq!(parse("Ll"), Category::LetterLowercase);
    assert_eq!(parse("Lt"), Category::LetterTitlecase);
    assert_eq!(parse("Mn"), Category::MarkNonSpacing);
    assert_eq!(parse("Mc"), Category::MarkSpacingCombining);
    assert_eq!(parse("Me"), Category::MarkEnclosing);
    assert_eq!(parse("Nd"), Category::NumberDecimalDigit);
    assert_eq!(parse("Nl"), Category::NumberLetter);
    assert_eq!(parse("No"), Category::NumberOther);
    assert_eq!(parse("Zs"), Category::SeparatorSpace);
    assert_eq!(parse("Zl"), Category::SeparatorLine);
    assert_eq!(parse("Zp"), Category::SeparatorParagraph);
    assert_eq!(parse("Cc"), Category::OtherControl);
    assert_eq!(parse("Cf"), Category::OtherFormat);
    assert_eq!(parse("Cs"), Category::OtherSurrogate);
    assert_eq!(parse("Co"), Category::OtherPrivateUse);
    assert_eq!(parse("Lm"), Category::LetterModifier);
    assert_eq!(parse("Lo"), Category::LetterOther);
    assert_eq!(parse("Pc"), Category::PunctuationConnector);
    assert_eq!(parse("Pd"), Category::PunctuationDash);
    assert_eq!(parse("Ps"), Category::PunctuationOpen);
    assert_eq!(parse("Pe"), Category::PunctuationClose);
    assert_eq!(parse("Pi"), Category::PunctuationInitialQuote);
    assert_eq!(parse("Pf"), Category::PunctuationFinalQuote);
    assert_eq!(parse("Po"), Category::PunctuationOther);
    assert_eq!(parse("Sm"), Category::SymbolMath);
    assert_eq!(parse("Sc"), Category::SymbolCurrency);
    assert_eq!(parse("Sk"), Category::SymbolModifier);
    assert_eq!(parse("So"), Category::SymbolOther);
}

#[test]
fn category_parse_from_invalid_string_is_none() {
    assert_eq!(Category::parse("xx"), None);
}

#[test]
fn category_supports_to_string() {
    fn check(input: Category, expected: &'static str) {
        assert_eq!(input.to_string(), expected);
        assert_eq!(Category::parse(&input.to_string()).expect(expected), input);
    }

    check(Category::OtherNotAssigned, "Cn");
    check(Category::LetterUppercase, "Lu");
    check(Category::LetterLowercase, "Ll");
    check(Category::LetterTitlecase, "Lt");
    check(Category::MarkNonSpacing, "Mn");
    check(Category::MarkSpacingCombining, "Mc");
    check(Category::MarkEnclosing, "Me");
    check(Category::NumberDecimalDigit, "Nd");
    check(Category::NumberLetter, "Nl");
    check(Category::NumberOther, "No");
    check(Category::SeparatorSpace, "Zs");
    check(Category::SeparatorLine, "Zl");
    check(Category::SeparatorParagraph, "Zp");
    check(Category::OtherControl, "Cc");
    check(Category::OtherFormat, "Cf");
    check(Category::OtherSurrogate, "Cs");
    check(Category::OtherPrivateUse, "Co");
    check(Category::LetterModifier, "Lm");
    check(Category::LetterOther, "Lo");
    check(Category::PunctuationConnector, "Pc");
    check(Category::PunctuationDash, "Pd");
    check(Category::PunctuationOpen, "Ps");
    check(Category::PunctuationClose, "Pe");
    check(Category::PunctuationInitialQuote, "Pi");
    check(Category::PunctuationFinalQuote, "Pf");
    check(Category::PunctuationOther, "Po");
    check(Category::SymbolMath, "Sm");
    check(Category::SymbolCurrency, "Sc");
    check(Category::SymbolModifier, "Sk");
    check(Category::SymbolOther, "So");
}

#[test]
fn bidi_parses_from_string() {
    fn parse(input: &'static str) -> Bidi {
        Bidi::parse(input).unwrap()
    }

    assert_eq!(parse("L"), Bidi::L);
    assert_eq!(parse("R"), Bidi::R);
    assert_eq!(parse("AL"), Bidi::AL);
    assert_eq!(parse("EN"), Bidi::EN);
    assert_eq!(parse("ES"), Bidi::ES);
    assert_eq!(parse("ET"), Bidi::ET);
    assert_eq!(parse("AN"), Bidi::AN);
    assert_eq!(parse("CS"), Bidi::CS);
    assert_eq!(parse("NSM"), Bidi::NSM);
    assert_eq!(parse("BN"), Bidi::BN);
    assert_eq!(parse("B"), Bidi::B);
    assert_eq!(parse("S"), Bidi::S);
    assert_eq!(parse("WS"), Bidi::WS);
    assert_eq!(parse("ON"), Bidi::ON);
    assert_eq!(parse("LRE"), Bidi::LRE);
    assert_eq!(parse("LRO"), Bidi::LRO);
    assert_eq!(parse("RLE"), Bidi::RLE);
    assert_eq!(parse("RLO"), Bidi::RLO);
    assert_eq!(parse("PDF"), Bidi::PDF);
    assert_eq!(parse("LRI"), Bidi::LRI);
    assert_eq!(parse("RLI"), Bidi::RLI);
    assert_eq!(parse("FSI"), Bidi::FSI);
    assert_eq!(parse("PDI"), Bidi::PDI);
}

#[test]
fn bidi_parse_from_invalid_string_is_none() {
    assert_eq!(Bidi::parse("xx"), None);
}

#[test]
fn bidi_supports_to_string() {
    fn check(input: Bidi, expected: &'static str) {
        assert_eq!(input.to_string(), expected);
        assert_eq!(Bidi::parse(&input.to_string()).expect(expected), input);
    }

    check(Bidi::L, "L");
    check(Bidi::R, "R");
    check(Bidi::AL, "AL");
    check(Bidi::EN, "EN");
    check(Bidi::ES, "ES");
    check(Bidi::ET, "ET");
    check(Bidi::AN, "AN");
    check(Bidi::CS, "CS");
    check(Bidi::NSM, "NSM");
    check(Bidi::BN, "BN");
    check(Bidi::B, "B");
    check(Bidi::S, "S");
    check(Bidi::WS, "WS");
    check(Bidi::ON, "ON");
    check(Bidi::LRE, "LRE");
    check(Bidi::LRO, "LRO");
    check(Bidi::RLE, "RLE");
    check(Bidi::RLO, "RLO");
    check(Bidi::PDF, "PDF");
    check(Bidi::LRI, "LRI");
    check(Bidi::RLI, "RLI");
    check(Bidi::FSI, "FSI");
    check(Bidi::PDI, "PDI");
}

#[test]
fn parses_tag_from_string() {
    fn parse(input: &'static str) -> DecompositionTag {
        DecompositionTag::parse(input).unwrap()
    }

    assert_eq!(parse("<font>"), DecompositionTag::Font);
    assert_eq!(parse("<noBreak>"), DecompositionTag::NoBreak);
    assert_eq!(parse("<initial>"), DecompositionTag::Initial);
    assert_eq!(parse("<medial>"), DecompositionTag::Medial);
    assert_eq!(parse("<final>"), DecompositionTag::Final);
    assert_eq!(parse("<isolated>"), DecompositionTag::Isolated);
    assert_eq!(parse("<circle>"), DecompositionTag::Circle);
    assert_eq!(parse("<super>"), DecompositionTag::Super);
    assert_eq!(parse("<sub>"), DecompositionTag::Sub);
    assert_eq!(parse("<vertical>"), DecompositionTag::Vertical);
    assert_eq!(parse("<wide>"), DecompositionTag::Wide);
    assert_eq!(parse("<narrow>"), DecompositionTag::Narrow);
    assert_eq!(parse("<small>"), DecompositionTag::Small);
    assert_eq!(parse("<square>"), DecompositionTag::Square);
    assert_eq!(parse("<fraction>"), DecompositionTag::Fraction);
    assert_eq!(parse("<compat>"), DecompositionTag::Compat);
}

#[test]
fn parse_tag_from_invalid_string_is_none() {
    assert_eq!(DecompositionTag::parse("xx"), None);
}

#[test]
fn decomposition_parses_empty_string_as_none() {
    assert_eq!(Decomposition::parse("", "some row"), None);
}

#[test]
fn parses_without_a_tag() {
    let input = "309D 3099";
    assert_eq!(
        Decomposition::parse(input, "some row").unwrap(),
        Decomposition { tag: None, codes: vec![0x309D, 0x3099] }
    );
}

#[test]
fn parses_with_a_tag() {
    let input = "<vertical> 3088 308A";
    assert_eq!(
        Decomposition::parse(input, "some row").unwrap(),
        Decomposition { tag: Some(DecompositionTag::Vertical), codes: vec![0x3088, 0x308A] }
    );

    let input = "<compat> 1100";
    assert_eq!(
        Decomposition::parse(input, "some row").unwrap(),
        Decomposition { tag: Some(DecompositionTag::Compat), codes: vec![0x1100] }
    );
}

#[test]
fn invalid_decomposition_is_an_error() {
    let err = Decomposition::try_parse("<xx> FFFF").unwrap_err();
    assert_eq!(err, "decomposition tag `<xx>` is not valid");
    let err = Decomposition::try_parse("FFFF XX FFFF").unwrap_err();
    assert_eq!(err, "decomposition code `XX` is not valid");
}

#[test]
fn decomposition_supports_to_string() {
    fn check(input: Decomposition, expected: &'static str) {
        assert_eq!(input.to_string(), expected);
        assert_eq!(Decomposition::parse(&input.to_string(), "some input").unwrap(), input);
    }

    check(Decomposition { tag: None, codes: vec![0xABCD] }, "ABCD");
    check(Decomposition { tag: None, codes: vec![0xABCD, 0x1234] }, "ABCD 1234");
    check(Decomposition { tag: Some(DecompositionTag::Initial), codes: vec![0xABCD, 0x1234] }, "<initial> ABCD 1234");

    fn check_tag(input: DecompositionTag, expected: &'static str) {
        assert_eq!(input.to_string(), expected);
        assert_eq!(DecompositionTag::parse(&input.to_string()).expect(expected), input);
    }

    check_tag(DecompositionTag::Font, "<font>");
    check_tag(DecompositionTag::NoBreak, "<noBreak>");
    check_tag(DecompositionTag::Initial, "<initial>");
    check_tag(DecompositionTag::Medial, "<medial>");
    check_tag(DecompositionTag::Final, "<final>");
    check_tag(DecompositionTag::Isolated, "<isolated>");
    check_tag(DecompositionTag::Circle, "<circle>");
    check_tag(DecompositionTag::Super, "<super>");
    check_tag(DecompositionTag::Sub, "<sub>");
    check_tag(DecompositionTag::Vertical, "<vertical>");
    check_tag(DecompositionTag::Wide, "<wide>");
    check_tag(DecompositionTag::Narrow, "<narrow>");
    check_tag(DecompositionTag::Small, "<small>");
    check_tag(DecompositionTag::Square, "<square>");
    check_tag(DecompositionTag::Fraction, "<fraction>");
    check_tag(DecompositionTag::Compat, "<compat>");
}
