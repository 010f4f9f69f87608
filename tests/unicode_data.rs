use property_ranges::bidi::Bidi;
use property_ranges::category::Category;
use property_ranges::decomposition::{Decomposition, DecompositionTag};
use property_ranges::numeric_value::NumericValue;
use property_ranges::unicode_data::{CaseMapping, DecimalValue, DigitValue, Mirrored, UnicodeData};

#[test]
fn can_create_new() {
    let decomposition = Decomposition { tag: Some(DecompositionTag::Font), codes: vec![10, 20, 30] };
    let entry = UnicodeData {
        code: 0x12AB,
        name: "char name",
        category: Category::LetterLowercase,
        combining_class: 230,
        bidi: Bidi::L,
        decomposition: Some(decomposition.clone()),
        decimal_value: DecimalValue::Value(1),
        digit_value: DigitValue::Value(1),
        numeric_value: NumericValue::Rational(1, 5),
        mirrored: Mirrored::Yes,
        unicode_old_name: "unicode 1.0 name",
        iso_10646_comment: "ISO 10646 comment",
        uppercase_mapping: CaseMapping::Value(1),
        lowercase_mapping: CaseMapping::Value(2),
        titlecase_mapping: CaseMapping::Absent,
    };
    assert_eq!(entry.code, 0x12AB);
    assert_eq!(entry.name, "char name");
    assert_eq!(entry.category, Category::LetterLowercase);
    assert_eq!(entry.combining_class, 230);
    assert_eq!(entry.bidi, Bidi::L);
    assert_eq!(entry.decomposition, Some(decomposition));
    assert_eq!(entry.decimal_value, DecimalValue::Value(1));
    assert_eq!(entry.digit_value, DigitValue::Value(1));
    assert_eq!(entry.numeric_value, NumericValue::Rational(1, 5));
    assert_eq!(entry.mirrored, Mirrored::Yes);
    assert_eq!(entry.unicode_old_name, "unicode 1.0 name");
    assert_eq!(entry.iso_10646_comment, "ISO 10646 comment");
    assert_eq!(entry.uppercase_mapping, CaseMapping::Value(1));
    assert_eq!(entry.lowercase_mapping, CaseMapping::Value(2));
    assert_eq!(entry.titlecase_mapping, CaseMapping::Absent);
}

#[test]
fn unicode_data_supports_to_string() {
    let entry = UnicodeData {
        code: 0x12AB,
        name: "some name",
        category: Category::LetterUppercase,
        combining_class: 230,
        bidi: Bidi::L,
        decomposition: Some(Decomposition { tag: Some(DecompositionTag::Font), codes: vec![0x10, 0x20, 0x30] }),
        decimal_value: DecimalValue::Value(1),
        digit_value: DigitValue::Value(2),
        numeric_value: NumericValue::Rational(1, 5),
        mirrored: Mirrored::Yes,
        unicode_old_name: "old name",
        iso_10646_comment: "iso name",
        uppercase_mapping: CaseMapping::Value(0xA1),
        lowercase_mapping: CaseMapping::Value(0xB2),
        titlecase_mapping: CaseMapping::Value(0xC3),
    };
    assert_eq!(
        entry.to_string(),
        "12AB;some name;Lu;230;L;<font> 0010 0020 0030;1;2;1/5;Y;old name;iso name;00A1;00B2;00C3"
    );

    let entry = UnicodeData {
        code: 0xFF,
        name: "other name",
        category: Category::MarkEnclosing,
        combining_class: 0,
        bidi: Bidi::LRE,
        decomposition: None,
        decimal_value: DecimalValue::Absent,
        digit_value: DigitValue::Absent,
        numeric_value: NumericValue::Absent,
        mirrored: Mirrored::No,
        unicode_old_name: "old",
        iso_10646_comment: "",
        uppercase_mapping: CaseMapping::Absent,
        lowercase_mapping: CaseMapping::Absent,
        titlecase_mapping: CaseMapping::Absent,
    };
    assert_eq!(entry.to_string(), "00FF;other name;Me;0;LRE;;;;;N;old;;;;");
}

#[test]
fn unicode_data_parses_from_string() {
    let data = UnicodeData::parse("0;name;Ll;0;L;;;;;N;;;;;").unwrap();
    assert_eq!(
        data,
        UnicodeData {
            code: 0,
            name: "name",
            category: Category::LetterLowercase,
            combining_class: 0,
            bidi: Bidi::L,
            decomposition: None,
            decimal_value: DecimalValue::Absent,
            digit_value: DigitValue::Absent,
            numeric_value: NumericValue::Absent,
            mirrored: Mirrored::No,
            unicode_old_name: "",
            iso_10646_comment: "",
            uppercase_mapping: CaseMapping::Absent,
            lowercase_mapping: CaseMapping::Absent,
            titlecase_mapping: CaseMapping::Absent,
        }
    );

    let data = UnicodeData::parse("12AB;char name;Nd;220;NSM;1234;10;20;30;Y;old;iso;AA;BB;CC").unwrap();
    assert_eq!(
        data,
        UnicodeData {
            code: 0x12AB,
            name: "char name",
            category: Category::NumberDecimalDigit,
            combining_class: 220,
            bidi: Bidi::NSM,
            decomposition: Some(Decomposition { tag: None, codes: vec![0x1234] }),
            decimal_value: DecimalValue::Value(10),
            digit_value: DigitValue::Value(20),
            numeric_value: NumericValue::Integer(30),
            mirrored: Mirrored::Yes,
            unicode_old_name: "old",
            iso_10646_comment: "iso",
            uppercase_mapping: CaseMapping::Value(0xAA),
            lowercase_mapping: CaseMapping::Value(0xBB),
            titlecase_mapping: CaseMapping::Value(0xCC),
        }
    );
}

#[test]
fn parsed_rows_write_back_the_same() {
    for row in [
        "0041;LATIN CAPITAL LETTER A;Lu;0;L;;;;;N;;;;0061;",
        "00BD;VULGAR FRACTION ONE HALF;No;0;ON;<fraction> 0031 2044 0032;;;1/2;N;FRACTION ONE HALF;;;;",
        "0661;ARABIC-INDIC DIGIT ONE;Nd;0;AN;;1;1;1;N;;;;;",
        "FB01;LATIN SMALL LIGATURE FI;Ll;0;L;<compat> 0066 0069;;;;N;;;;;",
    ] {
        let parsed = UnicodeData::parse(row).unwrap();
        assert_eq!(parsed.to_string(), row);
    }
}

fn check_parsing(input: &str, error: &str) {
    let err = UnicodeData::parse(input).expect_err(input);
    assert!(err.contains(error), "expected error `{}`, but it was `{}` -- in `{}`", error, err, input);
    assert!(err.contains(input), "expected error to contain input, but it was `{}` -- in `{}`", err, input);
    assert!(err.contains("parsing unicode data"), "expected error to `parsing unicode data`, but it was `{}`", err);
}

#[test]
fn parse_panics_on_invalid_input() {
    check_parsing("", "empty input");
    check_parsing("0;name;Ll;0;L;;0;0;0;N;;;0;0", "invalid row format");
    check_parsing("0;name;Ll;0;L;;0;0;0;N;;;0;0;0;", "invalid row format");
    check_parsing("x1;name;Ll;0;L;;0;0;0;N;;;0;0;0", "`x1` is not a valid code");
    check_parsing("0;;Ll;0;L;;0;0;0;N;;;0;0;0", "empty name");
    check_parsing("0;name;x2;0;L;;0;0;0;N;;;0;0;0", "invalid category `x2`");
    check_parsing("0;name;Ll;x3;L;;0;0;0;N;;;0;0;0", "invalid combining class `x3`");
    check_parsing("0;name;Ll;0;x4;;0;0;0;N;;;0;0;0", "invalid bidirectional category `x4`");
    check_parsing("0;name;Ll;0;L;x5;0;0;0;N;;;0;0;0", "invalid decomposition `x5`");
    check_parsing("0;name;Ll;0;L;;x6;0;0;N;;;0;0;0", "invalid decimal value `x6`");
    check_parsing("0;name;Ll;0;L;;0;x7;0;N;;;0;0;0", "invalid digit value `x7`");
    check_parsing("0;name;Ll;0;L;;0;0;x8;N;;;0;0;0", "invalid numeric value `x8`");
    check_parsing("0;name;Ll;0;L;;0;0;0;X;;;0;0;0", "invalid mirrored value `X`");
    check_parsing("0;name;Ll;0;L;;0;0;0;N;;;x9;0;0", "invalid uppercase mapping `x9`");
    check_parsing("0;name;Ll;0;L;;0;0;0;N;;;0;xA;0", "invalid lowercase mapping `xA`");
    check_parsing("0;name;Ll;0;L;;0;0;0;N;;;0;0;xB", "invalid titlecase mapping `xB`");
}

#[test]
fn whole_error_message() {
    let err = UnicodeData::parse("0;name;Ll;0;L;;0;0;x8;N;;;0;0;0").unwrap_err();
    assert_eq!(
        err,
        "parsing unicode data: invalid numeric value `x8` -- row: `0;name;Ll;0;L;;0;0;x8;N;;;0;0;0` \
         (not a valid numeric value: `x8`)"
    );
}
