use vstd::prelude::*;
use crate::bidi::{Bidi, bidi_code};
use crate::category::{Category, category_code};
use crate::decomposition::{
    Decomposition, decomposition_chars, decomposition_codes, decomposition_error, decomposition_valid,
    has_tag, tag_code,
};
use crate::numeric_value::{NumericValue, numeric_value_chars, numeric_value_of};
use crate::parse::{code_error, parse_code};
use crate::text::{
    dec_int, digits_of, eq_lit, hex4, hex_u32, parse_hex_u32, parse_int, push_digits, push_hex4, split,
    split_on, trim_end, trim_start, trim_str,
};

verus! {

/// Decimal digit value property of a character.
#[derive(Clone, Copy, Debug, PartialEq, Eq, Structural)]
pub enum DecimalValue {
    Absent,
    Value(u32),
}

/// Digit value property of a character that represents a digit, not
/// necessarily a decimal digit.
#[derive(Clone, Copy, Debug, PartialEq, Eq, Structural)]
pub enum DigitValue {
    Absent,
    Value(u32),
}

/// Mirrored property of a character in bidirectional text.
#[derive(Clone, Copy, Debug, PartialEq, Eq, Structural)]
pub enum Mirrored {
    No,
    Yes,
}

/// Simple case mapping of a character: one-to-one, without context.
#[derive(Clone, Copy, Debug, PartialEq, Eq, Structural)]
pub enum CaseMapping {
    Absent,
    Value(u32),
}

/// A row of `UnicodeData.txt`.
#[derive(Debug, PartialEq, Eq)]
pub struct UnicodeData<'a> {
    /// Codepoint value. For ranges of codepoints this is the start or the end
    /// of the range.
    pub code: u32,
    /// Character name.
    pub name: &'a str,
    /// General category of the character.
    pub category: Category,
    /// Class used by the Canonical Ordering Algorithm.
    pub combining_class: u32,
    /// Bidirectional type of the character.
    pub bidi: Bidi,
    /// Decomposition mapping of the character.
    pub decomposition: Option<Decomposition>,
    /// Decimal digit value, if the character has the decimal digit property.
    pub decimal_value: DecimalValue,
    /// Digit value, if the character represents a digit.
    pub digit_value: DigitValue,
    /// Numeric value, if the character has the numeric property.
    pub numeric_value: NumericValue,
    /// Whether the character is mirrored in bidirectional text.
    pub mirrored: Mirrored,
    /// Unicode 1.0 name, where it differs significantly from the current one.
    pub unicode_old_name: &'a str,
    /// ISO 10646 comment field.
    pub iso_10646_comment: &'a str,
    /// Uppercase mapping of the character.
    pub uppercase_mapping: CaseMapping,
    /// Lowercase mapping of the character.
    pub lowercase_mapping: CaseMapping,
    /// Titlecase mapping of the character.
    pub titlecase_mapping: CaseMapping,
}

/// A decimal field that holds a 32-bit number.
pub open spec fn dec_u32(s: Seq<char>) -> Option<int> {
    dec_int(s, 0, u32::MAX as int)
}

/// Message for a row, with the row itself.
pub open spec fn row_message(msg: Seq<char>, row: Seq<char>) -> Seq<char> {
    "parsing unicode data: "@ + msg + " -- row: `"@ + row + "`"@
}

/// Message for a field that does not read.
pub open spec fn field_message(field: Seq<char>, value: Seq<char>, row: Seq<char>) -> Seq<char> {
    row_message("invalid "@ + field + " `"@ + value + "`"@, row)
}

/// An optional field holds nothing or a value that reads.
pub open spec fn optional_ok(v: Seq<char>, reads: bool) -> bool {
    v.len() == 0 || reads
}

/// What is wrong with a row, checked field by field in order; `None` if the
/// row reads.
pub open spec fn row_error(s: Seq<char>) -> Option<Seq<char>> {
    let f = split_on(s, ';');
    if s.len() == 0 {
        Some(row_message("empty input"@, s))
    } else if f.len() != 15 {
        Some(row_message("invalid row format"@, s))
    } else if hex_u32(f[0]) is None {
        Some(row_message(code_error(f[0]), s))
    } else if trim_start(trim_end(f[1])).len() == 0 {
        Some(row_message("empty name"@, s))
    } else if forall|c: Category| category_code(c) != f[2] {
        Some(field_message("category"@, f[2], s))
    } else if dec_u32(f[3]) is None {
        Some(field_message("combining class"@, f[3], s))
    } else if forall|b: Bidi| bidi_code(b) != f[4] {
        Some(field_message("bidirectional category"@, f[4], s))
    } else if !optional_ok(f[5], decomposition_valid(f[5])) {
        Some(field_message("decomposition"@, f[5], s) + " ("@ + decomposition_error(f[5]) + ")"@)
    } else if !optional_ok(f[6], dec_u32(f[6]) is Some) {
        Some(field_message("decimal value"@, f[6], s))
    } else if !optional_ok(f[7], dec_u32(f[7]) is Some) {
        Some(field_message("digit value"@, f[7], s))
    } else if numeric_value_of(f[8]) is None {
        Some(field_message("numeric value"@, f[8], s) + " ("@ + ("not a valid numeric value: `"@ + f[8] + "`"@) + ")"@)
    } else if f[9] != "Y"@ && f[9] != "N"@ {
        Some(field_message("mirrored value"@, f[9], s))
    } else if !optional_ok(f[12], hex_u32(f[12]) is Some) {
        Some(field_message("uppercase mapping"@, f[12], s))
    } else if !optional_ok(f[13], hex_u32(f[13]) is Some) {
        Some(field_message("lowercase mapping"@, f[13], s))
    } else if !optional_ok(f[14], hex_u32(f[14]) is Some) {
        Some(field_message("titlecase mapping"@, f[14], s))
    } else {
        None
    }
}

/// Case mapping that a field writes: nothing, or a hexadecimal code.
pub open spec fn case_mapping_of(v: Seq<char>) -> CaseMapping {
    if v.len() == 0 {
        CaseMapping::Absent
    } else {
        CaseMapping::Value(hex_u32(v)->0)
    }
}

/// `d` holds what the fields of the row `s` write.
pub open spec fn row_fields(s: Seq<char>, d: UnicodeData) -> bool {
    let f = split_on(s, ';');
    &&& f.len() == 15
    &&& d.code == hex_u32(f[0])->0
    &&& d.name@ == f[1]
    &&& category_code(d.category) == f[2]
    &&& d.combining_class == dec_u32(f[3])->0
    &&& bidi_code(d.bidi) == f[4]
    &&& (d.decomposition is None <==> f[5].len() == 0)
    &&& d.decomposition is Some ==> ({
        let x = d.decomposition->0;
        &&& (x.tag is Some <==> has_tag(split_on(f[5], ' ')))
        &&& x.tag is Some ==> tag_code(x.tag->0) == split_on(f[5], ' ')[0]
        &&& x.codes@ == decomposition_codes(f[5])
    })
    &&& d.decimal_value == if f[6].len() == 0 {
        DecimalValue::Absent
    } else {
        DecimalValue::Value(dec_u32(f[6])->0 as u32)
    }
    &&& d.digit_value == if f[7].len() == 0 {
        DigitValue::Absent
    } else {
        DigitValue::Value(dec_u32(f[7])->0 as u32)
    }
    &&& numeric_value_of(f[8]) == Some(d.numeric_value)
    &&& d.mirrored == if f[9] == "Y"@ {
        Mirrored::Yes
    } else {
        Mirrored::No
    }
    &&& d.unicode_old_name@ == f[10]
    &&& d.iso_10646_comment@ == f[11]
    &&& d.uppercase_mapping == case_mapping_of(f[12])
    &&& d.lowercase_mapping == case_mapping_of(f[13])
    &&& d.titlecase_mapping == case_mapping_of(f[14])
}

fn row_error_message(msg: &str, input: &str) -> (r: String)
    ensures
        r@ == row_message(msg@, input@),
{
    let mut e = String::from_str("parsing unicode data: ");
    e.append(msg);
    e.append(" -- row: `");
    e.append(input);
    e.append("`");
    e
}

fn field_error_message(field: &str, value: &str, input: &str) -> (r: String)
    ensures
        r@ == field_message(field@, value@, input@),
{
    let mut m = String::from_str("invalid ");
    m.append(field);
    m.append(" `");
    m.append(value);
    m.append("`");
    row_error_message(m.as_str(), input)
}

/// Reads an optional hexadecimal case mapping.
fn parse_case(v: &str) -> (r: Option<CaseMapping>)
    ensures
        r is Some <==> optional_ok(v@, hex_u32(v@) is Some),
        r is Some ==> r->0 == case_mapping_of(v@),
{
    if v.unicode_len() == 0 {
        Some(CaseMapping::Absent)
    } else {
        match parse_hex_u32(v) {
            Some(x) => Some(CaseMapping::Value(x)),
            None => None,
        }
    }
}

/// How the Unicode Character Database writes a mirrored value.
pub open spec fn mirrored_chars(m: Mirrored) -> Seq<char> {
    match m {
        Mirrored::No => "N"@,
        Mirrored::Yes => "Y"@,
    }
}

/// How the Unicode Character Database writes a case mapping.
pub open spec fn case_mapping_chars(m: CaseMapping) -> Seq<char> {
    match m {
        CaseMapping::Absent => Seq::empty(),
        CaseMapping::Value(v) => hex4(v as nat),
    }
}

/// How the Unicode Character Database writes an optional number.
pub open spec fn optional_chars(v: Option<u32>) -> Seq<char> {
    match v {
        None => Seq::empty(),
        Some(n) => digits_of(n as nat, 10),
    }
}

/// The decimal value, if any.
pub open spec fn decimal_of(v: DecimalValue) -> Option<u32> {
    match v {
        DecimalValue::Absent => None,
        DecimalValue::Value(n) => Some(n),
    }
}

/// The digit value, if any.
pub open spec fn digit_of_value(v: DigitValue) -> Option<u32> {
    match v {
        DigitValue::Absent => None,
        DigitValue::Value(n) => Some(n),
    }
}

/// How `UnicodeData.txt` writes a row.
pub open spec fn unicode_data_chars(d: UnicodeData) -> Seq<char> {
    hex4(d.code as nat) + ";"@ + d.name@ + ";"@ + category_code(d.category) + ";"@ + digits_of(
        d.combining_class as nat,
        10,
    ) + ";"@ + bidi_code(d.bidi) + ";"@ + match d.decomposition {
        Some(x) => decomposition_chars(x.tag, x.codes@),
        None => Seq::empty(),
    } + ";"@ + optional_chars(decimal_of(d.decimal_value)) + ";"@ + optional_chars(
        digit_of_value(d.digit_value),
    ) + ";"@ + numeric_value_chars(d.numeric_value) + ";"@ + mirrored_chars(d.mirrored) + ";"@
        + d.unicode_old_name@ + ";"@ + d.iso_10646_comment@ + ";"@ + case_mapping_chars(
        d.uppercase_mapping,
    ) + ";"@ + case_mapping_chars(d.lowercase_mapping) + ";"@ + case_mapping_chars(d.titlecase_mapping)
}

impl Mirrored {
    /// The value as the Unicode Character Database writes it.
    pub fn to_string(&self) -> (r: String)
        ensures
            r@ == mirrored_chars(*self),
    {
        match self {
            Mirrored::No => String::from_str("N"),
            Mirrored::Yes => String::from_str("Y"),
        }
    }
}

impl CaseMapping {
    /// The mapping as the Unicode Character Database writes it.
    pub fn to_string(&self) -> (r: String)
        ensures
            r@ == case_mapping_chars(*self),
    {
        let mut out = String::new();
        match self {
            CaseMapping::Absent => {
                assert(out@ =~= case_mapping_chars(*self));
            },
            CaseMapping::Value(v) => push_hex4(&mut out, *v),
        }
        out
    }
}

fn push_optional(out: &mut String, v: Option<u32>)
    ensures
        final(out)@ == old(out)@ + optional_chars(v),
{
    match v {
        Some(n) => push_digits(out, n as u64, 10),
        None => {
            assert(out@ =~= old(out)@ + optional_chars(v));
        },
    }
}

fn append_string(out: &mut String, s: String)
    ensures
        final(out)@ == old(out)@ + s@,
{
    out.append(s.as_str());
}

impl<'a> UnicodeData<'a> {
    /// Reads a row of `UnicodeData.txt`: fifteen fields separated by `;`.
    #[verifier::rlimit(100)]
    pub fn parse(input: &'a str) -> (r: Result<Self, String>)
        ensures
            match r {
                Ok(d) => row_error(input@) is None && row_fields(input@, d),
                Err(e) => row_error(input@) == Some(e@),
            },
    {
        if input.unicode_len() == 0 {
            return Err(row_error_message("empty input", input));
        }
        let fields = split(input, ';');
        let ghost f = split_on(input@, ';');
        if fields.len() != 15 {
            return Err(row_error_message("invalid row format", input));
        }
        assert(forall|i: int| 0 <= i < 15 ==> fields@[i]@ == f[i]);
        let code = match parse_code(fields[0]) {
            Ok(v) => v,
            Err(err) => {
                return Err(row_error_message(err.as_str(), input));
            },
        };
        let name = fields[1];
        if trim_str(name).unicode_len() == 0 {
            return Err(row_error_message("empty name", input));
        }
        let category = match Category::parse(fields[2]) {
            Some(c) => c,
            None => {
                return Err(field_error_message("category", fields[2], input));
            },
        };
        let combining_class = match parse_int(fields[3], 0, u32::MAX as i64) {
            Some(v) => v as u32,
            None => {
                return Err(field_error_message("combining class", fields[3], input));
            },
        };
        let bidi = match Bidi::parse(fields[4]) {
            Some(b) => b,
            None => {
                return Err(field_error_message("bidirectional category", fields[4], input));
            },
        };
        let decomposition = if fields[5].unicode_len() > 0 {
            match Decomposition::try_parse(fields[5]) {
                Ok(d) => Some(d),
                Err(err) => {
                    let mut e = field_error_message("decomposition", fields[5], input);
                    e.append(" (");
                    e.append(err.as_str());
                    e.append(")");
                    return Err(e);
                },
            }
        } else {
            None
        };
        let decimal_value = if fields[6].unicode_len() > 0 {
            match parse_int(fields[6], 0, u32::MAX as i64) {
                Some(v) => DecimalValue::Value(v as u32),
                None => {
                    return Err(field_error_message("decimal value", fields[6], input));
                },
            }
        } else {
            DecimalValue::Absent
        };
        let digit_value = if fields[7].unicode_len() > 0 {
            match parse_int(fields[7], 0, u32::MAX as i64) {
                Some(v) => DigitValue::Value(v as u32),
                None => {
                    return Err(field_error_message("digit value", fields[7], input));
                },
            }
        } else {
            DigitValue::Absent
        };
        let numeric_value = match NumericValue::parse(fields[8]) {
            Ok(v) => v,
            Err(err) => {
                let mut e = field_error_message("numeric value", fields[8], input);
                e.append(" (");
                e.append(err.as_str());
                e.append(")");
                return Err(e);
            },
        };
        let mirrored = if eq_lit(fields[9], "Y") {
            Mirrored::Yes
        } else if eq_lit(fields[9], "N") {
            Mirrored::No
        } else {
            return Err(field_error_message("mirrored value", fields[9], input));
        };
        let uppercase_mapping = match parse_case(fields[12]) {
            Some(m) => m,
            None => {
                return Err(field_error_message("uppercase mapping", fields[12], input));
            },
        };
        let lowercase_mapping = match parse_case(fields[13]) {
            Some(m) => m,
            None => {
                return Err(field_error_message("lowercase mapping", fields[13], input));
            },
        };
        let titlecase_mapping = match parse_case(fields[14]) {
            Some(m) => m,
            None => {
                return Err(field_error_message("titlecase mapping", fields[14], input));
            },
        };
        Ok(UnicodeData {
            code,
            name,
            category,
            combining_class,
            bidi,
            decomposition,
            decimal_value,
            digit_value,
            numeric_value,
            mirrored,
            unicode_old_name: fields[10],
            iso_10646_comment: fields[11],
            uppercase_mapping,
            lowercase_mapping,
            titlecase_mapping,
        })
    }

    /// The row as `UnicodeData.txt` writes it.
    pub fn to_string(&self) -> (r: String)
        ensures
            r@ == unicode_data_chars(*self),
    {
        let mut out = String::new();
        push_hex4(&mut out, self.code);
        out.append(";");
        out.append(self.name);
        out.append(";");
        append_string(&mut out, self.category.to_string());
        out.append(";");
        push_digits(&mut out, self.combining_class as u64, 10);
        out.append(";");
        append_string(&mut out, self.bidi.to_string());
        out.append(";");
        match &self.decomposition {
            Some(x) => append_string(&mut out, x.to_string()),
            None => {},
        }
        let ghost mid = out@;
        out.append(";");
        let decimal = match self.decimal_value {
            DecimalValue::Value(n) => Some(n),
            DecimalValue::Absent => None,
        };
        push_optional(&mut out, decimal);
        out.append(";");
        let digit = match self.digit_value {
            DigitValue::Value(n) => Some(n),
            DigitValue::Absent => None,
        };
        push_optional(&mut out, digit);
        out.append(";");
        append_string(&mut out, self.numeric_value.to_string());
        out.append(";");
        append_string(&mut out, self.mirrored.to_string());
        out.append(";");
        out.append(self.unicode_old_name);
        out.append(";");
        out.append(self.iso_10646_comment);
        out.append(";");
        append_string(&mut out, self.uppercase_mapping.to_string());
        out.append(";");
        append_string(&mut out, self.lowercase_mapping.to_string());
        out.append(";");
        append_string(&mut out, self.titlecase_mapping.to_string());
        proof {
            let d = *self;
            let dec = match d.decomposition {
                Some(x) => decomposition_chars(x.tag, x.codes@),
                None => Seq::empty(),
            };
            assert(mid =~= hex4(d.code as nat) + ";"@ + d.name@ + ";"@ + category_code(d.category) + ";"@
                + digits_of(d.combining_class as nat, 10) + ";"@ + bidi_code(d.bidi) + ";"@ + dec);
        }
        assert(out@ =~= unicode_data_chars(*self));
        out
    }
}

} // verus!
