//! Range maps over Unicode codepoints, with per-range property bags, and
//! parsers for fields of the Unicode Character Database.

pub mod ranges;
pub mod table;
pub mod text;
pub mod parse;
pub mod category;
pub mod bidi;
pub mod decomposition;
pub mod numeric_value;
pub mod blocks;
pub mod unicode_data;
pub mod input;
pub mod version;
