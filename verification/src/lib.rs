//! Byte-range selection: parsing of range expressions such as `16-0xff`
//! or `1_000+20`, byte counts with unit suffixes, and the decisions taken
//! while an input is positioned at the start of the selected window.

pub mod digits;
pub mod grammar;
pub mod position;
pub mod range;
pub mod rangeparse;
pub mod text;
