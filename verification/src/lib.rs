//! A small source-to-source compiler for named numeric ranges.
//!
//! The input is a textual declaration of named ranges, for example
//! `Color { Blue: 450..495, Green: 495..570, Yellow: 570..590 }`.
//! The library parses such a declaration into a structured model and
//! generates source text for an enumeration with one variant per range
//! and a fallible conversion function that maps an unsigned integer to
//! the variant of the first range containing it.

use vstd::prelude::*;

pub mod lexer;
pub mod parse;
pub mod gen;
pub mod describe;
pub mod words;
pub mod laws;

pub use crate::describe::BuildRejection;
pub use crate::describe::derive_describe_struct;
pub use crate::describe::struct_name_of;
pub use crate::gen::Clause;
pub use crate::gen::Cond;
pub use crate::gen::enum_ranges;
pub use crate::gen::eval_chain;
pub use crate::parse::NamedRange;
pub use crate::parse::NamedRangeList;
pub use crate::parse::RangedEnum;
pub use crate::parse::SyntaxError;
pub use crate::words::file_words;

verus! {

} // verus!
