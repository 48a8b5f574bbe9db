//! A student report card library: a record of name, total marks and
//! subject count, the average and letter grade derived from it, the
//! validation of numeric input text, and the exact text of the console
//! summary and of the rendered report page.
//!
//! Marks are held in hundredths of a mark, so every two-decimal value is
//! represented exactly and the metrics carry precise contracts.

pub mod clock;
pub mod numfmt;
pub mod parse;
pub mod report;
pub mod student;

use vstd::prelude::*;

verus! {

/// Upper bound, in hundredths of a mark, on the total marks a record may
/// hold: the fixed-point representation covers magnitudes below 10^12.
pub const MARKS_BOUND: i64 = 999_999_999_999;

} // verus!
