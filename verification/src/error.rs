//! The engine's error type.
//!
//! Malformed input (a corrupt tag line, an annotation filter pattern that
//! does not compile, a result row of the wrong shape) is fatal to the
//! pipeline instance that saw it; the variant carries what is needed for
//! a diagnostic.

use vstd::prelude::*;
use crate::text::{dec_text_of, u64_to_text};
use vstd::string::StringExecFns;

verus! {

#[derive(Debug)]
pub enum EngineError {
    /// A non-empty tag-history line did not split into exactly three
    /// fields; the payload is the offending line.
    CorruptTagLine(String),
    /// The annotation filter pattern was rejected by the regex engine;
    /// the payload is the pattern.
    InvalidFilter(String),
    /// A result cell that had to be numeric was not; the payload is the
    /// column index.
    NonNumericColumn(usize),
    /// A result cell that had to be text was not; the payload is the
    /// column index.
    NonTextColumn(usize),
    /// Scaling a metric value left the representable decimal range.
    NumericOverflow,
}

impl EngineError {
    /// A one-line diagnostic naming the offending line, pattern or
    /// column.
    pub fn message(&self) -> (r: String)
        ensures
            self matches EngineError::CorruptTagLine(l) ==> r@ == "invalid tag data line: '"@ + l@
                + "'"@,
            self matches EngineError::InvalidFilter(p) ==> r@
                == "invalid annotation filter pattern: '"@ + p@ + "'"@,
            self matches EngineError::NonNumericColumn(c) ==> r@ == "result column "@ + dec_text_of(
                c as int,
            ) + " is not numeric"@,
            self matches EngineError::NonTextColumn(c) ==> r@ == "result column "@ + dec_text_of(
                c as int,
            ) + " is not text"@,
            self is NumericOverflow ==> r@ == "metric value does not fit the decimal range"@,
    {
        match self {
            EngineError::CorruptTagLine(line) => {
                let mut m = String::from_str("invalid tag data line: '");
                m.append(line.as_str());
                m.append("'");
                m
            },
            EngineError::InvalidFilter(pat) => {
                let mut m = String::from_str("invalid annotation filter pattern: '");
                m.append(pat.as_str());
                m.append("'");
                m
            },
            EngineError::NonNumericColumn(c) => {
                let mut m = String::from_str("result column ");
                let idx = u64_to_text(*c as u64);
                m.append(idx.as_str());
                m.append(" is not numeric");
                m
            },
            EngineError::NonTextColumn(c) => {
                let mut m = String::from_str("result column ");
                let idx = u64_to_text(*c as u64);
                m.append(idx.as_str());
                m.append(" is not text");
                m
            },
            EngineError::NumericOverflow => {
                String::from_str("metric value does not fit the decimal range")
            },
        }
    }
}

} // verus!
