//! Render options and the parse error of edit text.

use vstd::prelude::*;

verus! {

/// Formatting knobs handed from a column definition down to a value's render step.
#[derive(Clone, Copy, Debug, PartialEq, Eq)]
pub struct RenderOptions {
    /// Digits after the decimal point for numeric values; `None` keeps the
    /// value's own default text.
    pub precision: Option<usize>,
}

impl RenderOptions {
    /// The options with every knob unset.
    pub open spec fn plain() -> RenderOptions {
        RenderOptions { precision: None }
    }

    /// Options without a precision: each value uses its default text.
    pub fn new() -> (r: RenderOptions)
        ensures
            r == RenderOptions::plain(),
    {
        RenderOptions { precision: None }
    }

    /// Options that format numbers with exactly `precision` fraction digits.
    pub fn with_precision(precision: usize) -> (r: RenderOptions)
        ensures
            r.precision == Some(precision),
    {
        RenderOptions { precision: Some(precision) }
    }
}

/// Edit text that could not be turned into a value; carries the text.
#[derive(Debug, PartialEq, Eq)]
pub struct ParseError {
    pub text: String,
}

} // verus!
