use vstd::prelude::*;

verus! {

/// Why a numeric text failed to parse as an exact decimal.
#[derive(Copy, Clone, Debug, PartialEq, Eq)]
pub enum NumError {
    /// The numeric text was empty.
    Empty,
    /// The text held a misplaced sign or point, or a non-digit character.
    Invalid,
    /// The value needs more mantissa digits or fraction digits than an
    /// exact decimal can carry.
    OutOfRange,
}

/// Everything that can go wrong while parsing performance data. All errors
/// are returned to the caller; malformed input never panics.
#[derive(Debug, PartialEq, Eq)]
pub enum PerfdataParseError {
    /// The token has no `=` separating the label from the data.
    MissingEqualsSign,
    /// The value segment after `=` is absent or empty.
    MissingValue,
    /// The label is empty after trimming and unquoting.
    MissingLabel,
    /// A numeric text (value, threshold endpoint, minimum or maximum) is
    /// not a number.
    ParseValueError(NumError),
    /// A threshold range string is empty.
    ThresholdEmpty,
    /// The unit suffix is not in the closed set of known units.
    UnknownUnit(String),
    /// A single-quote character remains in the label after unquoting.
    LabelContainsSingleQuote,
}

/// The mathematical shadow of [`PerfdataParseError`]: the unknown unit text
/// as a character sequence.
pub enum ParseErr {
    /// See [`PerfdataParseError::MissingEqualsSign`].
    MissingEqualsSign,
    /// See [`PerfdataParseError::MissingValue`].
    MissingValue,
    /// See [`PerfdataParseError::MissingLabel`].
    MissingLabel,
    /// See [`PerfdataParseError::ParseValueError`].
    ParseValueError(NumError),
    /// See [`PerfdataParseError::ThresholdEmpty`].
    ThresholdEmpty,
    /// See [`PerfdataParseError::UnknownUnit`].
    UnknownUnit(Seq<char>),
    /// See [`PerfdataParseError::LabelContainsSingleQuote`].
    LabelContainsSingleQuote,
}

impl View for PerfdataParseError {
    type V = ParseErr;

    open spec fn view(&self) -> ParseErr {
        match self {
            PerfdataParseError::MissingEqualsSign => ParseErr::MissingEqualsSign,
            PerfdataParseError::MissingValue => ParseErr::MissingValue,
            PerfdataParseError::MissingLabel => ParseErr::MissingLabel,
            PerfdataParseError::ParseValueError(e) => ParseErr::ParseValueError(*e),
            PerfdataParseError::ThresholdEmpty => ParseErr::ThresholdEmpty,
            PerfdataParseError::UnknownUnit(u) => ParseErr::UnknownUnit(u@),
            PerfdataParseError::LabelContainsSingleQuote => ParseErr::LabelContainsSingleQuote,
        }
    }
}

} // verus!
