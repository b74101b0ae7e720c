//! What can go wrong with a run history.

use vstd::prelude::*;
use vstd::string::*;

verus! {

/// The text in front of a stored timestamp that cannot be read.
pub const INVALID_TIMESTAMP_PREFIX: &'static str = "Invalid RFC3339 timestamp in heartbeat DB: ";

/// Tells of a row whose duration column holds nothing.
pub const MISSING_DURATION: &'static str =
    "Invalid column type Null at index: 7, name: duration_ms";

/// Why an operation on the history failed.
#[derive(Debug, Clone, PartialEq, Eq)]
pub enum StoreError {
    /// A listing asked for more rows than a row count can say.
    LimitOverflow,
    /// The largest row id has been given out.
    IdsExhausted,
    /// A row holds a timestamp that is not in RFC 3339 form.
    InvalidTimestamp { raw: String },
    /// A row holds no duration.
    MissingDuration,
}

/// The mathematical reading of a `StoreError`.
pub enum ErrorView {
    LimitOverflow,
    IdsExhausted,
    InvalidTimestamp { raw: Seq<char> },
    MissingDuration,
}

impl View for StoreError {
    type V = ErrorView;

    open spec fn view(&self) -> ErrorView {
        match *self {
            StoreError::LimitOverflow => ErrorView::LimitOverflow,
            StoreError::IdsExhausted => ErrorView::IdsExhausted,
            StoreError::InvalidTimestamp { raw } => ErrorView::InvalidTimestamp { raw: raw@ },
            StoreError::MissingDuration => ErrorView::MissingDuration,
        }
    }
}

impl ErrorView {
    /// The sentence that tells a user about the error.
    pub open spec fn message(self) -> Seq<char> {
        match self {
            ErrorView::LimitOverflow => "Run history limit overflow"@,
            ErrorView::IdsExhausted => "Failed to insert heartbeat run"@,
            ErrorView::InvalidTimestamp { raw } => INVALID_TIMESTAMP_PREFIX@ + raw,
            ErrorView::MissingDuration => MISSING_DURATION@,
        }
    }
}

impl StoreError {
    /// The sentence that tells a user about the error.
    pub fn message(&self) -> (sentence: String)
        ensures
            sentence@ == self@.message(),
            *self is LimitOverflow ==> sentence@ == "Run history limit overflow"@,
            *self is IdsExhausted ==> sentence@ == "Failed to insert heartbeat run"@,
            *self matches StoreError::InvalidTimestamp { raw } ==> sentence@
                == "Invalid RFC3339 timestamp in heartbeat DB: "@ + raw@,
            *self is MissingDuration ==> sentence@
                == "Invalid column type Null at index: 7, name: duration_ms"@,
    {
        match self {
            StoreError::LimitOverflow => "Run history limit overflow".to_owned(),
            StoreError::IdsExhausted => "Failed to insert heartbeat run".to_owned(),
            StoreError::InvalidTimestamp { raw } => {
                let mut sentence = INVALID_TIMESTAMP_PREFIX.to_owned();
                sentence.append(raw.as_str());
                sentence
            },
            StoreError::MissingDuration => MISSING_DURATION.to_owned(),
        }
    }
}

/// The reading of an error tells every error from every other: it keeps the
/// kind of the error, and the text that could not be read.
pub proof fn law_error_reading_is_faithful(error: StoreError)
    ensures
        error is LimitOverflow <==> error@ is LimitOverflow,
        error is IdsExhausted <==> error@ is IdsExhausted,
        error is MissingDuration <==> error@ is MissingDuration,
        error is InvalidTimestamp <==> error@ is InvalidTimestamp,
        error matches StoreError::InvalidTimestamp { raw } ==> error@ == (
        ErrorView::InvalidTimestamp { raw: raw@ }),
{
}

} // verus!
