use vstd::prelude::*;

verus! {

/// Failure outcomes of an analysis request.
///
/// `Cancelled` is a first-class outcome rather than a bug condition: callers
/// are expected to discard superseded results silently instead of reporting
/// an error.
#[derive(Debug, Clone, PartialEq)]
pub enum AnalysisError {
    /// The requested image does not exist on disk.
    FileNotFound,
    /// The image exists but could not be decoded; carries the decoder's reason.
    DecodeFailed(String),
    /// The histogram mode string is neither `"rgb"` nor `"luminance"`.
    InvalidMode(String),
    /// A newer request for the same base key superseded this computation.
    Cancelled,
}

/// The human-readable message for each failure outcome.
pub open spec fn spec_message(e: AnalysisError) -> Seq<char> {
    match e {
        AnalysisError::FileNotFound => "File not found"@,
        AnalysisError::DecodeFailed(reason) => "Failed to load image: "@ + reason@,
        AnalysisError::InvalidMode(mode) => "Invalid display_type: "@ + mode@,
        AnalysisError::Cancelled => "Cancelled"@,
    }
}

impl AnalysisError {
    /// Renders the failure as the message a caller would display or log.
    pub fn message(&self) -> (r: String)
        ensures
            r@ == spec_message(*self),
    {
        match self {
            AnalysisError::FileNotFound => "File not found".to_owned(),
            AnalysisError::DecodeFailed(reason) => {
                let mut s = "Failed to load image: ".to_owned();
                s.append(reason.as_str());
                s
            },
            AnalysisError::InvalidMode(mode) => {
                let mut s = "Invalid display_type: ".to_owned();
                s.append(mode.as_str());
                s
            },
            AnalysisError::Cancelled => "Cancelled".to_owned(),
        }
    }
}

} // verus!
