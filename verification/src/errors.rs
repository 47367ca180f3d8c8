//! The pipeline's fatal errors: a run that hits one never produces audio.

use vstd::prelude::*;

verus! {

/// A fatal pipeline error. Per-chunk synthesis or playback failures are not
/// errors of this type: they are logged and skipped, leaving a permanent gap
/// at that chunk's sequence index.
#[derive(Debug)]
pub enum AudioraError {
    /// Reading the input document failed; carries the I/O error's text.
    IoError(String),
    /// Extracting text from the document's bytes failed; carries the
    /// prefixed extraction-failure message.
    PdfError(String),
    /// The configured chunk size was zero.
    InvalidChunkSize,
}

impl AudioraError {
    /// A human-readable description of the error.
    pub fn message(&self) -> (m: String)
        ensures
            self is IoError ==> m@ == "IO Error: "@ + self->IoError_0@,
            self is PdfError ==> m@ == "PDF Error: "@ + self->PdfError_0@,
            self is InvalidChunkSize ==> m@ == "Configuration error: chunk size must be at least 1"@,
    {
        match self {
            AudioraError::IoError(e) => "IO Error: ".to_owned().concat(e.as_str()),
            AudioraError::PdfError(e) => "PDF Error: ".to_owned().concat(e.as_str()),
            AudioraError::InvalidChunkSize => "Configuration error: chunk size must be at least 1"
                .to_owned(),
        }
    }
}

} // verus!
