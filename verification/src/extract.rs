//! Handling the text-extraction collaborator's reply. The PDF reading
//! itself is the collaborator's work and stays outside the library: it may
//! fail, and on some documents its parser accepts it aborts outright, so no
//! contract of this library speaks for it. What the library fixes is what
//! becomes of its reply: extracted text is taken whole — no partial text is
//! ever accepted — and a failure becomes the run's fatal extraction error,
//! carrying the collaborator's message.

use vstd::prelude::*;
use crate::errors::AudioraError;

verus! {

/// Takes the text-extraction collaborator's reply and decides the run's
/// fate: the recovered text is accepted exactly as handed in, and a failure
/// message becomes the fatal extraction error, prefixed so the user sees
/// what stage broke.
pub fn accept_extraction(reply: Result<String, String>) -> (r: Result<String, AudioraError>)
    ensures
        r is Ok <==> reply is Ok,
        reply is Ok ==> r->Ok_0 == reply->Ok_0,
        reply is Err ==> r->Err_0 is PdfError && r->Err_0->PdfError_0@
            == "Failed to extract text from PDF: "@ + reply->Err_0@,
{
    match reply {
        Result::Ok(text) => Result::Ok(text),
        Result::Err(message) => {
            let full = "Failed to extract text from PDF: ".to_owned().concat(message.as_str());
            Result::Err(AudioraError::PdfError(full))
        },
    }
}

} // verus!
