//! The failures that end a run.

use vstd::prelude::*;

verus! {

/// Why a run stopped. Every variant is fatal.
#[derive(Debug)]
pub enum PipelineError {
    /// A segment line yields no local filename that can be used for a file.
    ReferenceMalformed { line: String },
    /// A segment could not be retrieved within its retry budget.
    RetriesExhausted { url: String, last_error: String },
    /// A directory could not be created or a file could not be written.
    Filesystem { path: String, cause: String },
    /// A supplied header value cannot be transmitted.
    HeaderConstruction,
}

/// The message for an error: what went wrong, with the offending line, URL
/// or path.
pub open spec fn message_of(e: PipelineError) -> Seq<char> {
    match e {
        PipelineError::ReferenceMalformed { line } => "no usable file name in segment reference: "@
            + line@,
        PipelineError::RetriesExhausted { url, last_error } => "retries exhausted for "@ + url@
            + ": "@ + last_error@,
        PipelineError::Filesystem { path, cause } => "cannot write "@ + path@ + ": "@ + cause@,
        PipelineError::HeaderConstruction => "a header value cannot be transmitted"@,
    }
}

impl PipelineError {
    /// A message for the operator.
    pub fn message(&self) -> (text: String)
        ensures
            text@ == message_of(*self),
    {
        let mut text = String::new();
        match self {
            PipelineError::ReferenceMalformed { line } => {
                text.push_str("no usable file name in segment reference: ");
                text.push_str(line.as_str());
            },
            PipelineError::RetriesExhausted { url, last_error } => {
                text.push_str("retries exhausted for ");
                text.push_str(url.as_str());
                text.push_str(": ");
                text.push_str(last_error.as_str());
            },
            PipelineError::Filesystem { path, cause } => {
                text.push_str("cannot write ");
                text.push_str(path.as_str());
                text.push_str(": ");
                text.push_str(cause.as_str());
            },
            PipelineError::HeaderConstruction => {
                text.push_str("a header value cannot be transmitted");
            },
        }
        assert(text@ =~= message_of(*self));
        text
    }
}

} // verus!
