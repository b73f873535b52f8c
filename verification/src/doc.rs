//! Document-shaped data used by host-backed sources and sinks.

use vstd::prelude::*;

verus! {

/// The text of one page of a document, as a host PDF reader returns it.
#[derive(Debug, Clone)]
pub struct PdfPageText {
    pub file: String,
    pub page: u32,
    pub text: String,
}

/// Values that can be broken into text chunks for indexing.
pub trait IntoChunks: Sized {
    fn into_chunks(self) -> (r: Vec<String>);
}

impl IntoChunks for String {
    /// A single string is one chunk.
    fn into_chunks(self) -> (r: Vec<String>)
        ensures
            r@.len() == 1,
            r@[0] == self,
    {
        let mut out: Vec<String> = Vec::new();
        out.push(self);
        out
    }
}

impl IntoChunks for Vec<String> {
    /// A vector of strings is already its chunks.
    fn into_chunks(self) -> (r: Vec<String>)
        ensures
            r == self,
    {
        self
    }
}

} // verus!
