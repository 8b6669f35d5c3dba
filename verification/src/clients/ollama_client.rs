//! Interpretation of Ollama generate responses.

use crate::error::NotedError;
use crate::strops::clean_markdown;
use crate::strops::cleaned_markdown;
use vstd::prelude::*;

verus! {

/// A decoded response from an Ollama server.
pub struct OllamaResponse {
    pub response: String,
    pub error: Option<String>,
}

/// What a decoded response yields: the server's error message, or the
/// response text with its code-fence wrapper removed.
pub open spec fn ollama_markdown(r: OllamaResponse) -> Result<Seq<char>, Seq<char>> {
    match r.error {
        Some(m) => Err(m@),
        None => Ok(cleaned_markdown(r.response@)),
    }
}

impl OllamaResponse {
    /// The Markdown text of a decoded response, or the server-reported
    /// error as an `ApiError`.
    pub fn extract_markdown(&self) -> (r: Result<String, NotedError>)
        ensures
            match r {
                Ok(text) => ollama_markdown(*self) matches Ok(t) && text@ == t,
                Err(e) => {
                    &&& ollama_markdown(*self) matches Err(m)
                    &&& e matches NotedError::ApiError(x) && x@ == m
                },
            },
    {
        match &self.error {
            Some(err) => Err(NotedError::ApiError(err.clone())),
            None => Ok(clean_markdown(self.response.as_str())),
        }
    }
}

} // verus!
