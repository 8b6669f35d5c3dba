//! Interpretation of Anthropic messages-API responses.

use crate::error::NotedError;
use crate::strops::clean_markdown;
use crate::strops::cleaned_markdown;
use vstd::prelude::*;

verus! {

/// A decoded response from the Anthropic messages API.
pub struct ClaudeResponse {
    pub content: Vec<ContentResponse>,
    pub error: Option<ClaudeError>,
}

/// The error object of a failed call.
pub struct ClaudeError {
    pub message: String,
}

/// One content block of a response.
pub struct ContentResponse {
    pub text: String,
}

/// What a decoded response yields: the provider's error message, or the
/// first content block's text with its code-fence wrapper removed (empty
/// when no block came back).
pub open spec fn claude_markdown(r: ClaudeResponse) -> Result<Seq<char>, Seq<char>> {
    match r.error {
        Some(e) => Err(e.message@),
        None => Ok(
            cleaned_markdown(
                if r.content.len() > 0 {
                    r.content[0].text@
                } else {
                    Seq::empty()
                },
            ),
        ),
    }
}

impl ClaudeResponse {
    /// The Markdown text of a decoded response, or the provider-reported
    /// error as an `ApiError`.
    pub fn extract_markdown(&self) -> (r: Result<String, NotedError>)
        ensures
            match r {
                Ok(text) => claude_markdown(*self) matches Ok(t) && text@ == t,
                Err(e) => {
                    &&& claude_markdown(*self) matches Err(m)
                    &&& e matches NotedError::ApiError(x) && x@ == m
                },
            },
    {
        match &self.error {
            Some(err) => Err(NotedError::ApiError(err.message.clone())),
            None => {
                if self.content.len() > 0 {
                    Ok(clean_markdown(self.content[0].text.as_str()))
                } else {
                    proof {
                        reveal_strlit("");
                        assert(""@ =~= Seq::<char>::empty());
                    }
                    Ok(clean_markdown(""))
                }
            },
        }
    }
}

} // verus!
