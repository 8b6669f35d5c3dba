//! Interpretation of OpenAI-compatible chat-completion responses.

use crate::error::NotedError;
use crate::strops::clean_markdown;
use crate::strops::cleaned_markdown;
use vstd::prelude::*;

verus! {

/// A decoded response from an OpenAI-compatible server.
pub struct OpenAIResponse {
    pub choices: Vec<Choice>,
    pub error: Option<OpenAIError>,
}

/// The error object of a failed call.
pub struct OpenAIError {
    pub message: String,
}

/// One choice of a response.
pub struct Choice {
    pub message: ResponseMessage,
}

/// The message of a choice.
pub struct ResponseMessage {
    pub content: String,
}

/// What a decoded response yields: the server's error message, or the
/// first choice's content with its code-fence wrapper removed (empty when
/// no choice came back).
pub open spec fn openai_markdown(r: OpenAIResponse) -> Result<Seq<char>, Seq<char>> {
    match r.error {
        Some(e) => Err(e.message@),
        None => Ok(
            cleaned_markdown(
                if r.choices.len() > 0 {
                    r.choices[0].message.content@
                } else {
                    Seq::empty()
                },
            ),
        ),
    }
}

impl OpenAIResponse {
    /// The Markdown text of a decoded response, or the server-reported
    /// error as an `ApiError`.
    pub fn extract_markdown(&self) -> (r: Result<String, NotedError>)
        ensures
            match r {
                Ok(text) => openai_markdown(*self) matches Ok(t) && text@ == t,
                Err(e) => {
                    &&& openai_markdown(*self) matches Err(m)
                    &&& e matches NotedError::ApiError(x) && x@ == m
                },
            },
    {
        match &self.error {
            Some(err) => Err(NotedError::ApiError(err.message.clone())),
            None => {
                if self.choices.len() > 0 {
                    Ok(clean_markdown(self.choices[0].message.content.as_str()))
                } else {
                    proof {
                        reveal_strlit("");
                        assert(""@ =~= Seq::<char>::empty());
                    }
                    Ok(clean_markdown(""))
                }
            },
        }
    }
}

} // verus!
