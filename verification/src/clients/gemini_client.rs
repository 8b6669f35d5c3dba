//! Interpretation of Gemini generate-content responses.

use crate::error::NotedError;
use crate::strops::clean_markdown;
use crate::strops::cleaned_markdown;
use vstd::prelude::*;

verus! {

/// A decoded response from the Gemini API.
pub struct GeminiResponse {
    pub candidates: Option<Vec<Candidate>>,
    pub error: Option<GeminiError>,
}

/// The error object of a failed call.
pub struct GeminiError {
    pub message: String,
}

/// One candidate answer.
pub struct Candidate {
    pub content: ContentResponse,
}

/// The content of a candidate.
pub struct ContentResponse {
    pub parts: Vec<PartResponse>,
}

/// One part of a candidate's content.
pub struct PartResponse {
    pub text: String,
}

/// The raw text of a decoded response: the first part of the first
/// candidate, or empty when either is missing.
pub open spec fn gemini_text(r: GeminiResponse) -> Seq<char> {
    match r.candidates {
        Some(cs) => if cs.len() > 0 && cs[0].content.parts.len() > 0 {
            cs[0].content.parts[0].text@
        } else {
            Seq::empty()
        },
        None => Seq::empty(),
    }
}

/// What a decoded response yields: the provider's error message, or the
/// text with its code-fence wrapper removed.
pub open spec fn gemini_markdown(r: GeminiResponse) -> Result<Seq<char>, Seq<char>> {
    match r.error {
        Some(e) => Err(e.message@),
        None => Ok(cleaned_markdown(gemini_text(r))),
    }
}

impl GeminiResponse {
    /// The Markdown text of a decoded response, or the provider-reported
    /// error as an `ApiError`.
    pub fn extract_markdown(&self) -> (r: Result<String, NotedError>)
        ensures
            match r {
                Ok(text) => gemini_markdown(*self) matches Ok(t) && text@ == t,
                Err(e) => {
                    &&& gemini_markdown(*self) matches Err(m)
                    &&& e matches NotedError::ApiError(x) && x@ == m
                },
            },
    {
        match &self.error {
            Some(err) => Err(NotedError::ApiError(err.message.clone())),
            None => {
                proof {
                    reveal_strlit("");
                    assert(""@ =~= Seq::<char>::empty());
                }
                match &self.candidates {
                    Some(cs) => {
                        if cs.len() > 0 && cs[0].content.parts.len() > 0 {
                            Ok(clean_markdown(cs[0].content.parts[0].text.as_str()))
                        } else {
                            Ok(clean_markdown(""))
                        }
                    },
                    None => Ok(clean_markdown("")),
                }
            },
        }
    }
}

} // verus!
