//! The error taxonomy of the conversion pipeline.

use vstd::prelude::*;

verus! {

/// Everything that can go wrong inside the conversion core.
///
/// Input-validation failures (a malformed page selection, a page outside the
/// document, an oversized batch bound) are reported before any batch runs;
/// the remaining variants describe what a conversion backend or the caller's
/// configuration reported.
#[derive(Debug, PartialEq, Eq)]
pub enum NotedError {
    /// A page-selection token that is not a positive integer or `A-B` range.
    InvalidPageToken(String),
    /// A page number `0`; pages are one-indexed at the boundary.
    ZeroPage,
    /// A range whose start exceeds its end.
    InvertedRange(u32, u32),
    /// A requested page past the end of the document: `(page, total_pages)`.
    PageOutOfRange(u32, u32),
    /// A batch bound above the hard ceiling.
    BatchSizeTooLarge(u32),
    /// A file whose extension names no supported input format.
    UnsupportedFileType(String),
    /// The backend rejected the credentials.
    InvalidApiKey,
    /// An error message reported by the conversion backend.
    ApiError(String),
    /// A backend response that could not be decoded.
    ResponseDecodeError(String),
    /// No provider is selected in the configuration.
    NoActiveProvider,
    /// The Gemini provider is selected but not configured.
    GeminiNotConfigured,
    /// The Anthropic provider is selected but not configured.
    ClaudeNotConfigured,
    /// The Ollama provider is selected but not configured.
    OllamaNotConfigured,
    /// The OpenAI-compatible provider is selected but not configured.
    OpenAINotConfigured,
}

} // verus!
