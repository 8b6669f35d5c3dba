//! Decoded backend responses and their interpretation.
//!
//! The HTTP layer lives in the surrounding program; it decodes each
//! provider's JSON answer into the plain response structures of these
//! modules and calls the verified extraction functions, which turn a decoded
//! response into either the converted Markdown text or the provider's
//! reported error.

pub mod claude_client;
pub mod gemini_client;
pub mod ollama_client;
pub mod openai_client;
