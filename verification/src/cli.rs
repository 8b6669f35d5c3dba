//! The command-line surface of the tool, as plain data.
//!
//! Argument parsing itself (and its derive machinery) lives in the
//! surrounding program, which converts the parsed arguments into these
//! structures before calling into the pipeline.

use vstd::prelude::*;

verus! {

/// A parsed invocation.
pub struct Cli {
    pub command: Commands,
}

/// The tool's subcommands.
pub enum Commands {
    /// Convert a file or directory of files to Markdown.
    Convert {
        /// Path to a file or directory to convert.
        path: String,
        /// Directory where converted Markdown files are saved.
        output: Option<String>,
        /// API key override for the conversion backend.
        api_key: Option<String>,
        /// Custom prompt to pass to the backend.
        prompt: Option<String>,
        /// Upper bound on pages sent to the backend per call.
        pages_per_batch: u32,
        /// Page-selection expression, such as `1,3,5-8`.
        pages: Option<String>,
    },
    /// Inspect or edit the configuration.
    Config {
        /// Store a Gemini API key.
        set_api_key: Option<String>,
        /// Store an Anthropic API key.
        set_claude_api_key: Option<String>,
        /// Switch the active provider.
        set_provider: Option<String>,
        /// Print the configuration file's location.
        show_path: bool,
        /// Print the configuration.
        show: bool,
        /// Run the interactive setup.
        edit: bool,
    },
}

} // verus!
