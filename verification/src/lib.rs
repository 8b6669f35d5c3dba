//! Resumable paginated document conversion.
//!
//! The crate turns a multi-page source document into a single Markdown
//! artifact by sending bounded batches of pages to an external conversion
//! backend and assembling the returned text incrementally.  Progress is
//! checkpointed after every batch, so an interrupted run can be resumed
//! without redoing completed work and without corrupting the output.

pub mod assembler;
pub mod checkpoint;
pub mod cli;
pub mod clients;
pub mod config;
pub mod error;
pub mod file_utils;
pub mod resolver;
pub mod scheduler;
pub mod strops;

pub use checkpoint::ProcessingProgress;
pub use checkpoint::ProgressTracker;
pub use error::NotedError;
pub use config::Config;
pub use file_utils::FileData;
pub use scheduler::BatchScheduler;
