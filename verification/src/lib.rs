//! Planning and bookkeeping for fetching an HLS media playlist and its segments.

pub mod error;
pub mod headers;
pub mod manifest;
pub mod pipeline;
pub mod playlist;
pub mod resolver;
pub mod retry;
pub mod rewriter;
pub mod scheduler;
pub mod text;
