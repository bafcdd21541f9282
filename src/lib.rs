pub mod backend;
pub mod buffer;
pub mod error;
pub mod layout;
pub mod parse;
pub mod partition;
pub mod pipeline;
pub mod queue;
pub mod sizing;
pub mod task;
pub mod writer;
