//! Progress reporting for byte streams.
//!
//! `ProgressReader` and `ProgressWriter` wrap a byte source or sink and tell a
//! callback how many bytes each successful read or write moved.

pub mod stream;
pub mod reader;
pub mod writer;
pub mod memory;

pub use memory::{MemSink, MemSource, ProgressLog};
pub use reader::ProgressReader;
pub use stream::{ByteSink, ByteSource, ProgressCallback};
pub use writer::ProgressWriter;
