pub mod file;
pub mod format;
pub mod report;

pub use format::{parse_output_format, OutputFormat};
