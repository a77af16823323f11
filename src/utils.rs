pub mod file;
pub mod string;
