pub mod tap;
pub mod tree;
