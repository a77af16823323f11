pub mod ascii_tree;
pub mod cli;
pub mod formats;
pub mod test_case;
pub mod test_id;
pub mod test_id_container;
pub mod test_result;
pub mod test_runner;
pub mod toml_config;
pub mod utils;
