pub mod config;
pub mod gen_vec;
pub mod parser;
pub mod socket;
pub mod token;
pub mod utils;
