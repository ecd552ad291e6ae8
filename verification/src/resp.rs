pub mod handler;
pub mod parser;
