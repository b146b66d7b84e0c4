pub mod common;
pub mod git_context;
pub mod grammar;
pub mod parser;
pub mod scan;
