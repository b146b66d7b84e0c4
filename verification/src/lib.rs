pub mod dates;
pub mod errors;
pub mod ops;
pub mod output;
pub mod scanner;
pub mod text;
