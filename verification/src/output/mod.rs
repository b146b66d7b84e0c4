pub mod llm;
pub mod status;
pub mod text;
