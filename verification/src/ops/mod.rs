pub mod checker;
pub mod github;
pub mod nixpkgs;
pub mod types;
pub mod version;
pub mod table;
