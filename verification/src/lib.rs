pub mod text;
pub mod line;
pub mod issue;
pub mod config;
pub mod rule;
pub mod path;
pub mod linter;
