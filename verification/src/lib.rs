pub mod library;
pub mod runtime;
pub mod types;
