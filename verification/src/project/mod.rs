pub mod builder;
pub mod config;
pub mod deps;
pub mod format;
pub mod json;
pub mod lookup;
pub mod rules;
pub mod value;
pub mod workspace;
