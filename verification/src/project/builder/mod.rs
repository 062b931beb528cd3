pub mod common;
pub mod context;
pub mod gas;
pub mod msvc;
pub mod unix_cc;
