pub mod build_helpers;
pub mod paths;
pub mod sort;
pub mod strings;
pub mod text;
