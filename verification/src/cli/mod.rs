pub mod add;
pub mod flags;
pub mod gen;
pub mod gen_info;
pub mod run;
pub mod clean;
pub mod testsuite;
pub mod update;
pub mod new;
pub mod tree;
pub mod build_steps;
pub mod build_plan;
