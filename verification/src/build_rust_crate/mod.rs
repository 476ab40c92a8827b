//! The builder: what it decides in its configure, build and install phases. Running commands and
//! touching files happens outside.

pub mod build_phase;
pub mod build_script;
pub mod config;
pub mod configure;
pub mod install;
pub mod nextest;
pub mod prepare;
pub mod rustc;
