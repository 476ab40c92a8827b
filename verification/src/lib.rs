pub mod build_rust_crate;
pub mod cargo_config;
pub mod cfg_eval;
pub mod crate_info;
pub mod disk;
pub mod feature_resolve;
pub mod json_tree;
pub mod lists;
pub mod lockfile;
pub mod lock_packages;
pub mod lockfile_resolve;
pub mod manifest;
pub mod metadata;
pub mod nix_builder;
pub mod paths;
pub mod plugin;
pub mod positions;
pub mod registry;
pub mod resolve;
pub mod shell;
pub mod sorted;
pub mod text;
pub mod toml_tree;
pub mod version;
