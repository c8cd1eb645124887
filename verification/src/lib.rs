//! esmeril: scaffold, check, audit and build Roblox Luau projects.
//!
//! The library holds the decisions of each command, verified with Verus: the project
//! checks and their grade, the templates, the repairs of `--fix`, the version and
//! requirement rules, the registry audit, the rewrite of `wally.toml`, the cache policy and
//! the terminal reports. The binary in `app/` reads the disk, the environment and the
//! network, and prints.
pub mod text;
pub mod version;
pub mod requirement;
pub mod data;
pub mod check;
pub mod render;
pub mod deps;
pub mod template;
pub mod fix;
pub mod tool;
pub mod cache;
pub mod doctor;
pub mod fmt_cmd;
pub mod rojo_build;
pub mod cli;
pub mod init;
pub mod toml_doc;
pub mod update;
