//! Install engine of a Homebrew-compatible package manager: dependency
//! resolution, bottle selection and relocation, install state, symlink
//! planning, lockfiles and the conditional index cache.

pub mod api;
pub mod bottle;
pub mod builder;
pub mod cache;
pub mod cask;
pub mod clock;
pub mod commands;
pub mod deps;
pub mod dirs;
pub mod error;
pub mod formula_parser;
pub mod install;
pub mod lockfile;
pub mod paths;
pub mod prefix;
pub mod rank;
pub mod relocate;
pub mod table;
pub mod tap;
pub mod text;
pub mod version;
