//! The decisions behind the commands: what to install, in which order, and
//! what to tell the user.

pub mod batch;
pub mod install;
pub mod search;
pub mod upgrade;
pub mod info;
pub mod list;
pub mod self_update;
pub mod uninstall;
