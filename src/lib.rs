//! Supervisor core for a locally managed bot executable: directory layout,
//! configuration files and their backups, the admin section of the bot's
//! configuration, the child-process state machine, and status summaries.

pub mod admin;
pub mod backups;
pub mod clock;
pub mod config;
pub mod errors;
pub mod install;
pub mod layout;
pub mod supervisor;
pub mod status;
pub mod text;
