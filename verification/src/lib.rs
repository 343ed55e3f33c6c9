//! Assembly of Debian binary packages.
//!
//! A package is made of the files of a project in three steps: the declared
//! assets are resolved to files (`manifest`), the maintainer scripts for
//! systemd units are generated and merged with those of the user
//! (`dh_installsystemd`, `classify`, `dh_lib`), and the files and what is
//! said of them are laid into two tar archives (`data`, `control`,
//! `tararchive`) inside one `ar` archive (`debarchive`, `package`).
//!
//! The library reads no disk and runs no program. What it needs of the file
//! system is handed to it as a `fstree::FileTree`, and the programs to run
//! are returned as values (`commands`).
//!
//! Text is reasoned about as sequences of characters (`text`, `paths`); every
//! function states what it returns over these.

pub mod autoscripts;
pub mod cargo;
pub mod charsplit;
pub mod classify;
pub mod commands;
pub mod compress;
pub mod config;
pub mod control;
pub mod data;
pub mod debarchive;
pub mod dependencies;
pub mod dh_installsystemd;
pub mod dh_lib;
pub mod error;
pub mod fragments;
pub mod fstree;
pub mod listener;
pub mod manifest;
pub mod package;
pub mod pathbytes;
pub mod paths;
pub mod tararchive;
pub mod text;
pub mod utf8;
pub mod util;
pub mod wordsplit;

pub use crate::debarchive::DebArchive;
pub use crate::error::{CDResult, CargoDebError};
pub use crate::manifest::Config;
