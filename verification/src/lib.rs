//! Assigns the files of a project tree to external formatter programs by glob
//! pattern and decides how each program is invoked and how the run ends.

pub mod classify;
pub mod config;
pub mod dispatch;
pub mod glob;
pub mod logger;
pub mod ordered_map;
pub mod path;
pub mod project;
pub mod runner;
pub mod util;
