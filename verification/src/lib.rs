//! Module boundaries of a codebase: a tree of configured modules, the
//! check of each import against the boundaries of the modules it
//! crosses, and the report on what a module depends on and what depends
//! on it.

pub mod check_int;
pub mod cli;
pub mod colors;
pub mod commands;
pub mod config;
pub mod imports;
pub mod modules;
pub mod sorting;
pub mod text;
