//! Renders a `starship.toml` onto the sidebar of a Herdr workspace: the decisions, with their
//! contracts.

pub mod ansi;
pub mod cli;
pub mod command;
pub mod config;
pub mod detach;
pub mod document;
pub mod fitter;
pub mod lock;
pub mod login_path;
pub mod modules;
pub mod number;
pub mod path;
pub mod pid_file;
pub mod reconcile;
pub mod starship;
pub mod text;
pub mod truncate;
pub mod watch;
pub mod width;
pub mod workspace;
