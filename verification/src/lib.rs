//! Declarative user-environment synchronisation: the decisions behind
//! keeping Scoop buckets, Scoop packages and dotfiles in line with one
//! configuration file.

pub mod text;
pub mod config;
pub mod scoop;
pub mod merge;
pub mod dotfiles;
pub mod cli;
pub mod gitconfig;
pub mod documents;
