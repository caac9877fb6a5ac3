//! Builds a release-grouped changelog model out of a commit history.
//!
//! `conf` holds the configuration values, `classify` reads commit messages,
//! and `parser` normalizes commits and folds a history into release groups.

pub mod classify;
pub mod conf;
pub mod parser;
pub mod theorems;
