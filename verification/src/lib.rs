//! Keeps a directory of per-language translation files consistent: every
//! language exposes the same keys, and a key that a language does not define
//! carries an empty translation.
//!
//! The library holds the translation set in memory and decides what is to be
//! read, written and deleted; reading, writing and deleting are the caller's.

pub mod cli;
pub mod entries;
pub mod errors;
pub mod files;
pub mod json;
pub mod keymap;
pub mod language;
pub mod paint;
pub mod reconcile;
pub mod scanner;
pub mod table;
pub mod text;
pub mod translations;
pub mod validator;
