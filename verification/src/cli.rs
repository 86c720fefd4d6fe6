//! The commands that the translation set takes, as the command line gives
//! them.

use vstd::prelude::*;

verus! {

/// What to delete.
#[derive(Debug)]
pub enum DeleteSubCommands {
    /// Delete a language
    Lang {
        /// The language name
        lang: String,
    },
    /// Delete translations by key
    Trans {
        /// The translation key
        key: String,
    },
}

/// i18nrs sub commands
#[derive(Debug)]
pub enum Subcommands {
    /// Create new language file
    Create {
        /// The language name
        lang: String,
    },
    /// Add/Update translation
    Update {
        /// Language name to add/update in it
        lang: String,
        /// The translation key
        key: String,
        /// The translation
        trans: String,
    },
    /// Delete a language, or translations by key
    Delete {
        /// What to delete
        action: DeleteSubCommands,
    },
    /// List the translations of a language as a table
    List {
        /// The language name
        lang: String,
        /// The width of the table
        width: u16,
    },
}

/// Simple CLI to (add, delete, update, create) i18n translation file
#[derive(Debug)]
pub struct App {
    /// Path of i18n directory
    pub path: String,
    pub action: Subcommands,
}

} // verus!
