//! The directory scanner: from the entries of the translation directory to
//! the names of the languages in it.

use vstd::prelude::*;
use vstd::string::*;
use crate::errors::{I18nError, I18nResult};
use crate::files::{named_detail, with_name};
use crate::text::{enclose, is_suffix_of, strip_suffix, without_last};

verus! {

/// One entry of the directory's listing.
#[derive(Debug)]
pub enum DirEntry {
    /// The entry could not be read; the detail says why.
    Failed(String),
    /// The entry's file name is not UTF-8; the text shows the entry.
    NonUtf8(String),
    /// The entry's file name.
    Named(String),
}

/// The name of the language that a file holds: the file's name without the
/// `.json` at its end, and the file's name as it is where it does not end so.
pub open spec fn language_name_of(file_name: Seq<char>) -> Seq<char> {
    if is_suffix_of(".json"@, file_name) {
        without_last(file_name, ".json"@.len())
    } else {
        file_name
    }
}

/// The message for a file name that is not UTF-8.
pub open spec fn non_utf8_message(shown: Seq<char>) -> Seq<char> {
    "'"@ + shown + "' is non-ut8"@
}

/// What the scanner makes of one entry.
pub open spec fn scanned(entry: DirEntry, r: I18nResult<I18nResult<String>>) -> bool {
    match entry {
        DirEntry::Failed(detail) => r matches Err(I18nError::ReadLanguageFile(m)) && m@ == detail@,
        DirEntry::NonUtf8(shown) => r matches Ok(Err(I18nError::NonUtf8LanguageName(m))) && m@
            == non_utf8_message(shown@),
        DirEntry::Named(file_name) => r matches Ok(Ok(name)) && name@ == language_name_of(
            file_name@,
        ),
    }
}

/// The name of the language that the file of the given name holds.
pub fn language_name(file_name: &str) -> (name: String)
    ensures
        name@ == language_name_of(file_name@),
{
    match strip_suffix(file_name, ".json") {
        Some(front) => {
            assert(front@ =~= without_last(file_name@, ".json"@.len()));
            front.to_owned()
        },
        None => file_name.to_owned(),
    }
}

/// The language name of one entry, or why it has none.
pub fn entry_name(entry: DirEntry) -> (r: I18nResult<I18nResult<String>>)
    ensures
        scanned(entry, r),
{
    match entry {
        DirEntry::Failed(detail) => Err(I18nError::ReadLanguageFile(detail)),
        DirEntry::NonUtf8(shown) => Ok(
            Err(I18nError::NonUtf8LanguageName(enclose("'", shown.as_str(), "' is non-ut8"))),
        ),
        DirEntry::Named(file_name) => Ok(Ok(language_name(file_name.as_str()))),
    }
}

/// Returns all languages in i18n directory, given what listing the directory
/// gave: its entries, or why it could not be listed.
pub fn list_languages(i18n_dir: &str, listing: Result<Vec<DirEntry>, String>) -> (r: I18nResult<
    Vec<I18nResult<I18nResult<String>>>,
>)
    ensures
        listing matches Err(detail) ==> (r matches Err(I18nError::ReadI18nDirectory(m)) && m@
            == named_detail(i18n_dir@, detail@)),
        listing matches Ok(entries) ==> (r matches Ok(names) && names.len() == entries.len()
            && forall|i: int|
            0 <= i < entries.len() ==> scanned(entries@[i], #[trigger] names@[i])),
{
    match listing {
        Err(detail) => Err(I18nError::ReadI18nDirectory(with_name(i18n_dir, detail.as_str()))),
        Ok(entries) => {
            let ghost all = entries@;
            let mut names: Vec<I18nResult<I18nResult<String>>> = Vec::new();
            for entry in it: entries
                invariant
                    it.seq() == all,
                    names.len() == it.index(),
                    forall|i: int| 0 <= i < names.len() ==> scanned(all[i], #[trigger] names@[i]),
            {
                names.push(entry_name(entry));
            }
            Ok(names)
        },
    }
}

} // verus!
