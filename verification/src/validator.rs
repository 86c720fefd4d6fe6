//! What is checked before any work on the translation set: the name of a
//! language, and the directory that holds the set.

use vstd::prelude::*;
use vstd::string::*;
use crate::paint::{green, red};
use crate::text::{enclose, is_suffix_of, strip_suffix};

verus! {

/// What looking at one entry of the directory gave, in the order in which
/// the entry is looked at.
#[derive(Debug)]
pub enum EntryProbe {
    /// The entry could not be read; the detail says why.
    Failed(String),
    /// The entry's type could not be found out; the text shows its path.
    UnknownType(String),
    /// The entry is a directory; the text shows its path.
    Directory(String),
    /// The entry's file name is not UTF-8; the text shows its path.
    NonUtf8(String),
    /// The entry is a file of this name.
    File(String),
}

/// What looking at the path of the directory gave.
#[derive(Debug)]
pub enum PathProbe {
    /// Nothing is at the path.
    Missing,
    /// What is at the path is no directory.
    NotDirectory,
    /// The directory could not be listed.
    Unreadable,
    /// The entries of the directory.
    Entries(Vec<EntryProbe>),
}

/// The text has `.json` at its end, and so names a JSON file.
pub open spec fn is_json_name(name: Seq<char>) -> bool {
    is_suffix_of(".json"@, name)
}

/// What is wrong with an entry, if anything is.
pub open spec fn entry_fault(entry: EntryProbe) -> Option<Seq<char>> {
    match entry {
        EntryProbe::Failed(detail) => Some("Cannot get entry, "@ + detail@),
        EntryProbe::UnknownType(path) => Some("Cannot get file type of "@ + path@ + " 🚫"@),
        EntryProbe::Directory(path) => Some(
            "i18n directory should not contain directory but "@ + path@ + " is directory 🚫"@,
        ),
        EntryProbe::NonUtf8(path) => Some("Invalid json file name '"@ + path@ + "' 🚫"@),
        EntryProbe::File(name) => if is_json_name(name@) {
            None
        } else {
            Some(
                "'"@ + name@
                    + "' is not a json file ( translation file should be json file) 📁"@,
            )
        },
    }
}

/// The entry at `n` is the first with a fault.
pub open spec fn is_first_fault(entries: Seq<EntryProbe>, n: int) -> bool {
    &&& 0 <= n < entries.len()
    &&& entry_fault(entries[n]) is Some
    &&& forall|i: int| 0 <= i < n ==> entry_fault(#[trigger] entries[i]) is None
}

/// The message for a language name with a dot in it, from the name as it is
/// to be shown and what to show as the name that was meant.
pub open spec fn invalid_name_text(shown_name: Seq<char>, shown_stem: Seq<char>) -> Seq<char> {
    "'"@ + shown_name + "' is invalid name, did you means "@ + shown_stem
}

/// `str::split_once` at a character: the text before the first occurrence of
/// the character and the text behind it, or `None` where the text does not
/// hold the character.
#[verifier::external_body]
fn split_at_first(text: &str, mark: char) -> (parts: Option<(&str, &str)>)
    ensures
        parts is None <==> !text@.contains(mark),
        parts matches Some((before, after)) ==> text@ == before@ + seq![mark] + after@
            && !before@.contains(mark),
{
    text.split_once(mark)
}

/// The message for a language name with a dot in it.
pub fn invalid_name_message(shown_name: &str, shown_stem: &str) -> (message: String)
    ensures
        message@ == invalid_name_text(shown_name@, shown_stem@),
{
    let mut message = enclose("'", shown_name, "' is invalid name, did you means ");
    message.append(shown_stem);
    message
}

/// The name up to its first dot, where it has a dot.
pub fn name_stem(lang_name: &str) -> (stem: Option<&str>)
    ensures
        stem is Some <==> lang_name@.contains('.'),
        stem matches Some(before) ==> !before@.contains('.') && before@.len() < lang_name@.len()
            && lang_name@.subrange(0, before@.len() as int) == before@
            && lang_name@[before@.len() as int] == '.',
{
    match split_at_first(lang_name, '.') {
        Some((before, after)) => {
            assert(lang_name@.subrange(0, before@.len() as int) =~= before@);
            Some(before)
        },
        None => None,
    }
}

/// Validate the name of language: a name is valid unless it has a dot in it.
/// The message for an invalid name shows the name, and the name up to its
/// first dot as the one that was meant, each as the terminal is to show it.
pub fn validate_lang_name(lang_name: &str) -> (r: Result<(), String>)
    ensures
        r is Ok <==> !lang_name@.contains('.'),
        r matches Err(message) ==> exists|shown_name: Seq<char>, shown_stem: Seq<char>|
            message@ == invalid_name_text(shown_name, shown_stem),
{
    match name_stem(lang_name) {
        Some(stem) => {
            let shown_name = red(lang_name);
            let shown_stem = green(stem);
            let message = invalid_name_message(shown_name.as_str(), shown_stem.as_str());
            assert(message@ == invalid_name_text(shown_name@, shown_stem@));
            Err(message)
        },
        None => Ok(()),
    }
}

/// What is wrong with an entry, if anything is.
fn check_entry(entry: &EntryProbe) -> (fault: Option<String>)
    ensures
        fault is Some <==> entry_fault(*entry) is Some,
        fault matches Some(message) ==> entry_fault(*entry) == Some(message@),
{
    match entry {
        EntryProbe::Failed(detail) => {
            let mut message = "Cannot get entry, ".to_owned();
            message.append(detail.as_str());
            Some(message)
        },
        EntryProbe::UnknownType(path) => Some(
            enclose("Cannot get file type of ", path.as_str(), " 🚫"),
        ),
        EntryProbe::Directory(path) => Some(
            enclose(
                "i18n directory should not contain directory but ",
                path.as_str(),
                " is directory 🚫",
            ),
        ),
        EntryProbe::NonUtf8(path) => Some(
            enclose("Invalid json file name '", path.as_str(), "' 🚫"),
        ),
        EntryProbe::File(name) => {
            if strip_suffix(name.as_str(), ".json").is_some() {
                None
            } else {
                Some(
                    enclose(
                        "'",
                        name.as_str(),
                        "' is not a json file ( translation file should be json file) 📁",
                    ),
                )
            }
        },
    }
}

/// validate i18n path: the path must hold a directory that can be listed and
/// whose entries are all JSON files. The first entry with a fault gives the
/// message.
#[verifier::loop_isolation(false)]
pub fn validate_i18n_path(probe: &PathProbe) -> (r: Result<(), String>)
    ensures
        *probe is Missing ==> (r matches Err(m) && m@
            == "There is no directory with this name 🚫"@),
        *probe is NotDirectory ==> (r matches Err(m) && m@ == "It should be a directory 📂"@),
        *probe is Unreadable ==> (r matches Err(m) && m@ == "Cannot read the i18n directory 📁"@),
        *probe matches PathProbe::Entries(entries) ==> match r {
            Ok(_) => forall|i: int|
                0 <= i < entries.len() ==> entry_fault(#[trigger] entries@[i]) is None,
            Err(m) => exists|n: int|
                is_first_fault(entries@, n) && entry_fault(#[trigger] entries@[n]) == Some(m@),
        },
{
    match probe {
        PathProbe::Missing => Err("There is no directory with this name 🚫".to_owned()),
        PathProbe::NotDirectory => Err("It should be a directory 📂".to_owned()),
        PathProbe::Unreadable => Err("Cannot read the i18n directory 📁".to_owned()),
        PathProbe::Entries(entries) => {
            let mut i: usize = 0;
            while i < entries.len()
                invariant
                    i <= entries.len(),
                    forall|j: int| 0 <= j < i ==> entry_fault(#[trigger] entries@[j]) is None,
                decreases entries.len() - i,
            {
                match check_entry(&entries[i]) {
                    Some(message) => {
                        assert(is_first_fault(entries@, i as int));
                        return Err(message);
                    },
                    None => {},
                }
                i += 1;
            }
            Ok(())
        },
    }
}

} // verus!
