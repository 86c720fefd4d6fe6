//! What passes between the translation set and the file system: what reading
//! a file gave, and the writes and deletions that the set asks for.

use vstd::prelude::*;
use vstd::string::*;
use crate::errors::I18nError;
use crate::text::enclose;

verus! {

/// What reading a language file gave.
#[derive(Debug, PartialEq, Eq)]
pub enum FileRead {
    /// There is no such file.
    Missing,
    /// The file is there and could not be read; the detail says why.
    Failed(String),
    /// The text of the file.
    Text(String),
}

/// A file to write: its path and its new text, for the named language.
#[derive(Debug, PartialEq, Eq)]
pub struct FileWrite {
    pub lang_name: String,
    pub path: String,
    pub content: String,
}

/// A file to write, as plain values.
pub struct FileWriteView {
    pub lang_name: Seq<char>,
    pub path: Seq<char>,
    pub content: Seq<char>,
}

impl View for FileWrite {
    type V = FileWriteView;

    open spec fn view(&self) -> FileWriteView {
        FileWriteView { lang_name: self.lang_name@, path: self.path@, content: self.content@ }
    }
}

/// A file to delete.
#[derive(Debug, PartialEq, Eq)]
pub struct FileDelete {
    pub path: String,
}

/// The path of the file of a language: `directory/name.json`.
pub open spec fn language_path(i18n_dir: Seq<char>, lang_name: Seq<char>) -> Seq<char> {
    i18n_dir + "/"@ + lang_name + ".json"@
}

/// A detail behind the quoted name of what it is about: `'name', detail`.
pub open spec fn named_detail(name: Seq<char>, detail: Seq<char>) -> Seq<char> {
    "'"@ + name + "', "@ + detail
}

/// The path of the file of a language.
pub fn language_file(i18n_dir: &str, lang_name: &str) -> (path: String)
    ensures
        path@ == language_path(i18n_dir@, lang_name@),
{
    let mut path = enclose(i18n_dir, "/", lang_name);
    path.append(".json");
    path
}

/// The text `'name', detail`.
pub fn with_name(name: &str, detail: &str) -> (text: String)
    ensures
        text@ == named_detail(name@, detail@),
{
    let mut text = enclose("'", name, "', ");
    text.append(detail);
    text
}

impl FileWrite {
    /// The error for this write having failed with the given detail.
    pub fn failed(&self, detail: &str) -> (error: I18nError)
        ensures
            error matches I18nError::WriteOnFile(m) && m@ == named_detail(self@.lang_name, detail@),
    {
        I18nError::WriteOnFile(with_name(self.lang_name.as_str(), detail))
    }
}

impl FileDelete {
    /// The error for this deletion having failed with the given detail.
    pub fn failed(&self, detail: &str) -> (error: I18nError)
        ensures
            error matches I18nError::DeleteFile(m) && m@ == detail@,
    {
        I18nError::DeleteFile(detail.to_owned())
    }
}

} // verus!
