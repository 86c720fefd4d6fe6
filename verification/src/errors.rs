//! The error kinds of the translation set, each with its detail message.

use vstd::prelude::*;

verus! {

/// What went wrong, with a human-readable detail.
#[derive(Debug)]
pub enum I18nError {
    NonExistingLanguage(String),
    NonExistingKey(String),
    AlreadyExistingLanguage(String),
    ReadI18nDirectory(String),
    ReadLanguageFile(String),
    NonUtf8LanguageName(String),
    ParseJson(String),
    WriteOnFile(String),
    ThereIsNoLanguages(String),
    ThereIsNoTranslations(String),
    DeleteFile(String),
}

pub type I18nResult<T> = Result<T, I18nError>;

impl Clone for I18nError {
    /// An error of the same kind with the same detail.
    fn clone(&self) -> (copy: Self)
        ensures
            copy == *self,
    {
        match self {
            Self::NonExistingLanguage(s) => Self::NonExistingLanguage(s.clone()),
            Self::NonExistingKey(s) => Self::NonExistingKey(s.clone()),
            Self::AlreadyExistingLanguage(s) => Self::AlreadyExistingLanguage(s.clone()),
            Self::ReadI18nDirectory(s) => Self::ReadI18nDirectory(s.clone()),
            Self::ReadLanguageFile(s) => Self::ReadLanguageFile(s.clone()),
            Self::NonUtf8LanguageName(s) => Self::NonUtf8LanguageName(s.clone()),
            Self::ParseJson(s) => Self::ParseJson(s.clone()),
            Self::WriteOnFile(s) => Self::WriteOnFile(s.clone()),
            Self::ThereIsNoLanguages(s) => Self::ThereIsNoLanguages(s.clone()),
            Self::ThereIsNoTranslations(s) => Self::ThereIsNoTranslations(s.clone()),
            Self::DeleteFile(s) => Self::DeleteFile(s.clone()),
        }
    }
}

impl I18nError {
    /// The detail message that the error carries.
    pub open spec fn spec_msg(self) -> Seq<char> {
        match self {
            Self::NonExistingLanguage(s) => s@,
            Self::NonExistingKey(s) => s@,
            Self::AlreadyExistingLanguage(s) => s@,
            Self::ReadI18nDirectory(s) => s@,
            Self::ReadLanguageFile(s) => s@,
            Self::NonUtf8LanguageName(s) => s@,
            Self::ParseJson(s) => s@,
            Self::WriteOnFile(s) => s@,
            Self::ThereIsNoLanguages(s) => s@,
            Self::ThereIsNoTranslations(s) => s@,
            Self::DeleteFile(s) => s@,
        }
    }

    /// Returns the error message
    pub fn msg(&self) -> (m: &str)
        ensures
            m@ == self.spec_msg(),
    {
        match self {
            Self::NonExistingLanguage(s) => s.as_str(),
            Self::NonExistingKey(s) => s.as_str(),
            Self::AlreadyExistingLanguage(s) => s.as_str(),
            Self::ReadI18nDirectory(s) => s.as_str(),
            Self::ReadLanguageFile(s) => s.as_str(),
            Self::NonUtf8LanguageName(s) => s.as_str(),
            Self::ParseJson(s) => s.as_str(),
            Self::WriteOnFile(s) => s.as_str(),
            Self::ThereIsNoLanguages(s) => s.as_str(),
            Self::ThereIsNoTranslations(s) => s.as_str(),
            Self::DeleteFile(s) => s.as_str(),
        }
    }

    /// The name of the error's kind.
    pub open spec fn spec_name(self) -> Seq<char> {
        match self {
            Self::NonExistingLanguage(_) => "NonExistingLanguage"@,
            Self::NonExistingKey(_) => "NonExistingKey"@,
            Self::AlreadyExistingLanguage(_) => "AlreadyExistingLanguage"@,
            Self::ReadI18nDirectory(_) => "ReadI18nDirectory"@,
            Self::ReadLanguageFile(_) => "ReadLanguageFile"@,
            Self::NonUtf8LanguageName(_) => "NonUtf8LanguageName"@,
            Self::ParseJson(_) => "ParseJson"@,
            Self::WriteOnFile(_) => "WriteOnFile"@,
            Self::ThereIsNoLanguages(_) => "ThereIsNoLanguages"@,
            Self::ThereIsNoTranslations(_) => "ThereIsNoTranslations"@,
            Self::DeleteFile(_) => "DeleteFile"@,
        }
    }

    /// Returns the error name
    pub fn name(&self) -> (n: &'static str)
        ensures
            n@ == self.spec_name(),
    {
        match self {
            Self::NonExistingLanguage(_) => "NonExistingLanguage",
            Self::NonExistingKey(_) => "NonExistingKey",
            Self::AlreadyExistingLanguage(_) => "AlreadyExistingLanguage",
            Self::ReadI18nDirectory(_) => "ReadI18nDirectory",
            Self::ReadLanguageFile(_) => "ReadLanguageFile",
            Self::NonUtf8LanguageName(_) => "NonUtf8LanguageName",
            Self::ParseJson(_) => "ParseJson",
            Self::WriteOnFile(_) => "WriteOnFile",
            Self::ThereIsNoLanguages(_) => "ThereIsNoLanguages",
            Self::ThereIsNoTranslations(_) => "ThereIsNoTranslations",
            Self::DeleteFile(_) => "DeleteFile",
        }
    }
}

/// `exitcode::NOPERM`: the status for an operation that was not permitted.
#[verifier::external_body]
fn no_permission_code() -> (code: i32)
    ensures
        code == 77,
{
    exitcode::NOPERM
}

/// `exitcode::CANTCREAT`: the status for an output that cannot be created.
#[verifier::external_body]
fn cannot_create_code() -> (code: i32)
    ensures
        code == 73,
{
    exitcode::CANTCREAT
}

impl I18nError {
    /// The exit status for the error's kind.
    pub open spec fn spec_exit_status(self) -> u8 {
        match self {
            Self::DeleteFile(_) => 77,
            Self::ReadLanguageFile(_) => 77,
            Self::ReadI18nDirectory(_) => 77,
            Self::WriteOnFile(_) => 77,
            Self::AlreadyExistingLanguage(_) => 73,
            _ => 1,
        }
    }

    /// The status with which the process ends on this error: that of a
    /// missing permission for the errors of reading, writing and deleting,
    /// that of an output that cannot be created for a language that exists
    /// already, and 1 for the others.
    pub fn exit_status(&self) -> (status: u8)
        ensures
            status == self.spec_exit_status(),
    {
        match self {
            Self::DeleteFile(_) => no_permission_code() as u8,
            Self::ReadLanguageFile(_) => no_permission_code() as u8,
            Self::ReadI18nDirectory(_) => no_permission_code() as u8,
            Self::WriteOnFile(_) => no_permission_code() as u8,
            Self::AlreadyExistingLanguage(_) => cannot_create_code() as u8,
            _ => 1,
        }
    }
}

} // verus!
