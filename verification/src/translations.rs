//! The translation set: all languages of one directory, and the operations
//! that keep their keys the same.

use vstd::prelude::*;
use vstd::string::*;
use crate::errors::{I18nError, I18nResult};
use crate::files::{
    language_file, language_path, named_detail, with_name, FileDelete, FileRead, FileWrite,
    FileWriteView,
};
use crate::json::json_text;
use crate::entries::{has_key, lemma_has_key_take, map_of};
use crate::keymap::KeyMap;
use crate::language::{
    is_table_of, load_fails_with, loads_as, no_translations_message, Language, LanguageView,
};
use crate::reconcile::{
    all_keys, filled, lemma_reconcile_keeps_same_keys, lemma_reconciled_same_keys,
    lemma_some_language_take, reconciled, same_keys, some_language_has_key,
};
use crate::scanner::{entry_name, language_name_of, non_utf8_message, DirEntry};
use crate::text::{enclose, is_suffix_of, lemma_suffix_splits, str_eq};

verus! {

/// All languages found in one directory.
#[derive(Debug)]
pub struct Translations {
    pub i18n_dir: String,
    pub languages: Vec<Language>,
}

/// A translation set as plain values.
pub struct TranslationsView {
    pub i18n_dir: Seq<char>,
    pub languages: Seq<LanguageView>,
}

/// The languages of a vector as plain values.
pub open spec fn language_views(languages: Seq<Language>) -> Seq<LanguageView> {
    Seq::new(languages.len(), |i: int| languages[i]@)
}

impl View for Translations {
    type V = TranslationsView;

    open spec fn view(&self) -> TranslationsView {
        TranslationsView {
            i18n_dir: self.i18n_dir@,
            languages: language_views(self.languages@),
        }
    }
}

/// A translation to put into a language.
pub struct Translation<'a> {
    pub lang_name: &'a str,
    pub key: &'a str,
    pub translation: &'a str,
}

impl<'a> From<(&'a str, &'a str, &'a str)> for Translation<'a> {
    fn from(parts: (&'a str, &'a str, &'a str)) -> (translation: Self) {
        Translation { lang_name: parts.0, key: parts.1, translation: parts.2 }
    }
}

impl<'a> vstd::std_specs::convert::FromSpecImpl<(&'a str, &'a str, &'a str)> for Translation<'a> {
    open spec fn obeys_from_spec() -> bool {
        true
    }

    /// The language's name, the key and the translation, in this order.
    open spec fn from_spec(parts: (&'a str, &'a str, &'a str)) -> Self {
        Translation { lang_name: parts.0, key: parts.1, translation: parts.2 }
    }
}

/// One entry of the directory's listing, with what reading the file of its
/// language gave. For an entry without a name the reading is not looked at.
#[derive(Debug)]
pub struct ScannedFile {
    pub entry: DirEntry,
    pub read: FileRead,
}

/// What an export asks for: the writes to make, first to last, and the error
/// to end with once all of them are made. Where a write fails, the export
/// ends there, with the error that `FileWrite::failed` gives.
#[derive(Debug)]
pub struct ExportPlan {
    pub writes: Vec<FileWrite>,
    pub failure: Option<I18nError>,
}

/// Some language of the sequence has the given name.
pub open spec fn has_language(languages: Seq<LanguageView>, name: Seq<char>) -> bool {
    exists|i: int| 0 <= i < languages.len() && (#[trigger] languages[i]).lang_name == name
}

/// The language at `i` is the first of the given name.
pub open spec fn is_first_named(languages: Seq<LanguageView>, name: Seq<char>, i: int) -> bool {
    &&& 0 <= i < languages.len()
    &&& languages[i].lang_name == name
    &&& forall|j: int| 0 <= j < i ==> (#[trigger] languages[j]).lang_name != name
}

/// The place of the first language of the given name.
pub open spec fn first_named(languages: Seq<LanguageView>, name: Seq<char>) -> int {
    choose|i: int| is_first_named(languages, name, i)
}

/// No two languages of the sequence have the same name.
pub open spec fn names_unique(languages: Seq<LanguageView>) -> bool {
    forall|i: int, j: int|
        0 <= i < j < languages.len() ==> (#[trigger] languages[i]).lang_name != (
        #[trigger] languages[j]).lang_name
}

/// The languages after the first of the given name was given a translation.
pub open spec fn with_translation(
    languages: Seq<LanguageView>,
    lang_name: Seq<char>,
    key: Seq<char>,
    value: Seq<char>,
) -> Seq<LanguageView> {
    let at = first_named(languages, lang_name);
    languages.update(
        at,
        LanguageView {
            translations: languages[at].translations.insert(key, value),
            ..languages[at]
        },
    )
}

/// The languages, each without the key.
pub open spec fn without_key(languages: Seq<LanguageView>, key: Seq<char>) -> Seq<LanguageView> {
    Seq::new(
        languages.len(),
        |i: int|
            LanguageView { translations: languages[i].translations.remove(key), ..languages[i] },
    )
}

/// The name of the file of an entry, where the entry has one.
pub open spec fn file_name_of(entry: DirEntry) -> Option<Seq<char>> {
    match entry {
        DirEntry::Named(file_name) => Some(file_name@),
        _ => None,
    }
}

/// Every file has a name that ends with `.json`, and no two files have the
/// same name.
pub open spec fn distinct_json_files(files: Seq<ScannedFile>) -> bool {
    &&& forall|i: int|
        0 <= i < files.len() ==> (file_name_of((#[trigger] files[i]).entry) matches Some(name)
            && is_suffix_of(".json"@, name))
    &&& forall|i: int, j: int|
        0 <= i < j < files.len() ==> file_name_of((#[trigger] files[i]).entry) != file_name_of(
            (#[trigger] files[j]).entry,
        )
}

/// The language that a scanned file gives, where it gives one.
pub open spec fn file_language(i18n_dir: Seq<char>, file: ScannedFile) -> Option<LanguageView> {
    match file.entry {
        DirEntry::Named(file_name) => loads_as(i18n_dir, language_name_of(file_name@), file.read),
        _ => None,
    }
}

/// The error with which a scanned file fails to give a language.
pub open spec fn file_fails_with(file: ScannedFile, error: I18nError) -> bool {
    match file.entry {
        DirEntry::Failed(detail) => error matches I18nError::ReadLanguageFile(m) && m@ == detail@,
        DirEntry::NonUtf8(shown) => error matches I18nError::NonUtf8LanguageName(m) && m@
            == non_utf8_message(shown@),
        DirEntry::Named(file_name) => load_fails_with(
            language_name_of(file_name@),
            file.read,
            error,
        ),
    }
}

/// The file at `n` is the first that gives no language.
pub open spec fn is_first_failing(i18n_dir: Seq<char>, files: Seq<ScannedFile>, n: int) -> bool {
    &&& 0 <= n < files.len()
    &&& file_language(i18n_dir, files[n]) is None
    &&& forall|i: int| 0 <= i < n ==> file_language(i18n_dir, #[trigger] files[i]) is Some
}

/// The write that puts a language of the set into its file.
pub open spec fn write_of(language: LanguageView) -> FileWriteView {
    FileWriteView {
        lang_name: language.lang_name,
        path: language.lang_file,
        content: json_text(language.translations),
    }
}

/// The plan is that of exporting the languages: one write for each language,
/// in their order, and no error to end with.
pub open spec fn is_plan_for(languages: Seq<LanguageView>, plan: ExportPlan) -> bool {
    &&& plan.failure is None
    &&& plan.writes@.len() == languages.len()
    &&& forall|i: int|
        0 <= i < languages.len() ==> (#[trigger] plan.writes@[i])@ == write_of(languages[i])
}

/// How an export ends, once its writes were made up to the first that
/// failed: with a write error for that write, and where none failed, with
/// the plan's own error or well.
pub open spec fn is_outcome_of(
    plan: ExportPlan,
    failed: Option<(usize, &str)>,
    r: I18nResult<()>,
) -> bool {
    match failed {
        Some((n, detail)) => r matches Err(I18nError::WriteOnFile(m)) && m@ == named_detail(
            plan.writes@[n as int]@.lang_name,
            detail@,
        ),
        None => match plan.failure {
            Some(error) => r == Err::<(), I18nError>(error),
            None => r is Ok,
        },
    }
}

/// The message for a language that is to get a translation and is not in
/// the set.
pub open spec fn not_exists_message(lang_name: Seq<char>) -> Seq<char> {
    "'"@ + lang_name + "' is not exists"@
}

/// The message for a set without languages.
pub open spec fn no_languages_message(i18n_dir: Seq<char>) -> Seq<char> {
    "There is no languages in '"@ + i18n_dir + "'"@
}

/// The message for a key that no language holds.
pub open spec fn no_key_message(key: Seq<char>) -> Seq<char> {
    "There is no key named '"@ + key + "' in the translations"@
}

/// The message for a language that the set does not hold.
pub open spec fn no_such_language_message(lang_name: Seq<char>) -> Seq<char> {
    "There is no language named '"@ + lang_name + "'"@
}

/// The message for a language whose file is there already.
pub open spec fn already_exists_message(lang_name: Seq<char>) -> Seq<char> {
    "'"@ + lang_name + "' is already exists"@
}

/// Where a language has the given name, there is a first of that name.
pub proof fn lemma_first_named(languages: Seq<LanguageView>, lang_name: Seq<char>, at: int)
    requires
        0 <= at < languages.len(),
        languages[at].lang_name == lang_name,
    ensures
        is_first_named(languages, lang_name, first_named(languages, lang_name)),
        first_named(languages, lang_name) <= at,
    decreases at,
{
    if exists|j: int| 0 <= j < at && (#[trigger] languages[j]).lang_name == lang_name {
        let j = choose|j: int| 0 <= j < at && (#[trigger] languages[j]).lang_name == lang_name;
        lemma_first_named(languages, lang_name, j);
    } else {
        assert(is_first_named(languages, lang_name, at));
        let first = first_named(languages, lang_name);
        if first > at {
            assert(languages[at].lang_name != lang_name);
        }
    }
}

/// The languages loaded from files with names that end with `.json`, no two
/// of them the same, have names of which no two are the same.
pub proof fn lemma_loaded_names_unique(
    i18n_dir: Seq<char>,
    files: Seq<ScannedFile>,
    languages: Seq<LanguageView>,
)
    requires
        distinct_json_files(files),
        languages.len() == files.len(),
        forall|i: int|
            0 <= i < files.len() ==> file_language(i18n_dir, #[trigger] files[i]) == Some(
                languages[i],
            ),
    ensures
        names_unique(languages),
{
    assert forall|i: int, j: int| 0 <= i < j < languages.len() implies (
    #[trigger] languages[i]).lang_name != (#[trigger] languages[j]).lang_name by {
        let a = file_name_of(files[i].entry)->0;
        let b = file_name_of(files[j].entry)->0;
        assert(file_language(i18n_dir, files[i]) == Some(languages[i]));
        assert(file_language(i18n_dir, files[j]) == Some(languages[j]));
        assert(languages[i].lang_name == language_name_of(a));
        assert(languages[j].lang_name == language_name_of(b));
        lemma_suffix_splits(".json"@, a);
        lemma_suffix_splits(".json"@, b);
    }
}

/// Where no two languages of a set have the same name, none have after a
/// change of the set: not after filling the keys, after taking a key out,
/// after giving a language a translation or after taking a language out, and
/// not after adding a language whose name the set did not hold.
pub proof fn lemma_names_stay_unique(
    languages: Seq<LanguageView>,
    lang_name: Seq<char>,
    key: Seq<char>,
    value: Seq<char>,
    added: LanguageView,
)
    requires
        names_unique(languages),
    ensures
        names_unique(reconciled(languages)),
        names_unique(without_key(languages, key)),
        has_language(languages, lang_name) ==> names_unique(
            with_translation(languages, lang_name, key, value),
        ) && names_unique(languages.remove(first_named(languages, lang_name))),
        !has_language(languages, added.lang_name) ==> names_unique(languages.push(added)),
{
    let filled = reconciled(languages);
    assert forall|i: int, j: int| 0 <= i < j < filled.len() implies (
    #[trigger] filled[i]).lang_name != (#[trigger] filled[j]).lang_name by {
        assert(languages[i].lang_name != languages[j].lang_name);
    }
    let fewer = without_key(languages, key);
    assert forall|i: int, j: int| 0 <= i < j < fewer.len() implies (#[trigger] fewer[i]).lang_name
        != (#[trigger] fewer[j]).lang_name by {
        assert(languages[i].lang_name != languages[j].lang_name);
    }
    if has_language(languages, lang_name) {
        let at = choose|i: int|
            0 <= i < languages.len() && (#[trigger] languages[i]).lang_name == lang_name;
        lemma_first_named(languages, lang_name, at);
        let first = first_named(languages, lang_name);
        let changed = with_translation(languages, lang_name, key, value);
        assert forall|i: int, j: int| 0 <= i < j < changed.len() implies (
        #[trigger] changed[i]).lang_name != (#[trigger] changed[j]).lang_name by {
            assert(languages[i].lang_name != languages[j].lang_name);
        }
        let rest = languages.remove(first);
        assert forall|i: int, j: int| 0 <= i < j < rest.len() implies (
        #[trigger] rest[i]).lang_name != (#[trigger] rest[j]).lang_name by {
            let a = if i < first { i } else { i + 1 };
            let b = if j < first { j } else { j + 1 };
            assert(rest[i] == languages[a] && rest[j] == languages[b]);
            assert(languages[a].lang_name != languages[b].lang_name);
        }
    }
    if !has_language(languages, added.lang_name) {
        let more = languages.push(added);
        assert forall|i: int, j: int| 0 <= i < j < more.len() implies (
        #[trigger] more[i]).lang_name != (#[trigger] more[j]).lang_name by {
            if j < languages.len() {
                assert(more[i] == languages[i] && more[j] == languages[j]);
                assert(languages[i].lang_name != languages[j].lang_name);
            } else {
                assert(more[i] == languages[i]);
                assert(languages[i].lang_name != added.lang_name);
            }
        }
    }
}

/// An error that says that the set holds no language of the given name.
fn no_such_language(lang_name: &str) -> (e: I18nError)
    ensures
        e matches I18nError::NonExistingLanguage(m) && m@ == no_such_language_message(lang_name@),
{
    I18nError::NonExistingLanguage(enclose("There is no language named '", lang_name, "'"))
}

impl ExportPlan {
    /// How the export ends, given the first write that failed, by its place
    /// in the plan and why it failed, or that none failed: a write that
    /// failed ends the export with its write error; where all were made, the
    /// export ends with the plan's own error, or well.
    pub fn outcome(&self, failed: Option<(usize, &str)>) -> (r: I18nResult<()>)
        requires
            failed matches Some((n, _)) ==> n < self.writes.len(),
        ensures
            is_outcome_of(*self, failed, r),
    {
        match failed {
            Some((n, detail)) => Err(self.writes[n].failed(detail)),
            None => match &self.failure {
                Some(error) => Err(error.clone()),
                None => Ok(()),
            },
        }
    }
}

impl Translations {
    /// Create a new ['Translations'] instance from what scanning the
    /// directory gave: its entries, each with the reading of its file, or why
    /// the directory could not be listed. The first entry that gives no
    /// language ends the loading with its error. Where the files have names
    /// that end with `.json`, no two of them the same, no two languages of
    /// the set have the same name.
    #[verifier::loop_isolation(false)]
    pub fn new(i18n_dir: &str, listing: Result<Vec<ScannedFile>, String>) -> (r: I18nResult<Self>)
        ensures
            listing matches Err(detail) ==> (r matches Err(I18nError::ReadI18nDirectory(m)) && m@
                == named_detail(i18n_dir@, detail@)),
            listing matches Ok(files) ==> match r {
                Ok(set) => set@.i18n_dir == i18n_dir@ && set@.languages.len() == files.len()
                    && forall|i: int|
                    0 <= i < files.len() ==> file_language(i18n_dir@, #[trigger] files@[i])
                        == Some(set@.languages[i]),
                Err(error) => exists|n: int|
                    is_first_failing(i18n_dir@, files@, n) && file_fails_with(
                        #[trigger] files@[n],
                        error,
                    ),
            },
            listing matches Ok(files) ==> (r matches Ok(set) ==> (distinct_json_files(files@)
                ==> names_unique(set@.languages))),
    {
        match listing {
            Err(detail) => Err(I18nError::ReadI18nDirectory(with_name(i18n_dir, detail.as_str()))),
            Ok(files) => {
                let ghost all = files@;
                let mut languages: Vec<Language> = Vec::new();
                for file in it: files
                    invariant
                        it.seq() == all,
                        languages.len() == it.index(),
                        forall|i: int|
                            0 <= i < languages.len() ==> file_language(i18n_dir@, #[trigger] all[i])
                                == Some(languages@[i]@),
                {
                    let ghost n = languages.len() as int;
                    assert(file == all[n]);
                    let loaded = match entry_name(file.entry) {
                        Err(error) => Err(error),
                        Ok(Err(error)) => Err(error),
                        Ok(Ok(name)) => Language::new(i18n_dir, name.as_str(), file.read),
                    };
                    match loaded {
                        Ok(language) => {
                            languages.push(language);
                        },
                        Err(error) => {
                            assert(is_first_failing(i18n_dir@, all, n));
                            assert(file_fails_with(all[n], error));
                            return Err(error);
                        },
                    }
                }
                let set = Translations { i18n_dir: i18n_dir.to_owned(), languages };
                assert forall|i: int| 0 <= i < all.len() implies file_language(
                    i18n_dir@,
                    #[trigger] all[i],
                ) == Some(set@.languages[i]) by {
                    assert(set@.languages[i] == languages@[i]@);
                }
                proof {
                    if distinct_json_files(all) {
                        lemma_loaded_names_unique(i18n_dir@, all, set@.languages);
                    }
                }
                Ok(set)
            },
        }
    }

    /// The place of the first language of the given name, if there is one.
    fn find_language(&self, lang_name: &str) -> (found: Option<usize>)
        ensures
            found is Some <==> has_language(self@.languages, lang_name@),
            found matches Some(at) ==> is_first_named(self@.languages, lang_name@, at as int)
                && at == first_named(self@.languages, lang_name@),
    {
        let mut i: usize = 0;
        while i < self.languages.len()
            invariant
                i <= self.languages.len(),
                forall|j: int|
                    0 <= j < i ==> (#[trigger] self@.languages[j]).lang_name != lang_name@,
            decreases self.languages.len() - i,
        {
            if str_eq(self.languages[i].lang_name.as_str(), lang_name) {
                proof {
                    assert(self@.languages[i as int].lang_name == lang_name@);
                    lemma_first_named(self@.languages, lang_name@, i as int);
                    let first = first_named(self@.languages, lang_name@);
                    if first < i {
                        assert(self@.languages[first].lang_name != lang_name@);
                    }
                }
                return Some(i);
            }
            i += 1;
        }
        None
    }

    /// An error that says that the set has no languages.
    fn no_languages(&self) -> (e: I18nError)
        ensures
            e matches I18nError::ThereIsNoLanguages(m) && m@ == no_languages_message(
                self@.i18n_dir,
            ),
    {
        I18nError::ThereIsNoLanguages(
            enclose("There is no languages in '", self.i18n_dir.as_str(), "'"),
        )
    }

    /// Return table of translations for specific language: the table of the
    /// first language of the given name.
    pub fn to_table(&self, lang_name: &str, width: u16) -> (r: I18nResult<String>)
        ensures
            r is Ok <==> has_language(self@.languages, lang_name@) && self@.languages[first_named(
                self@.languages,
                lang_name@,
            )].translations.len() != 0,
            r matches Ok(text) ==> is_table_of(
                self.languages@[first_named(self@.languages, lang_name@)].translations.entries(),
                width,
                text@,
            ),
            self@.languages.len() == 0 ==> (r matches Err(I18nError::ThereIsNoLanguages(m)) && m@
                == no_languages_message(self@.i18n_dir)),
            self@.languages.len() != 0 && !has_language(self@.languages, lang_name@) ==> (
            r matches Err(I18nError::NonExistingLanguage(m)) && m@ == no_such_language_message(
                lang_name@,
            )),
            has_language(self@.languages, lang_name@) && r is Err ==> (r matches Err(
                I18nError::ThereIsNoTranslations(m),
            ) && m@ == no_translations_message(lang_name@)),
    {
        if self.languages.len() == 0 {
            return Err(self.no_languages());
        }
        match self.find_language(lang_name) {
            Some(at) => {
                assert(self@.languages[at as int] == self.languages@[at as int]@);
                self.languages[at].to_table(width)
            },
            None => Err(no_such_language(lang_name)),
        }
    }

    /// The keys that any language of the set holds.
    fn union_of_keys(&self) -> (union: KeyMap)
        ensures
            union@.dom() == all_keys(self@.languages),
    {
        let ghost languages = self@.languages;
        let mut union = KeyMap::new();
        let mut a: usize = 0;
        assert(union@.dom() =~= all_keys(languages.take(0))) by {
            assert forall|key: Seq<char>| !all_keys(languages.take(0)).contains(key) by {
                if languages.len() > 0 {
                    lemma_some_language_take(languages, 0, key);
                }
            }
        }
        while a < self.languages.len()
            invariant
                a <= self.languages.len(),
                languages == self@.languages,
                union@.dom() == all_keys(languages.take(a as int)),
            decreases self.languages.len() - a,
        {
            let language = &self.languages[a];
            let ghost entries = language.translations.entries();
            let count = language.translations.len();
            let ghost seen = union@.dom();
            let mut k: usize = 0;
            assert(union@.dom() =~= seen + map_of(entries.take(0)).dom());
            while k < count
                invariant
                    k <= count,
                    count == entries.len(),
                    entries == language.translations.entries(),
                    union@.dom() == seen + map_of(entries.take(k as int)).dom(),
                decreases count - k,
            {
                let key = language.translations.key_at(k);
                if !union.contains_key(key.as_str()) {
                    union.insert(key.clone(), String::new());
                }
                proof {
                    assert forall|other: Seq<char>| #[trigger]
                        has_key(entries.take(k + 1), other) <==> has_key(
                            entries.take(k as int),
                            other,
                        ) || other == key@ by {
                        lemma_has_key_take(entries, k as int, other);
                    }
                    assert(union@.dom() =~= seen + map_of(entries.take(k + 1)).dom());
                }
                k += 1;
            }
            proof {
                assert(entries.take(entries.len() as int) =~= entries);
                assert(languages[a as int].translations == language.translations@);
                assert forall|key: Seq<char>| #[trigger]
                    all_keys(languages.take(a + 1)).contains(key) <==> all_keys(
                        languages.take(a as int),
                    ).contains(key) || languages[a as int].translations.contains_key(key) by {
                    lemma_some_language_take(languages, a as int, key);
                }
                assert(union@.dom() =~= all_keys(languages.take(a + 1)));
            }
            a += 1;
        }
        proof {
            assert(languages.take(languages.len() as int) =~= languages);
        }
        union
    }

    /// Fill the missing keys for each language: every language gets each key
    /// that any language holds, with an empty translation where it had none.
    /// Afterwards any two languages hold the same keys; where they did so
    /// before, nothing changes.
    pub fn fill_missing_keys(&mut self)
        ensures
            final(self)@ == (TranslationsView {
                languages: reconciled(old(self)@.languages),
                ..old(self)@
            }),
            same_keys(final(self)@.languages),
            same_keys(old(self)@.languages) ==> final(self)@ == old(self)@,
    {
        let union = self.union_of_keys();
        let ghost before = self@.languages;
        let ghost keys = union.entries();
        let count = union.len();
        let mut b: usize = 0;
        while b < self.languages.len()
            invariant
                b <= self.languages.len(),
                self.languages.len() == before.len(),
                self@.i18n_dir == old(self)@.i18n_dir,
                keys == union.entries(),
                count == keys.len(),
                union@.dom() == all_keys(before),
                forall|j: int|
                    0 <= j < b ==> #[trigger] self@.languages[j] == reconciled(before)[j],
                forall|j: int| b <= j < before.len() ==> #[trigger] self@.languages[j] == before[j],
            decreases self.languages.len() - b,
        {
            let ghost earlier = self@.languages;
            let ghost held = before[b as int].translations;
            assert(earlier[b as int] == before[b as int]);
            let mut k: usize = 0;
            while k < count
                invariant
                    k <= count,
                    b < self.languages.len(),
                    self.languages.len() == before.len(),
                    earlier.len() == before.len(),
                    self@.i18n_dir == old(self)@.i18n_dir,
                    keys == union.entries(),
                    count == keys.len(),
                    held == before[b as int].translations,
                    forall|j: int|
                        0 <= j < before.len() && j != b ==> #[trigger] self@.languages[j]
                            == earlier[j],
                    self@.languages[b as int].lang_name == before[b as int].lang_name,
                    self@.languages[b as int].lang_file == before[b as int].lang_file,
                    self@.languages[b as int].translations == filled(
                        held,
                        map_of(keys.take(k as int)).dom(),
                    ),
                decreases count - k,
            {
                let key = union.key_at(k);
                let ghost inner = self@.languages;
                if !self.languages[b].translations.contains_key(key.as_str()) {
                    self.languages[b].translations.insert(key.clone(), String::new());
                }
                proof {
                    assert forall|j: int| 0 <= j < before.len() && j != b implies (
                    #[trigger] self@.languages[j]) == earlier[j] by {
                        assert(self@.languages[j] == inner[j]);
                    }
                    assert forall|other: Seq<char>| #[trigger]
                        has_key(keys.take(k + 1), other) <==> has_key(keys.take(k as int), other)
                            || other == key@ by {
                        lemma_has_key_take(keys, k as int, other);
                    }
                    assert(self@.languages[b as int].translations =~= filled(
                        held,
                        map_of(keys.take(k + 1)).dom(),
                    ));
                }
                k += 1;
            }
            proof {
                assert(keys.take(keys.len() as int) =~= keys);
                assert(self@.languages[b as int] == reconciled(before)[b as int]);
                assert forall|j: int| 0 <= j < b + 1 implies #[trigger] self@.languages[j]
                    == reconciled(before)[j] by {
                    if j < b {
                        assert(self@.languages[j] == earlier[j]);
                    }
                }
                assert forall|j: int| b + 1 <= j < before.len() implies (
                #[trigger] self@.languages[j]) == before[j] by {
                    assert(self@.languages[j] == earlier[j]);
                }
            }
            b += 1;
        }
        proof {
            assert(self@.languages =~= reconciled(before));
            lemma_reconciled_same_keys(before);
            if same_keys(before) {
                lemma_reconcile_keeps_same_keys(before);
            }
        }
    }

    /// Add/Update translation
    pub fn update_translation(&mut self, translation: &Translation) -> (r: I18nResult<()>)
        ensures
            has_language(old(self)@.languages, translation.lang_name@) ==> r is Ok && final(self)@
                == (TranslationsView {
                languages: with_translation(
                    old(self)@.languages,
                    translation.lang_name@,
                    translation.key@,
                    translation.translation@,
                ),
                ..old(self)@
            }),
            !has_language(old(self)@.languages, translation.lang_name@) ==> (r matches Err(
                I18nError::NonExistingLanguage(m),
            ) && m@ == not_exists_message(translation.lang_name@)) && final(self)@ == old(self)@,
    {
        match self.find_language(translation.lang_name) {
            Some(at) => {
                self.languages[at].set(translation.key, translation.translation);
                assert(self@.languages =~= with_translation(
                    old(self)@.languages,
                    translation.lang_name@,
                    translation.key@,
                    translation.translation@,
                ));
                Ok(())
            },
            None => Err(
                I18nError::NonExistingLanguage(
                    enclose("'", translation.lang_name, "' is not exists"),
                ),
            ),
        }
    }

    /// Delete translation
    pub fn delete_translation(&mut self, key: &str) -> (r: I18nResult<()>)
        ensures
            old(self)@.languages.len() == 0 ==> (r matches Err(I18nError::ThereIsNoLanguages(m))
                && m@ == no_languages_message(old(self)@.i18n_dir)) && final(self)@ == old(self)@,
            old(self)@.languages.len() != 0 && !some_language_has_key(old(self)@.languages, key@)
                ==> (r matches Err(I18nError::NonExistingKey(m)) && m@ == no_key_message(key@))
                && final(self)@ == old(self)@,
            some_language_has_key(old(self)@.languages, key@) ==> r is Ok && final(self)@ == (
            TranslationsView {
                languages: without_key(old(self)@.languages, key@),
                ..old(self)@
            }),
    {
        if self.languages.len() == 0 {
            return Err(self.no_languages());
        }
        let mut found = false;
        let mut i: usize = 0;
        while i < self.languages.len()
            invariant
                i <= self.languages.len(),
                found <==> some_language_has_key(self@.languages.take(i as int), key@),
            decreases self.languages.len() - i,
        {
            proof {
                lemma_some_language_take(self@.languages, i as int, key@);
            }
            if self.languages[i].translations.contains_key(key) {
                found = true;
            }
            i += 1;
        }
        assert(self@.languages.take(i as int) =~= self@.languages);
        if !found {
            return Err(
                I18nError::NonExistingKey(
                    enclose("There is no key named '", key, "' in the translations"),
                ),
            );
        }
        let ghost before = self@.languages;
        let mut i: usize = 0;
        while i < self.languages.len()
            invariant
                i <= self.languages.len(),
                self.languages.len() == before.len(),
                self@.i18n_dir == old(self)@.i18n_dir,
                forall|j: int|
                    0 <= j < i ==> #[trigger] self@.languages[j] == without_key(before, key@)[j],
                forall|j: int| i <= j < before.len() ==> #[trigger] self@.languages[j] == before[j],
            decreases self.languages.len() - i,
        {
            let ghost earlier = self@.languages;
            assert(earlier[i as int] == before[i as int]);
            self.languages[i].remove(key);
            assert forall|j: int| 0 <= j < i + 1 implies #[trigger] self@.languages[j]
                == without_key(before, key@)[j] by {
                if j < i {
                    assert(self@.languages[j] == earlier[j]);
                }
            }
            assert forall|j: int| i + 1 <= j < before.len() implies #[trigger] self@.languages[j]
                == before[j] by {
                assert(self@.languages[j] == earlier[j]);
            }
            i += 1;
        }
        assert(self@.languages =~= without_key(before, key@));
        Ok(())
    }

    /// Delete language: takes the first language of the given name out of the
    /// set and returns the deletion of its file, which is still to be done.
    pub fn delete_language(&mut self, lang_name: &str) -> (r: I18nResult<FileDelete>)
        ensures
            old(self)@.languages.len() == 0 ==> (r matches Err(I18nError::ThereIsNoLanguages(m))
                && m@ == no_languages_message(old(self)@.i18n_dir)) && final(self)@ == old(self)@,
            old(self)@.languages.len() != 0 && !has_language(old(self)@.languages, lang_name@) ==> (
            r matches Err(I18nError::NonExistingLanguage(m)) && m@ == no_such_language_message(
                lang_name@,
            )) && final(self)@ == old(self)@,
            has_language(old(self)@.languages, lang_name@) ==> (r matches Ok(deletion)
                && deletion.path@ == language_path(old(self)@.i18n_dir, lang_name@))
                && final(self)@ == (TranslationsView {
                languages: old(self)@.languages.remove(
                    first_named(old(self)@.languages, lang_name@),
                ),
                ..old(self)@
            }),
    {
        if self.languages.len() == 0 {
            return Err(self.no_languages());
        }
        match self.find_language(lang_name) {
            Some(at) => {
                self.languages.remove(at);
                assert(self@.languages =~= old(self)@.languages.remove(at as int));
                Ok(FileDelete { path: language_file(self.i18n_dir.as_str(), lang_name) })
            },
            None => Err(no_such_language(lang_name)),
        }
    }

    /// The first step of adding a language: the write that makes its file, an
    /// empty JSON object, unless the file exists already.
    pub fn new_language_file(&self, lang_name: &str, exists: bool) -> (r: I18nResult<FileWrite>)
        ensures
            exists ==> (r matches Err(I18nError::AlreadyExistingLanguage(m)) && m@
                == already_exists_message(lang_name@)),
            !exists ==> (r matches Ok(write) && write@ == (FileWriteView {
                lang_name: lang_name@,
                path: language_path(self@.i18n_dir, lang_name@),
                content: "{}"@,
            })),
    {
        if exists {
            Err(I18nError::AlreadyExistingLanguage(enclose("'", lang_name, "' is already exists")))
        } else {
            Ok(
                FileWrite {
                    lang_name: lang_name.to_owned(),
                    path: language_file(self.i18n_dir.as_str(), lang_name),
                    content: "{}".to_owned(),
                },
            )
        }
    }

    /// Add new language, given how making its file went: why the write
    /// failed, or what reading the file afterwards gave. The language loaded
    /// from the file is put behind the others.
    pub fn add_language(&mut self, lang_name: &str, written: Result<FileRead, String>) -> (r:
        I18nResult<&Language>)
        ensures
            written matches Err(detail) ==> (r matches Err(I18nError::WriteOnFile(m)) && m@
                == named_detail(lang_name@, detail@)) && final(self)@ == old(self)@,
            written matches Ok(file) ==> match loads_as(old(self)@.i18n_dir, lang_name@, file) {
                Some(loaded) => (r matches Ok(language) && language@ == loaded) && final(self)@ == (
                TranslationsView {
                    languages: old(self)@.languages.push(loaded),
                    ..old(self)@
                }),
                None => (r matches Err(error) && load_fails_with(lang_name@, file, error))
                    && final(self)@ == old(self)@,
            },
    {
        match written {
            Err(detail) => Err(I18nError::WriteOnFile(with_name(lang_name, detail.as_str()))),
            Ok(file) => match Language::new(self.i18n_dir.as_str(), lang_name, file) {
                Ok(language) => {
                    self.languages.push(language);
                    assert(self@.languages =~= old(self)@.languages.push(language@));
                    let last = self.languages.len() - 1;
                    Ok(&self.languages[last])
                },
                Err(error) => Err(error),
            },
        }
    }

    /// Exports translations to files: fills the missing keys, and plans the
    /// write of every language to its file, in the order of the languages.
    #[verifier::loop_isolation(false)]
    pub fn export(&mut self) -> (plan: ExportPlan)
        ensures
            final(self)@ == (TranslationsView {
                languages: reconciled(old(self)@.languages),
                ..old(self)@
            }),
            same_keys(final(self)@.languages),
            is_plan_for(final(self)@.languages, plan),
    {
        self.fill_missing_keys();
        let mut writes: Vec<FileWrite> = Vec::new();
        let mut i: usize = 0;
        while i < self.languages.len()
            invariant
                i <= self.languages.len(),
                writes.len() == i,
                forall|j: int|
                    0 <= j < i ==> (#[trigger] writes@[j])@ == write_of(self@.languages[j]),
            decreases self.languages.len() - i,
        {
            assert(self@.languages[i as int] == self.languages@[i as int]@);
            match self.languages[i].write() {
                Ok(write) => {
                    writes.push(write);
                },
                Err(error) => {
                    return ExportPlan { writes, failure: Some(error) };
                },
            }
            i += 1;
        }
        ExportPlan { writes, failure: None }
    }
}

} // verus!
