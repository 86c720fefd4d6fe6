//! One language of the translation set: its name, the file that holds it,
//! and its key map.

use vstd::prelude::*;
use vstd::string::*;
use crate::errors::{I18nError, I18nResult};
use crate::files::{
    language_file, language_path, named_detail, with_name, FileRead, FileWrite, FileWriteView,
};
use crate::json::{error_text, json_object, json_text, read_object, write_object};
use crate::entries::sorted_by_key;
use crate::keymap::KeyMap;
use crate::table::{
    add_row, fill_width, load_preset, new_table, set_header, set_width, table_drawing,
    table_header, table_rows, table_text, table_width, KeyColor, TableRow,
};
use crate::text::enclose;
use comfy_table::Table;

verus! {

/// A language as loaded from its file.
#[derive(Debug, PartialEq, Eq)]
pub struct Language {
    pub lang_name: String,
    pub lang_file: String,
    pub translations: KeyMap,
}

/// A language as plain values.
pub struct LanguageView {
    pub lang_name: Seq<char>,
    pub lang_file: Seq<char>,
    pub translations: Map<Seq<char>, Seq<char>>,
}

impl View for Language {
    type V = LanguageView;

    open spec fn view(&self) -> LanguageView {
        LanguageView {
            lang_name: self.lang_name@,
            lang_file: self.lang_file@,
            translations: self.translations@,
        }
    }
}

/// The message for a language that has no file.
pub open spec fn missing_language_message(lang_name: Seq<char>) -> Seq<char> {
    "There is not language named '"@ + lang_name + "'"@
}

/// The message for a language without translations.
pub open spec fn no_translations_message(lang_name: Seq<char>) -> Seq<char> {
    "There is no translations in `"@ + lang_name + "`"@
}

/// The language that loading gives, where it gives one: the file's text must
/// be a JSON object of strings.
pub open spec fn loads_as(i18n_dir: Seq<char>, lang_name: Seq<char>, file: FileRead) -> Option<
    LanguageView,
> {
    match file {
        FileRead::Text(text) => match json_object(text@) {
            Some(map) => Some(
                LanguageView {
                    lang_name,
                    lang_file: language_path(i18n_dir, lang_name),
                    translations: map,
                },
            ),
            None => None,
        },
        _ => None,
    }
}

/// The error with which loading fails: no such language where the file is
/// missing, a read error where it could not be read, and a parse error, whose
/// detail is the parser's, where its text is no JSON object of strings.
pub open spec fn load_fails_with(lang_name: Seq<char>, file: FileRead, error: I18nError) -> bool {
    match file {
        FileRead::Missing => error matches I18nError::NonExistingLanguage(m) && m@
            == missing_language_message(lang_name),
        FileRead::Failed(detail) => error matches I18nError::ReadLanguageFile(m) && m@
            == named_detail(lang_name, detail@),
        FileRead::Text(text) => is_parse_error(lang_name, error),
    }
}

/// The error is a parse error about the named language, with some detail.
pub open spec fn is_parse_error(lang_name: Seq<char>, error: I18nError) -> bool {
    error matches I18nError::ParseJson(m) && exists|detail: Seq<char>|
        m@ == named_detail(lang_name, detail)
}

/// The colour of the key in row `i`: three rows in one colour, then three in
/// the next, and after the third colour the first again.
pub open spec fn color_of_row(i: int) -> KeyColor {
    if (i / 3) % 3 == 0 {
        KeyColor::DarkYellow
    } else if (i / 3) % 3 == 1 {
        KeyColor::DarkCyan
    } else {
        KeyColor::DarkBlue
    }
}

/// The rows of the table of the given entries.
pub open spec fn rows_of(entries: Seq<(Seq<char>, Seq<char>)>) -> Seq<
    (Seq<char>, Seq<char>, KeyColor),
> {
    Seq::new(entries.len(), |i: int| (entries[i].0, entries[i].1, color_of_row(i)))
}

/// The rows of a vector as plain values.
pub open spec fn row_views(rows: Seq<TableRow>) -> Seq<(Seq<char>, Seq<char>, KeyColor)> {
    Seq::new(rows.len(), |i: int| rows[i]@)
}

/// The text is the drawing of the table of the given entries: a table under
/// the titles `Key` and `Translation`, told to keep to `width`, whose rows
/// are those of the entries; its cells are styled for a terminal or left
/// plain.
pub open spec fn is_table_of(
    entries: Seq<(Seq<char>, Seq<char>)>,
    width: u16,
    text: Seq<char>,
) -> bool {
    exists|table: Table, styled: bool|
        table_rows(table) == rows_of(entries) && table_header(table) == Some(
            ("Key"@, "Translation"@),
        ) && table_width(table) == Some(width) && text == #[trigger] table_drawing(table, styled)
}

/// A parse error about the named language, with the parser's message.
fn parse_error(lang_name: &str, error: &serde_json::Error) -> (e: I18nError)
    ensures
        is_parse_error(lang_name@, e),
{
    let detail = error_text(error);
    let message = with_name(lang_name, detail.as_str());
    assert(message@ == named_detail(lang_name@, detail@));
    I18nError::ParseJson(message)
}

/// A table of the given rows under the titles of their columns, to be drawn
/// to fill `width`.
fn table_of(rows: &Vec<TableRow>, width: u16) -> (table: Table)
    ensures
        table_rows(table) == row_views(rows@),
        table_header(table) == Some(("Key"@, "Translation"@)),
        table_width(table) == Some(width),
{
    let mut table = new_table();
    set_header(&mut table, "Key", "Translation");
    load_preset(&mut table, "     ──  ──        ");
    set_width(&mut table, width);
    fill_width(&mut table);
    let mut i: usize = 0;
    while i < rows.len()
        invariant
            i <= rows.len(),
            table_rows(table) == row_views(rows@).take(i as int),
            table_header(table) == Some(("Key"@, "Translation"@)),
            table_width(table) == Some(width),
        decreases rows.len() - i,
    {
        add_row(&mut table, &rows[i]);
        assert(row_views(rows@).take(i + 1) =~= row_views(rows@).take(i as int).push(
            rows@[i as int]@,
        ));
        i += 1;
    }
    assert(row_views(rows@).take(rows.len() as int) =~= row_views(rows@));
    table
}

impl Clone for Language {
    /// A language of the same name, file and key map.
    fn clone(&self) -> (copy: Self)
        ensures
            copy@ == self@,
    {
        Language {
            lang_name: self.lang_name.clone(),
            lang_file: self.lang_file.clone(),
            translations: self.translations.clone(),
        }
    }
}

impl Language {
    /// Create a new [`Language`] instance from what reading its file gave.
    pub fn new(i18n_dir: &str, lang_name: &str, file: FileRead) -> (r: I18nResult<Self>)
        ensures
            match loads_as(i18n_dir@, lang_name@, file) {
                Some(loaded) => r matches Ok(language) && language@ == loaded,
                None => r matches Err(error) && load_fails_with(lang_name@, file, error),
            },
    {
        match file {
            FileRead::Missing => Err(
                I18nError::NonExistingLanguage(
                    enclose("There is not language named '", lang_name, "'"),
                ),
            ),
            FileRead::Failed(detail) => Err(
                I18nError::ReadLanguageFile(with_name(lang_name, detail.as_str())),
            ),
            FileRead::Text(text) => match read_object(text.as_str()) {
                Ok(entries) => Ok(
                    Language {
                        lang_name: lang_name.to_owned(),
                        lang_file: language_file(i18n_dir, lang_name),
                        translations: KeyMap::from_entries(entries),
                    },
                ),
                Err(error) => Err(parse_error(lang_name, &error)),
            },
        }
    }

    /// Gives `key` the translation `value`, whether the language had the key
    /// or not.
    pub fn set(&mut self, key: &str, value: &str)
        ensures
            final(self)@ == (LanguageView {
                translations: old(self)@.translations.insert(key@, value@),
                ..old(self)@
            }),
    {
        self.translations.insert(key.to_owned(), value.to_owned());
    }

    /// Takes `key` out of the language; tells whether the language had it.
    pub fn remove(&mut self, key: &str) -> (had: bool)
        ensures
            had == old(self)@.translations.contains_key(key@),
            final(self)@ == (LanguageView {
                translations: old(self)@.translations.remove(key@),
                ..old(self)@
            }),
    {
        self.translations.remove(key).is_some()
    }

    /// The text of the language's file: its key map as pretty-printed JSON.
    /// Writing a map of strings does not fail.
    pub fn serialize(&self) -> (r: I18nResult<String>)
        ensures
            r matches Ok(written) && written@ == json_text(self@.translations),
    {
        match write_object(self.translations.as_entries()) {
            Ok(text) => Ok(text),
            Err(error) => Err(parse_error(self.lang_name.as_str(), &error)),
        }
    }

    /// The write that puts the language into its file.
    pub fn write(&self) -> (r: I18nResult<FileWrite>)
        ensures
            r matches Ok(write) && write@ == (FileWriteView {
                lang_name: self@.lang_name,
                path: self@.lang_file,
                content: json_text(self@.translations),
            }),
    {
        match self.serialize() {
            Ok(content) => Ok(
                FileWrite {
                    lang_name: self.lang_name.clone(),
                    path: self.lang_file.clone(),
                    content,
                },
            ),
            Err(error) => Err(error),
        }
    }

    /// The rows of the language's table: its keys in their order, each with
    /// its translation and in the colour of its row.
    pub fn rows(&self) -> (rows: Vec<TableRow>)
        ensures
            row_views(rows@) == rows_of(self.translations.entries()),
            sorted_by_key(self.translations.entries()),
            rows.len() == self@.translations.len(),
    {
        let mut color = KeyColor::DarkYellow;
        let mut counter: u8 = 0;
        let mut rows: Vec<TableRow> = Vec::new();
        let count = self.translations.len();
        let mut i: usize = 0;
        while i < count
            invariant
                i <= count,
                count == self.translations.entries().len(),
                counter == i % 3,
                color == color_of_row(i as int),
                rows.len() == i,
                forall|j: int|
                    0 <= j < i ==> (#[trigger] rows@[j])@ == rows_of(
                        self.translations.entries(),
                    )[j],
            decreases count - i,
        {
            rows.push(
                TableRow {
                    key: self.translations.key_at(i).clone(),
                    translation: self.translations.value_at(i).clone(),
                    color,
                },
            );
            counter += 1;
            if counter % 3 == 0 {
                color =
                match color {
                    KeyColor::DarkYellow => KeyColor::DarkCyan,
                    KeyColor::DarkCyan => KeyColor::DarkBlue,
                    KeyColor::DarkBlue => KeyColor::DarkYellow,
                };
                counter = 0;
            }
            i += 1;
        }
        assert(row_views(rows@) =~= rows_of(self.translations.entries()));
        rows
    }

    /// Make table from language translations: the keys beside their
    /// translations, in the order of the keys, drawn to fill `width`. A
    /// language without translations has no table.
    pub fn to_table(&self, width: u16) -> (r: I18nResult<String>)
        ensures
            r is Ok <==> self@.translations.len() != 0,
            r matches Ok(text) ==> is_table_of(self.translations.entries(), width, text@),
            r matches Err(e) ==> (e matches I18nError::ThereIsNoTranslations(m) && m@
                == no_translations_message(self@.lang_name)),
            sorted_by_key(self.translations.entries()),
    {
        let rows = self.rows();
        if rows.len() == 0 {
            return Err(
                I18nError::ThereIsNoTranslations(
                    enclose("There is no translations in `", self.lang_name.as_str(), "`"),
                ),
            );
        }
        let table = table_of(&rows, width);
        let text = table_text(&table);
        proof {
            let styled = choose|styled: bool| text@ == #[trigger] table_drawing(table, styled);
            assert(text@ == table_drawing(table, styled));
        }
        Ok(text)
    }
}

} // verus!
