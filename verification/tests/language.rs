use i18nrs::errors::I18nError;
use i18nrs::files::{language_file, with_name, FileDelete, FileRead, FileWrite};
use i18nrs::language::Language;
use i18nrs::table::KeyColor;

fn load(text: &str) -> Language {
    Language::new("i18n", "en_US", FileRead::Text(text.to_string())).unwrap()
}

fn entries(language: &Language) -> Vec<(String, String)> {
    let mut all = Vec::new();
    for i in 0..language.translations.len() {
        all.push((
            language.translations.key_at(i).clone(),
            language.translations.value_at(i).clone(),
        ));
    }
    all
}

#[test]
fn language_file_is_in_the_directory() {
    assert_eq!(language_file("i18n", "en_US"), "i18n/en_US.json");
    assert_eq!(language_file("", ""), "/.json");
}

#[test]
fn with_name_quotes_the_name() {
    assert_eq!(with_name("en_US", "bad"), "'en_US', bad");
}

#[test]
fn new_reads_the_keys_of_the_file() {
    let language = load("{\"name\": \"Bla\", \"age\": \"12\"}");
    assert_eq!(language.lang_name, "en_US");
    assert_eq!(language.lang_file, "i18n/en_US.json");
    assert_eq!(
        entries(&language),
        vec![
            ("age".to_string(), "12".to_string()),
            ("name".to_string(), "Bla".to_string())
        ]
    );
}

#[test]
fn new_reads_an_empty_object() {
    let language = load("{}");
    assert!(language.translations.is_empty());
    assert_eq!(language.translations.len(), 0);
}

#[test]
fn new_keeps_the_last_of_a_repeated_key() {
    let language = load("{\"a\": \"1\", \"a\": \"2\"}");
    assert_eq!(entries(&language), vec![("a".to_string(), "2".to_string())]);
}

#[test]
fn new_fails_for_a_missing_file() {
    match Language::new("i18n", "en_US", FileRead::Missing) {
        Err(I18nError::NonExistingLanguage(message)) => {
            assert_eq!(message, "There is not language named 'en_US'")
        }
        other => panic!("unexpected result: {:?}", other),
    }
}

#[test]
fn new_fails_for_a_file_that_cannot_be_read() {
    match Language::new("i18n", "en_US", FileRead::Failed("Permission denied".to_string())) {
        Err(I18nError::ReadLanguageFile(message)) => {
            assert_eq!(message, "'en_US', Permission denied")
        }
        other => panic!("unexpected result: {:?}", other),
    }
}

#[test]
fn new_fails_for_text_that_is_no_json() {
    match Language::new("i18n", "en_US", FileRead::Text("{".to_string())) {
        Err(I18nError::ParseJson(message)) => assert!(message.starts_with("'en_US', ")),
        other => panic!("unexpected result: {:?}", other),
    }
}

#[test]
fn new_fails_for_json_of_another_shape() {
    for text in ["[]", "{\"a\": 1}", "{\"a\": {\"b\": \"c\"}}", "\"a\"", "", "{} {}"] {
        let result = Language::new("i18n", "en_US", FileRead::Text(text.to_string()));
        assert!(matches!(result, Err(I18nError::ParseJson(_))));
    }
}

#[test]
fn set_adds_and_overwrites() {
    let mut language = load("{}");
    language.set("name", "Bla");
    assert_eq!(language.translations.get("name"), Some(&"Bla".to_string()));
    language.set("name", "Bla Bla");
    assert_eq!(language.translations.get("name"), Some(&"Bla Bla".to_string()));
    assert_eq!(language.translations.len(), 1);
    assert_eq!(language.lang_name, "en_US");
}

#[test]
fn remove_tells_whether_the_key_was_there() {
    let mut language = load("{\"name\": \"Bla\"}");
    assert!(language.remove("name"));
    assert!(!language.remove("name"));
    assert!(language.translations.is_empty());
}

#[test]
fn serialize_prints_the_keys_in_their_order() {
    let mut language = load("{}");
    assert_eq!(language.serialize().unwrap(), "{}");
    language.set("b", "2");
    language.set("a", "1");
    assert_eq!(
        language.serialize().unwrap(),
        "{\n  \"a\": \"1\",\n  \"b\": \"2\"\n}"
    );
}

#[test]
fn serialize_then_load_gives_the_same_map() {
    let mut language = load("{}");
    language.set("name", "Bla");
    language.set("", "");
    language.set("quote\"d", "back\\slash");
    language.set("line\nbreak", "tab\there \u{0}\u{1f}");
    language.set("مرحبا", "🔤 🦀");
    language.set("a.b", "{\"nested\": \"no\"}");
    let text = language.serialize().unwrap();
    let again = Language::new("i18n", "en_US", FileRead::Text(text)).unwrap();
    assert_eq!(again, language);
    assert_eq!(again.translations, language.translations);
}

#[test]
fn write_goes_to_the_file_of_the_language() {
    let mut language = load("{}");
    language.set("name", "Bla");
    assert_eq!(
        language.write().unwrap(),
        FileWrite {
            lang_name: "en_US".to_string(),
            path: "i18n/en_US.json".to_string(),
            content: "{\n  \"name\": \"Bla\"\n}".to_string(),
        }
    );
}

#[test]
fn a_failed_write_is_a_write_error() {
    let write = load("{}").write().unwrap();
    match write.failed("Permission denied") {
        I18nError::WriteOnFile(message) => assert_eq!(message, "'en_US', Permission denied"),
        other => panic!("unexpected error: {:?}", other),
    }
}

#[test]
fn a_failed_deletion_is_a_delete_error() {
    let deletion = FileDelete { path: "i18n/en_US.json".to_string() };
    match deletion.failed("Permission denied") {
        I18nError::DeleteFile(message) => assert_eq!(message, "Permission denied"),
        other => panic!("unexpected error: {:?}", other),
    }
}

#[test]
fn rows_change_colour_every_three_keys() {
    let mut language = load("{}");
    for key in ["a", "b", "c", "d", "e", "f", "g", "h", "i", "j"] {
        language.set(key, key.to_uppercase().as_str());
    }
    let rows = language.rows();
    assert_eq!(rows.len(), 10);
    let colors: Vec<KeyColor> = rows.iter().map(|row| row.color).collect();
    assert_eq!(
        colors,
        vec![
            KeyColor::DarkYellow,
            KeyColor::DarkYellow,
            KeyColor::DarkYellow,
            KeyColor::DarkCyan,
            KeyColor::DarkCyan,
            KeyColor::DarkCyan,
            KeyColor::DarkBlue,
            KeyColor::DarkBlue,
            KeyColor::DarkBlue,
            KeyColor::DarkYellow,
        ]
    );
    assert_eq!(rows[0].key, "a");
    assert_eq!(rows[0].translation, "A");
    assert_eq!(rows[9].key, "j");
    assert_eq!(rows[9].translation, "J");
}

#[test]
fn rows_of_an_empty_language_are_none() {
    assert!(load("{}").rows().is_empty());
}

#[test]
fn to_table_fails_without_translations() {
    match load("{}").to_table(80) {
        Err(I18nError::ThereIsNoTranslations(message)) => {
            assert_eq!(message, "There is no translations in `en_US`")
        }
        other => panic!("unexpected result: {:?}", other),
    }
}

#[test]
fn to_table_shows_the_keys_and_their_translations() {
    let language = load("{\"name\": \"Bla\", \"age\": \"12\"}");
    let table = language.to_table(40).unwrap();
    let lines: Vec<&str> = table.lines().collect();
    assert_eq!(lines.len(), 5);
    assert!(lines[0].contains("Key") && lines[0].contains("Translation"));
    assert!(lines[1].contains("──"));
    assert!(lines[2].contains("age") && lines[2].contains("12"));
    assert!(lines[3].contains("──"));
    assert!(lines[4].contains("name") && lines[4].contains("Bla"));
    for line in lines {
        assert_eq!(line.chars().count(), 40);
    }
}

#[test]
fn to_table_is_drawn_for_any_width() {
    let language = load("{\"name\": \"Bla\", \"age\": \"12\"}");
    for width in [0, 1, 7, 8, 80, 65535] {
        let table = language.to_table(width).unwrap();
        assert!(table.contains('K') && table.contains('B'));
    }
}

#[test]
fn clone_is_the_same_language() {
    let language = load("{\"name\": \"Bla\"}");
    assert_eq!(language.clone(), language);
}
