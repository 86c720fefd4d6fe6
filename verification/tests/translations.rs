use i18nrs::errors::I18nError;
use i18nrs::files::{FileRead, FileWrite};
use i18nrs::language::Language;
use i18nrs::scanner::DirEntry;
use i18nrs::translations::{ExportPlan, ScannedFile, Translation, Translations};

fn language(name: &str, text: &str) -> Language {
    Language::new("i18n", name, FileRead::Text(text.to_string())).unwrap()
}

fn set_of(languages: Vec<Language>) -> Translations {
    Translations { i18n_dir: "i18n".to_string(), languages }
}

fn file(name: &str, text: &str) -> ScannedFile {
    ScannedFile {
        entry: DirEntry::Named(name.to_string()),
        read: FileRead::Text(text.to_string()),
    }
}

fn keys(language: &Language) -> Vec<String> {
    let mut all = Vec::new();
    for i in 0..language.translations.len() {
        all.push(language.translations.key_at(i).clone());
    }
    all
}

#[test]
fn new_loads_every_file_in_the_order_of_the_listing() {
    let listing = vec![
        file("en_US.json", "{\"name\": \"Bla\"}"),
        file("ar_SA.json", "{}"),
    ];
    let set = Translations::new("i18n", Ok(listing)).unwrap();
    assert_eq!(set.i18n_dir, "i18n");
    assert_eq!(set.languages.len(), 2);
    assert_eq!(set.languages[0], language("en_US", "{\"name\": \"Bla\"}"));
    assert_eq!(set.languages[1], language("ar_SA", "{}"));
    assert_eq!(set.languages[1].lang_file, "i18n/ar_SA.json");
}

#[test]
fn new_of_an_empty_directory_has_no_languages() {
    let set = Translations::new("i18n", Ok(Vec::new())).unwrap();
    assert!(set.languages.is_empty());
}

#[test]
fn new_fails_when_the_directory_cannot_be_listed() {
    match Translations::new("i18n", Err("Permission denied".to_string())) {
        Err(I18nError::ReadI18nDirectory(message)) => {
            assert_eq!(message, "'i18n', Permission denied")
        }
        other => panic!("unexpected result: {:?}", other),
    }
}

#[test]
fn new_fails_with_the_error_of_the_first_bad_entry() {
    let listing = vec![
        file("en_US.json", "{}"),
        ScannedFile {
            entry: DirEntry::NonUtf8("\"x\"".to_string()),
            read: FileRead::Missing,
        },
        ScannedFile {
            entry: DirEntry::Failed("Input/output error".to_string()),
            read: FileRead::Missing,
        },
    ];
    match Translations::new("i18n", Ok(listing)) {
        Err(I18nError::NonUtf8LanguageName(message)) => assert_eq!(message, "'\"x\"' is non-ut8"),
        other => panic!("unexpected result: {:?}", other),
    }
    let listing = vec![
        ScannedFile {
            entry: DirEntry::Failed("Input/output error".to_string()),
            read: FileRead::Missing,
        },
        file("en_US.json", "no json"),
    ];
    match Translations::new("i18n", Ok(listing)) {
        Err(I18nError::ReadLanguageFile(message)) => assert_eq!(message, "Input/output error"),
        other => panic!("unexpected result: {:?}", other),
    }
}

#[test]
fn new_fails_with_the_error_of_the_first_bad_file() {
    let listing = vec![file("en_US.json", "{}"), file("ar_SA.json", "[1]")];
    match Translations::new("i18n", Ok(listing)) {
        Err(I18nError::ParseJson(message)) => assert!(message.starts_with("'ar_SA', ")),
        other => panic!("unexpected result: {:?}", other),
    }
    let listing = vec![
        ScannedFile {
            entry: DirEntry::Named("fr.json".to_string()),
            read: FileRead::Failed("Permission denied".to_string()),
        },
        file("ar_SA.json", "[1]"),
    ];
    match Translations::new("i18n", Ok(listing)) {
        Err(I18nError::ReadLanguageFile(message)) => assert_eq!(message, "'fr', Permission denied"),
        other => panic!("unexpected result: {:?}", other),
    }
    let listing = vec![ScannedFile {
        entry: DirEntry::Named("fr.json".to_string()),
        read: FileRead::Missing,
    }];
    match Translations::new("i18n", Ok(listing)) {
        Err(I18nError::NonExistingLanguage(message)) => {
            assert_eq!(message, "There is not language named 'fr'")
        }
        other => panic!("unexpected result: {:?}", other),
    }
}

#[test]
fn update_translation_adds_and_overwrites() {
    let mut set = set_of(vec![language("ar_SA", "{}"), language("en_US", "{}")]);
    set.update_translation(&Translation { lang_name: "en_US", key: "name", translation: "Bla" })
        .unwrap();
    assert_eq!(set.languages[1].translations.get("name"), Some(&"Bla".to_string()));
    assert!(set.languages[0].translations.is_empty());
    set.update_translation(&Translation {
        lang_name: "en_US",
        key: "name",
        translation: "Bla Bla",
    })
    .unwrap();
    assert_eq!(set.languages[1].translations.get("name"), Some(&"Bla Bla".to_string()));
    assert_eq!(set.languages[1].translations.len(), 1);
}

#[test]
fn update_translation_fails_for_a_language_that_is_not_there() {
    let mut set = set_of(vec![language("ar_SA", "{}")]);
    let result =
        set.update_translation(&Translation { lang_name: "en_US", key: "name", translation: "Bla" });
    match result {
        Err(I18nError::NonExistingLanguage(message)) => assert_eq!(message, "'en_US' is not exists"),
        other => panic!("unexpected result: {:?}", other),
    }
    assert_eq!(set.languages, vec![language("ar_SA", "{}")]);
    let mut empty = set_of(Vec::new());
    let result =
        empty.update_translation(&Translation { lang_name: "en_US", key: "k", translation: "v" });
    assert!(matches!(result, Err(I18nError::NonExistingLanguage(_))));
}

#[test]
fn translation_from_a_triple() {
    let translation = Translation::from(("en_US", "name", "Bla"));
    assert_eq!(translation.lang_name, "en_US");
    assert_eq!(translation.key, "name");
    assert_eq!(translation.translation, "Bla");
    let translation: Translation = ("a", "b", "c").into();
    assert_eq!(
        (translation.lang_name, translation.key, translation.translation),
        ("a", "b", "c")
    );
}

#[test]
fn delete_translation_removes_the_key_from_every_language() {
    let mut set = set_of(vec![
        language("en_US", "{\"name\": \"Bla\", \"age\": \"12\"}"),
        language("ar_SA", "{\"name\": \"\"}"),
        language("fr", "{\"age\": \"douze\"}"),
    ]);
    set.delete_translation("name").unwrap();
    assert_eq!(
        set.languages,
        vec![
            language("en_US", "{\"age\": \"12\"}"),
            language("ar_SA", "{}"),
            language("fr", "{\"age\": \"douze\"}"),
        ]
    );
}

#[test]
fn delete_translation_fails_for_a_key_that_no_language_holds() {
    let mut set = set_of(vec![language("en_US", "{\"name\": \"Bla\"}"), language("ar_SA", "{}")]);
    match set.delete_translation("age") {
        Err(I18nError::NonExistingKey(message)) => {
            assert_eq!(message, "There is no key named 'age' in the translations")
        }
        other => panic!("unexpected result: {:?}", other),
    }
    assert_eq!(set.languages[0], language("en_US", "{\"name\": \"Bla\"}"));
}

#[test]
fn operations_on_an_empty_set_fail_for_want_of_languages() {
    let mut set = set_of(Vec::new());
    match set.delete_translation("name") {
        Err(I18nError::ThereIsNoLanguages(message)) => {
            assert_eq!(message, "There is no languages in 'i18n'")
        }
        other => panic!("unexpected result: {:?}", other),
    }
    match set.to_table("en_US", 80) {
        Err(I18nError::ThereIsNoLanguages(message)) => {
            assert_eq!(message, "There is no languages in 'i18n'")
        }
        other => panic!("unexpected result: {:?}", other),
    }
    match set.delete_language("en_US") {
        Err(I18nError::ThereIsNoLanguages(message)) => {
            assert_eq!(message, "There is no languages in 'i18n'")
        }
        other => panic!("unexpected result: {:?}", other),
    }
}

#[test]
fn to_table_fails_for_a_language_without_translations() {
    let set = set_of(vec![language("en_US", "{}")]);
    match set.to_table("en_US", 80) {
        Err(I18nError::ThereIsNoTranslations(message)) => {
            assert_eq!(message, "There is no translations in `en_US`")
        }
        other => panic!("unexpected result: {:?}", other),
    }
}

#[test]
fn to_table_fails_for_a_language_that_is_not_there() {
    let set = set_of(vec![language("en_US", "{}")]);
    match set.to_table("ar_SA", 80) {
        Err(I18nError::NonExistingLanguage(message)) => {
            assert_eq!(message, "There is no language named 'ar_SA'")
        }
        other => panic!("unexpected result: {:?}", other),
    }
}

#[test]
fn to_table_is_the_table_of_the_language() {
    let set = set_of(vec![language("ar_SA", "{}"), language("en_US", "{\"name\": \"Bla\"}")]);
    assert_eq!(
        set.to_table("en_US", 30).unwrap(),
        set.languages[1].to_table(30).unwrap()
    );
    assert!(set.to_table("en_US", 30).unwrap().contains("name"));
}

#[test]
fn delete_language_takes_the_language_out() {
    let mut set = set_of(vec![language("en_US", "{}"), language("ar_SA", "{\"a\": \"b\"}")]);
    let deletion = set.delete_language("en_US").unwrap();
    assert_eq!(deletion.path, "i18n/en_US.json");
    assert_eq!(set.languages, vec![language("ar_SA", "{\"a\": \"b\"}")]);
}

#[test]
fn delete_language_fails_for_a_language_that_is_not_there() {
    let mut set = set_of(vec![language("en_US", "{}")]);
    match set.delete_language("ar_SA") {
        Err(I18nError::NonExistingLanguage(message)) => {
            assert_eq!(message, "There is no language named 'ar_SA'")
        }
        other => panic!("unexpected result: {:?}", other),
    }
    assert_eq!(set.languages.len(), 1);
}

#[test]
fn new_language_file_is_an_empty_object() {
    let set = set_of(Vec::new());
    assert_eq!(
        set.new_language_file("en_US", false).unwrap(),
        FileWrite {
            lang_name: "en_US".to_string(),
            path: "i18n/en_US.json".to_string(),
            content: "{}".to_string(),
        }
    );
}

#[test]
fn new_language_file_fails_for_a_file_that_exists() {
    let set = set_of(vec![language("en_US", "{}")]);
    match set.new_language_file("en_US", true) {
        Err(I18nError::AlreadyExistingLanguage(message)) => {
            assert_eq!(message, "'en_US' is already exists")
        }
        other => panic!("unexpected result: {:?}", other),
    }
}

#[test]
fn add_language_puts_the_language_behind_the_others() {
    let mut set = set_of(vec![language("en_US", "{\"name\": \"Bla\"}")]);
    {
        let added = set.add_language("ar_SA", Ok(FileRead::Text("{}".to_string()))).unwrap();
        assert_eq!(added, &language("ar_SA", "{}"));
    }
    assert_eq!(
        set.languages,
        vec![language("en_US", "{\"name\": \"Bla\"}"), language("ar_SA", "{}")]
    );
}

#[test]
fn add_language_fails_when_the_file_was_not_written() {
    let mut set = set_of(Vec::new());
    match set.add_language("ar_SA", Err("Permission denied".to_string())) {
        Err(I18nError::WriteOnFile(message)) => assert_eq!(message, "'ar_SA', Permission denied"),
        other => panic!("unexpected result: {:?}", other),
    }
    assert!(set.languages.is_empty());
}

#[test]
fn add_language_fails_when_the_file_is_not_read_back() {
    let mut set = set_of(Vec::new());
    assert!(matches!(
        set.add_language("ar_SA", Ok(FileRead::Missing)),
        Err(I18nError::NonExistingLanguage(_))
    ));
    assert!(matches!(
        set.add_language("ar_SA", Ok(FileRead::Failed("x".to_string()))),
        Err(I18nError::ReadLanguageFile(_))
    ));
    assert!(matches!(
        set.add_language("ar_SA", Ok(FileRead::Text("x".to_string()))),
        Err(I18nError::ParseJson(_))
    ));
    assert!(set.languages.is_empty());
}

#[test]
fn fill_missing_keys_gives_every_language_every_key() {
    let mut set = set_of(vec![
        language("en_US", "{\"name\": \"Bla\"}"),
        language("ar_SA", "{}"),
        language("fr", "{\"age\": \"douze\", \"name\": \"Nom\"}"),
    ]);
    set.fill_missing_keys();
    assert_eq!(
        set.languages,
        vec![
            language("en_US", "{\"age\": \"\", \"name\": \"Bla\"}"),
            language("ar_SA", "{\"age\": \"\", \"name\": \"\"}"),
            language("fr", "{\"age\": \"douze\", \"name\": \"Nom\"}"),
        ]
    );
    for one in &set.languages {
        for other in &set.languages {
            assert_eq!(keys(one), keys(other));
        }
    }
}

#[test]
fn fill_missing_keys_twice_changes_nothing_more() {
    let mut set = set_of(vec![
        language("en_US", "{\"name\": \"Bla\", \"z\": \"\"}"),
        language("ar_SA", "{\"a\": \"b\"}"),
    ]);
    set.fill_missing_keys();
    let once = set.languages.clone();
    set.fill_missing_keys();
    assert_eq!(set.languages, once);
}

#[test]
fn fill_missing_keys_of_an_empty_set_does_nothing() {
    let mut set = set_of(Vec::new());
    set.fill_missing_keys();
    assert!(set.languages.is_empty());
    let mut set = set_of(vec![language("en_US", "{}"), language("ar_SA", "{}")]);
    set.fill_missing_keys();
    assert_eq!(set.languages, vec![language("en_US", "{}"), language("ar_SA", "{}")]);
}

#[test]
fn export_fills_the_keys_and_writes_every_language() {
    let mut set = set_of(vec![language("en_US", "{\"name\": \"Bla\"}"), language("ar_SA", "{}")]);
    let plan = set.export();
    assert!(plan.failure.is_none());
    assert_eq!(
        plan.writes,
        vec![
            FileWrite {
                lang_name: "en_US".to_string(),
                path: "i18n/en_US.json".to_string(),
                content: "{\n  \"name\": \"Bla\"\n}".to_string(),
            },
            FileWrite {
                lang_name: "ar_SA".to_string(),
                path: "i18n/ar_SA.json".to_string(),
                content: "{\n  \"name\": \"\"\n}".to_string(),
            },
        ]
    );
    assert_eq!(set.languages[1].translations.get("name"), Some(&String::new()));
    assert_eq!(keys(&set.languages[0]), keys(&set.languages[1]));
}

#[test]
fn export_of_an_empty_set_writes_nothing() {
    let mut set = set_of(Vec::new());
    let plan = set.export();
    assert!(plan.writes.is_empty());
    assert!(plan.failure.is_none());
}

#[test]
fn files_of_different_names_give_languages_of_different_names() {
    let listing = vec![file("a.json", "{\"x\": \"1\"}"), file("a.json.json", "{\"y\": \"2\"}")];
    let set = Translations::new("i18n", Ok(listing)).unwrap();
    assert_eq!(set.languages[0].lang_name, "a");
    assert_eq!(set.languages[0].lang_file, "i18n/a.json");
    assert_eq!(set.languages[1].lang_name, "a.json");
    assert_eq!(set.languages[1].lang_file, "i18n/a.json.json");
    assert!(set.languages[1].translations.contains_key("y"));
}

#[test]
fn outcome_of_an_export_whose_writes_were_made_is_ok() {
    let mut set = set_of(vec![language("en_US", "{}"), language("ar_SA", "{}")]);
    let plan = set.export();
    assert!(plan.outcome(None).is_ok());
}

#[test]
fn outcome_of_an_export_with_a_failed_write_is_its_write_error() {
    let mut set = set_of(vec![language("en_US", "{}"), language("ar_SA", "{}")]);
    let plan = set.export();
    match plan.outcome(Some((1, "Permission denied"))) {
        Err(I18nError::WriteOnFile(message)) => assert_eq!(message, "'ar_SA', Permission denied"),
        other => panic!("unexpected result: {:?}", other),
    }
    match plan.outcome(Some((0, "No space left on device"))) {
        Err(I18nError::WriteOnFile(message)) => {
            assert_eq!(message, "'en_US', No space left on device")
        }
        other => panic!("unexpected result: {:?}", other),
    }
}

#[test]
fn outcome_of_a_plan_that_ends_with_an_error_is_that_error() {
    let plan = ExportPlan {
        writes: Vec::new(),
        failure: Some(I18nError::ParseJson("'en_US', key must be a string".to_string())),
    };
    match plan.outcome(None) {
        Err(I18nError::ParseJson(message)) => {
            assert_eq!(message, "'en_US', key must be a string")
        }
        other => panic!("unexpected result: {:?}", other),
    }
}
