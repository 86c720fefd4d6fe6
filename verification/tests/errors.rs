use i18nrs::errors::I18nError;

fn all_kinds() -> Vec<(I18nError, &'static str, u8)> {
    vec![
        (I18nError::NonExistingLanguage("a".to_string()), "NonExistingLanguage", 1),
        (I18nError::NonExistingKey("b".to_string()), "NonExistingKey", 1),
        (I18nError::AlreadyExistingLanguage("c".to_string()), "AlreadyExistingLanguage", 73),
        (I18nError::ReadI18nDirectory("d".to_string()), "ReadI18nDirectory", 77),
        (I18nError::ReadLanguageFile("e".to_string()), "ReadLanguageFile", 77),
        (I18nError::NonUtf8LanguageName("f".to_string()), "NonUtf8LanguageName", 1),
        (I18nError::ParseJson("g".to_string()), "ParseJson", 1),
        (I18nError::WriteOnFile("h".to_string()), "WriteOnFile", 77),
        (I18nError::ThereIsNoLanguages("i".to_string()), "ThereIsNoLanguages", 1),
        (I18nError::ThereIsNoTranslations("j".to_string()), "ThereIsNoTranslations", 1),
        (I18nError::DeleteFile("k".to_string()), "DeleteFile", 77),
    ]
}

#[test]
fn name_is_that_of_the_kind() {
    for (error, name, _) in all_kinds() {
        assert_eq!(error.name(), name);
    }
}

#[test]
fn msg_is_the_detail() {
    let details = ["a", "b", "c", "d", "e", "f", "g", "h", "i", "j", "k"];
    for (i, (error, _, _)) in all_kinds().iter().enumerate() {
        assert_eq!(error.msg(), details[i]);
    }
    assert_eq!(I18nError::ParseJson(String::new()).msg(), "");
}

#[test]
fn exit_status_goes_by_the_kind() {
    for (error, _, status) in all_kinds() {
        assert_eq!(error.exit_status(), status);
    }
}

#[test]
fn exit_status_of_permission_errors_is_that_of_the_exitcode_crate() {
    assert_eq!(
        I18nError::DeleteFile(String::new()).exit_status() as i32,
        exitcode::NOPERM
    );
    assert_eq!(
        I18nError::AlreadyExistingLanguage(String::new()).exit_status() as i32,
        exitcode::CANTCREAT
    );
}

#[test]
fn clone_is_the_same_error() {
    for (error, name, status) in all_kinds() {
        let copy = error.clone();
        assert_eq!(copy.name(), name);
        assert_eq!(copy.msg(), error.msg());
        assert_eq!(copy.exit_status(), status);
    }
}
