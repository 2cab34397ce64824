use std::io;
use steamvr_launcher::steam_language::{
    language_index, language_or_default, language_value, LanguageError, LANGUAGES,
};

#[test]
fn test_languages_not_empty() {
    assert!(!LANGUAGES.is_empty());
    assert!(LANGUAGES.len() >= 10);
}

#[test]
fn test_languages_no_duplicate_values() {
    let mut values: Vec<&str> = LANGUAGES.iter().map(|(_, v)| *v).collect();
    values.sort();
    values.dedup();
    assert_eq!(values.len(), LANGUAGES.len());
}

#[test]
fn language_index_finds_each_value() {
    for (i, (_, value)) in LANGUAGES.iter().enumerate() {
        assert_eq!(language_index(value), i);
        assert_eq!(language_value(i), *value);
    }
    assert_eq!(language_index("schinese"), 1);
    assert_eq!(language_index("polish"), 12);
}

#[test]
fn language_index_unknown_is_english() {
    assert_eq!(language_index("klingon"), 0);
    assert_eq!(language_index(""), 0);
    assert_eq!(language_index("English"), 0);
}

#[test]
fn language_default_is_english() {
    assert_eq!(language_or_default(None), "english");
    assert_eq!(language_or_default(Some("german".to_string())), "german");
}

#[test]
fn language_error_messages() {
    assert_eq!(LanguageError::RegistryRead("x".to_string()).message(), "读取注册表失败: x");
    assert_eq!(LanguageError::RegistryWrite("y".to_string()).message(), "写入注册表失败: y");
    let e: LanguageError = io::Error::new(io::ErrorKind::Other, "denied").into();
    match e {
        LanguageError::RegistryRead(msg) => assert_eq!(msg, "denied"),
        _ => panic!("expected a read error"),
    }
}
