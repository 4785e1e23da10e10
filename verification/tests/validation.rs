use keyfile::types::{
    Country, Decor, Encoding, GroupName, InvalidString, Key, Language, Locale, Modifier, Value,
    Whitespace,
};

#[test]
fn key_accepts_alphanumerics_and_hyphen() {
    let key = Key::try_from("abc-123").unwrap();
    assert_eq!(key.as_str(), "abc-123");
    assert_eq!(Key::try_from("abc def").unwrap_err(), InvalidString::Key);
    assert_eq!(Key::try_from("").unwrap_err(), InvalidString::Key);
}

#[test]
fn value_rejects_control_characters() {
    let value = Value::try_from("WORLD").unwrap();
    assert_eq!(value.as_str(), "WORLD");
    assert_eq!(Value::try_from("abc\ndef").unwrap_err(), InvalidString::Value);
    assert_eq!(Value::try_from("abc\rdef").unwrap_err(), InvalidString::Value);
    assert_eq!(Value::try_from("").unwrap().as_str(), "");
    assert_eq!(Value::try_from("non-ASCII is fine: äöü").unwrap().as_str(), "non-ASCII is fine: äöü");
}

#[test]
fn whitespace_accepts_blanks_only() {
    let ws = Whitespace::try_from("\t ").unwrap();
    assert_eq!(ws.as_str(), "\t ");
    assert_eq!(Whitespace::try_from("").unwrap().as_str(), "");
    assert_eq!(
        Whitespace::try_from("x").unwrap_err(),
        InvalidString::Whitespace
    );
}

#[test]
fn group_name_excludes_brackets() {
    let name = GroupName::try_from("Desktop Entry").unwrap();
    assert_eq!(name.as_str(), "Desktop Entry");
    assert_eq!(
        GroupName::try_from("[[[[[").unwrap_err(),
        InvalidString::GroupName
    );
    assert_eq!(
        GroupName::try_from("").unwrap_err(),
        InvalidString::GroupName
    );
    assert_eq!(
        GroupName::try_from("umlaut ä").unwrap_err(),
        InvalidString::GroupName
    );
}

#[test]
fn locale_components_are_alphabetic() {
    assert_eq!(Language::try_from("de").unwrap().as_str(), "de");
    assert_eq!(
        Language::try_from("42").unwrap_err(),
        InvalidString::Language
    );
    assert_eq!(Country::try_from("DE").unwrap().as_str(), "DE");
    assert_eq!(Country::try_from("!!").unwrap_err(), InvalidString::Country);
    assert_eq!(Modifier::try_from("latin").unwrap().as_str(), "latin");
    assert_eq!(
        Modifier::try_from("!foo!").unwrap_err(),
        InvalidString::Modifier
    );
    assert_eq!(Encoding::try_from("utf8").unwrap().as_str(), "utf8");
    assert_eq!(
        Encoding::try_from("morse!").unwrap_err(),
        InvalidString::Encoding
    );
}

#[test]
fn decor_lines_are_comments_or_empty() {
    let decor = Decor::try_from(vec![String::from("# This is a comment"), String::new()]).unwrap();
    assert_eq!(
        decor.into_vec(),
        vec![String::from("# This is a comment"), String::new()]
    );
    assert_eq!(
        Decor::try_from(vec![String::from("This=is not a comment")]).unwrap_err(),
        InvalidString::Decor
    );
}

#[test]
fn locale_parses_complete_identifiers_only() {
    let locale = Locale::try_from("de").unwrap();
    assert_eq!(locale.get_lang(), "de");
    assert_eq!(locale.get_country(), None);
    assert_eq!(locale.get_modifier(), None);
    assert_eq!(locale.get_encoding(), None);

    let locale = Locale::try_from("sr_RS@latin").unwrap();
    assert_eq!(locale.get_lang(), "sr");
    assert_eq!(locale.get_country(), Some("RS"));
    assert_eq!(locale.get_modifier(), Some("latin"));

    assert_eq!(Locale::try_from("42").unwrap_err(), InvalidString::Locale);
    assert_eq!(Locale::try_from("de!").unwrap_err(), InvalidString::Locale);
    assert_eq!(Locale::try_from("de_").unwrap_err(), InvalidString::Locale);
    assert_eq!(
        Locale::try_from("de_DE.UTF-8").unwrap_err(),
        InvalidString::Encoding
    );
}

#[test]
fn locale_renders_without_encoding() {
    let locale = Locale::new(
        Language::try_from("sr").unwrap(),
        Some(Country::try_from("RS").unwrap()),
        Some(Modifier::try_from("latin").unwrap()),
    );
    assert_eq!(locale.render(), "sr_RS@latin");
    let plain = Locale::new(Language::try_from("de").unwrap(), None, None);
    assert_eq!(plain.render(), "de");
}

#[test]
fn locale_setters_return_previous_values() {
    let mut locale = Locale::new(
        Language::try_from("de").unwrap(),
        Some(Country::try_from("DE").unwrap()),
        None,
    );
    let old = locale.set_lang(Language::try_from("fr").unwrap());
    assert_eq!(old, "de");
    assert_eq!(locale.get_lang(), "fr");
    let old = locale.set_country(None);
    assert_eq!(old, Some(String::from("DE")));
    assert_eq!(locale.get_country(), None);
    let old = locale.set_modifier(Some(Modifier::try_from("euro").unwrap()));
    assert_eq!(old, None);
    assert_eq!(locale.get_modifier(), Some("euro"));
    assert_eq!(locale.render(), "fr@euro");
}

#[test]
fn value_from_bool() {
    assert_eq!(Value::from_bool(true).as_str(), "true");
    assert_eq!(Value::from_bool(false).as_str(), "false");
}

#[test]
fn value_from_integers() {
    assert_eq!(Value::from_u64(0).as_str(), "0");
    assert_eq!(Value::from_u64(7).as_str(), "7");
    assert_eq!(Value::from_u64(1024).as_str(), "1024");
    assert_eq!(Value::from_u64(u64::MAX).as_str(), "18446744073709551615");
    assert_eq!(Value::from_i64(42).as_str(), "42");
    assert_eq!(Value::from_i64(0).as_str(), "0");
    assert_eq!(Value::from_i64(-1).as_str(), "-1");
    assert_eq!(Value::from_i64(-305441).as_str(), "-305441");
    assert_eq!(Value::from_i64(i64::MIN).as_str(), "-9223372036854775808");
}
