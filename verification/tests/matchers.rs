use keyfile::parse::{parse_as_header, parse_as_key_value_pair};
use keyfile::types::{Language, Locale, Modifier};

#[test]
fn test_parse_as_header() {
    assert_eq!(
        parse_as_header("[hello world]"),
        Some(String::from("hello world"))
    );
    assert_eq!(
        parse_as_header("[Desktop Entry]"),
        Some(String::from("Desktop Entry"))
    );
    assert_eq!(
        parse_as_header("[Desktop Action new-window]"),
        Some(String::from("Desktop Action new-window"))
    );
}

#[test]
fn test_parse_key_value_pair() {
    assert_eq!(
        parse_as_key_value_pair("Name=Files").unwrap(),
        (
            String::from("Name"),
            None,
            String::from("Files"),
            String::new(),
            String::new()
        )
    );
    assert_eq!(
        parse_as_key_value_pair("Name[de] =Dateien").unwrap(),
        (
            String::from("Name"),
            Some(Locale::new(Language::try_from("de").unwrap(), None, None)),
            String::from("Dateien"),
            String::from(" "),
            String::new()
        ),
    );
    assert_eq!(
        parse_as_key_value_pair("Name[en_GB] = Files").unwrap(),
        (
            String::from("Name"),
            Some(Locale::new(
                Language::try_from("en").unwrap(),
                Some(keyfile::types::Country::try_from("GB").unwrap()),
                None
            )),
            String::from("Files"),
            String::from(" "),
            String::from(" ")
        )
    );
    assert_eq!(
        parse_as_key_value_pair("Name[sr@latin]= Datoteke").unwrap(),
        (
            String::from("Name"),
            Some(Locale::new(
                Language::try_from("sr").unwrap(),
                None,
                Some(Modifier::try_from("latin").unwrap())
            )),
            String::from("Datoteke"),
            String::new(),
            String::from(" ")
        )
    );
}

#[test]
fn header_rejects_malformed_lines() {
    assert_eq!(parse_as_header(""), None);
    assert_eq!(parse_as_header("[]"), None);
    assert_eq!(parse_as_header("[open"), None);
    assert_eq!(parse_as_header("closed]"), None);
    assert_eq!(parse_as_header("[nested[brackets]]"), None);
    assert_eq!(parse_as_header("[tab\there]"), None);
}

#[test]
fn key_value_rejects_malformed_lines() {
    assert_eq!(parse_as_key_value_pair(""), None);
    assert_eq!(parse_as_key_value_pair("=value"), None);
    assert_eq!(parse_as_key_value_pair("no separator"), None);
    assert_eq!(parse_as_key_value_pair("key[12]=x"), None);
    assert_eq!(parse_as_key_value_pair("key[de]x=1"), None);
    assert_eq!(parse_as_key_value_pair("key space=x"), None);
}

#[test]
fn key_value_keeps_whitespace_and_empty_value() {
    let (key, locale, value, wsl, wsr) = parse_as_key_value_pair("k\t = \t").unwrap();
    assert_eq!(key, "k");
    assert_eq!(locale, None);
    assert_eq!(value, "");
    assert_eq!(wsl, "\t ");
    assert_eq!(wsr, " \t");
}

#[test]
fn key_value_accepts_encoding_component() {
    let (key, locale, value, _, _) = parse_as_key_value_pair("Name[de_DE.UTF-8@euro]=x").unwrap();
    assert_eq!(key, "Name");
    let locale = locale.unwrap();
    assert_eq!(locale.get_lang(), "de");
    assert_eq!(locale.get_country(), Some("DE"));
    assert_eq!(locale.get_encoding(), Some("UTF-8"));
    assert_eq!(locale.get_modifier(), Some("euro"));
    assert_eq!(value, "x");
}
