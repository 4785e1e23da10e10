use keyfile::types::{Decor, GroupName, Key, Language, Locale, Value, Whitespace};
use keyfile::{Group, KeyFile, KeyFileError, KeyValuePair};

#[test]
fn scenario_basic_group_round_trips() {
    let original = "[Hello World]\none=one\ntwo = two\n";
    let keyfile = KeyFile::parse(original).unwrap();

    let group = keyfile.get_group("Hello World").unwrap();
    assert_eq!(group.get_name(), "Hello World");
    assert_eq!(group.len(), 2);

    let one = group.get("one", None).unwrap();
    assert_eq!(one.get_value(), "one");
    assert_eq!(one.get_whitespace(), ("", ""));

    let two = group.get("two", None).unwrap();
    assert_eq!(two.get_value(), "two");
    assert_eq!(two.get_whitespace(), (" ", " "));

    assert_eq!(keyfile.render(), original);
}

#[test]
fn round_trip_preserves_comments_blanks_and_whitespace() {
    let original = "# header comment\n\n[Group One]\n# about alpha\nalpha\t=\t1\n\n[Group Two]\nbeta= 2\n\n# trailing comment\n";
    let keyfile = KeyFile::parse(original).unwrap();
    assert_eq!(keyfile.render(), original);
}

#[test]
fn round_trip_preserves_localized_entries() {
    let original = "[Desktop Entry]\nName=Files\nName[de]=Dateien\nName[sr@latin]= Datoteke\nName[en_GB] = Files\n";
    let keyfile = KeyFile::parse(original).unwrap();
    assert_eq!(keyfile.render(), original);
}

#[test]
fn scenario_localized_entry_fields() {
    let keyfile = KeyFile::parse("[G]\nName[de]=Dateien\n").unwrap();
    let group = keyfile.get_group("G").unwrap();
    let locale = Locale::new(Language::try_from("de").unwrap(), None, None);
    let entry = group.get("Name", Some(locale)).unwrap();
    assert_eq!(entry.get_key(), "Name");
    let locale = entry.get_locale().unwrap();
    assert_eq!(locale.get_lang(), "de");
    assert_eq!(locale.get_country(), None);
    assert_eq!(locale.get_modifier(), None);
    assert_eq!(entry.get_value(), "Dateien");
}

#[test]
fn scenario_key_value_before_any_header_is_invalid() {
    // This library reports a key-value line before the first group header as
    // an invalid line rather than silently dropping it, so that a parsed
    // document always renders back to its input.
    let err = KeyFile::parse("wrong=place\n[Group]\n").unwrap_err();
    match err {
        KeyFileError::InvalidLine { line, lineno } => {
            assert_eq!(line, "wrong=place");
            assert_eq!(lineno, 0);
        }
        _ => panic!("expected InvalidLine"),
    }
}

#[test]
fn scenario_into_owned_keeps_render() {
    let original = "# intro\n[Main]\nkey = value\n";
    let rendered;
    let owned;
    {
        let buffer = String::from(original);
        let parsed = KeyFile::parse(buffer.as_str()).unwrap();
        rendered = parsed.render();
        owned = parsed.into_owned();
    }
    assert_eq!(rendered, original);
    assert_eq!(owned.render(), original);
}

#[test]
fn duplicate_group_is_an_error() {
    let err = KeyFile::parse("[A]\nx=1\n[B]\n[A]\n").unwrap_err();
    match err {
        KeyFileError::DuplicateGroup { name, lineno } => {
            assert_eq!(name, "A");
            assert_eq!(lineno, 3);
        }
        _ => panic!("expected DuplicateGroup"),
    }
}

#[test]
fn adjacent_duplicate_group_is_an_error() {
    let err = KeyFile::parse("[A]\n[A]\n").unwrap_err();
    match err {
        KeyFileError::DuplicateGroup { name, lineno } => {
            assert_eq!(name, "A");
            assert_eq!(lineno, 1);
        }
        _ => panic!("expected DuplicateGroup"),
    }
}

#[test]
fn duplicate_key_is_an_error() {
    let err = KeyFile::parse("[A]\nx=1\ny=2\nx=3\n").unwrap_err();
    match err {
        KeyFileError::DuplicateKey { key, lineno } => {
            assert_eq!(key, "x");
            assert_eq!(lineno, 3);
        }
        _ => panic!("expected DuplicateKey"),
    }
}

#[test]
fn duplicate_localized_key_reports_locale() {
    let err = KeyFile::parse("[A]\nName[de]=a\nName[de]=b\n").unwrap_err();
    match err {
        KeyFileError::DuplicateKey { key, lineno } => {
            assert_eq!(key, "Name[de]");
            assert_eq!(lineno, 2);
        }
        _ => panic!("expected DuplicateKey"),
    }
}

#[test]
fn same_key_under_different_locales_is_allowed() {
    let keyfile = KeyFile::parse("[A]\nName=plain\nName[de]=german\nName[fr]=french\n").unwrap();
    let group = keyfile.get_group("A").unwrap();
    assert_eq!(group.len(), 3);
    assert_eq!(group.get("Name", None).unwrap().get_value(), "plain");
    let de = Locale::new(Language::try_from("de").unwrap(), None, None);
    assert_eq!(group.get("Name", Some(de)).unwrap().get_value(), "german");
}

#[test]
fn invalid_line_is_an_error() {
    let err = KeyFile::parse("[A]\nthis is not a thing\n").unwrap_err();
    match err {
        KeyFileError::InvalidLine { line, lineno } => {
            assert_eq!(line, "this is not a thing");
            assert_eq!(lineno, 1);
        }
        _ => panic!("expected InvalidLine"),
    }
}

#[test]
fn encoding_component_is_rejected_at_parse_time() {
    // The grammar recognizes `.ENCODING` inside a locale, but a document
    // never holds one: only UTF-8 values are supported, and an entry whose
    // locale carries an encoding would not render back to its source line.
    let err = KeyFile::parse("[A]\nName[de.UTF-8]=x\n").unwrap_err();
    match err {
        KeyFileError::InvalidLine { line, lineno } => {
            assert_eq!(line, "Name[de.UTF-8]=x");
            assert_eq!(lineno, 1);
        }
        _ => panic!("expected InvalidLine"),
    }
}

#[test]
fn insert_replaces_in_place_and_returns_previous() {
    let original = "[A]\none=1\ntwo=2\nthree=3\n";
    let mut keyfile = KeyFile::parse(original).unwrap();
    let mut group = keyfile.remove_group("A").unwrap();

    let kv = KeyValuePair::from_fields(
        Key::try_from("two").unwrap(),
        None,
        Value::try_from("TWO").unwrap(),
        Whitespace::try_from("").unwrap(),
        Whitespace::try_from("").unwrap(),
        Decor::try_from(Vec::new()).unwrap(),
    );
    let previous = group.insert(kv).unwrap();
    assert_eq!(previous.get_value(), "2");
    assert_eq!(group.len(), 3);

    keyfile.insert_group(group);
    // The replaced entry keeps its original position.
    assert_eq!(keyfile.render(), "[A]\none=1\ntwo=TWO\nthree=3\n");
}

#[test]
fn insert_new_key_appends_last() {
    let mut keyfile = KeyFile::parse("[A]\none=1\n").unwrap();
    let mut group = keyfile.remove_group("A").unwrap();
    let kv = KeyValuePair::new(
        Key::try_from("two").unwrap(),
        Value::try_from("2").unwrap(),
    );
    assert!(group.insert(kv).is_none());
    keyfile.insert_group(group);
    assert_eq!(keyfile.render(), "[A]\none=1\ntwo = 2\n");
}

#[test]
fn insert_group_replaces_in_place_and_returns_previous() {
    let mut keyfile = KeyFile::parse("[A]\na=1\n[B]\nb=2\n[C]\nc=3\n").unwrap();
    let mut replacement = Group::new(GroupName::try_from("B").unwrap());
    replacement.insert(KeyValuePair::new(
        Key::try_from("fresh").unwrap(),
        Value::try_from("yes").unwrap(),
    ));
    let previous = keyfile.insert_group(replacement).unwrap();
    assert_eq!(previous.get_name(), "B");
    assert_eq!(previous.get("b", None).unwrap().get_value(), "2");
    // The replaced group keeps its original position.
    assert_eq!(keyfile.render(), "[A]\na=1\n[B]\nfresh = yes\n[C]\nc=3\n");
}

#[test]
fn removal_preserves_order_of_remaining() {
    let mut keyfile = KeyFile::parse("[A]\na=1\n[B]\nb=2\n[C]\nc=3\n").unwrap();
    let removed = keyfile.remove_group("B").unwrap();
    assert_eq!(removed.get_name(), "B");
    assert_eq!(keyfile.render(), "[A]\na=1\n[C]\nc=3\n");

    let mut keyfile = KeyFile::parse("[A]\none=1\ntwo=2\nthree=3\n").unwrap();
    let mut group = keyfile.remove_group("A").unwrap();
    let removed = group.remove("two", None).unwrap();
    assert_eq!(removed.get_value(), "2");
    keyfile.insert_group(group);
    assert_eq!(keyfile.render(), "[A]\none=1\nthree=3\n");
}

#[test]
fn removing_missing_entries_returns_none() {
    let mut keyfile = KeyFile::parse("[A]\na=1\n").unwrap();
    assert!(keyfile.remove_group("missing").is_none());
    let mut group = keyfile.remove_group("A").unwrap();
    assert!(group.remove("missing", None).is_none());
}

#[test]
fn decor_attaches_to_the_following_entity() {
    let original = "# about the group\n[A]\n# about the key\nkey=value\n# trailing\n";
    let keyfile = KeyFile::parse(original).unwrap();
    let group = keyfile.get_group("A").unwrap();
    assert_eq!(
        group.get_decor(),
        &vec![String::from("# about the group")]
    );
    let entry = group.get("key", None).unwrap();
    assert_eq!(
        entry.get_decor(),
        &vec![String::from("# about the key")]
    );
    assert_eq!(keyfile.get_decor(), &vec![String::from("# trailing")]);
    assert_eq!(keyfile.render(), original);
}

#[test]
fn empty_and_blank_documents() {
    let keyfile = KeyFile::parse("").unwrap();
    assert_eq!(keyfile.len(), 0);
    assert_eq!(keyfile.render(), "");

    let keyfile = KeyFile::parse("\n\n# only decor\n").unwrap();
    assert_eq!(keyfile.len(), 0);
    assert_eq!(keyfile.render(), "\n\n# only decor\n");
}

#[test]
fn programmatic_construction_renders() {
    let mut kv1 = KeyValuePair::new(
        Key::try_from("Hello").unwrap(),
        Value::try_from("World").unwrap(),
    );
    kv1.set_locale(Some(Locale::try_from("de").unwrap()));
    kv1.set_whitespace(
        Whitespace::try_from("\t").unwrap(),
        Whitespace::try_from("\t").unwrap(),
    );
    kv1.set_decor(Decor::try_from(vec![String::from("# This is a comment")]).unwrap());

    let kv2 = KeyValuePair::from_fields(
        Key::try_from("Hello").unwrap(),
        Some(Locale::try_from("de").unwrap()),
        Value::try_from("World").unwrap(),
        Whitespace::try_from("\t").unwrap(),
        Whitespace::try_from("\t").unwrap(),
        Decor::try_from(vec![String::from("# This is a comment")]).unwrap(),
    );
    assert_eq!(kv1.render(), kv2.render());
    assert_eq!(kv1.render(), "# This is a comment\nHello[de]\t=\tWorld\n");

    let mut group = Group::new(GroupName::try_from("Desktop Entry").unwrap());
    group.insert(kv1);
    let mut kf = KeyFile::new();
    kf.insert_group(group);
    assert_eq!(
        kf.render(),
        "[Desktop Entry]\n# This is a comment\nHello[de]\t=\tWorld\n"
    );
}

#[test]
fn setters_return_replaced_values() {
    let mut kv = KeyValuePair::new(
        Key::try_from("name").unwrap(),
        Value::try_from("old").unwrap(),
    );
    let prev = kv.set_value(Value::try_from("new").unwrap());
    assert_eq!(prev, "old");
    assert_eq!(kv.get_value(), "new");
    let prev = kv.set_key(Key::try_from("renamed").unwrap());
    assert_eq!(prev, "name");
    assert_eq!(kv.get_key(), "renamed");
    let prev = kv.set_locale(None);
    assert!(prev.is_none());
    let prev = kv.set_whitespace(
        Whitespace::try_from("").unwrap(),
        Whitespace::try_from("").unwrap(),
    );
    assert_eq!(prev, (String::from(" "), String::from(" ")));
    assert_eq!(kv.render(), "renamed=new\n");
    let prev = kv.set_decor(Decor::try_from(vec![String::new()]).unwrap());
    assert!(prev.is_empty());
    assert_eq!(kv.render(), "\nrenamed=new\n");
}

#[test]
fn entries_are_reachable_by_position() {
    let keyfile = KeyFile::parse("[A]\nfirst=1\nsecond=2\n").unwrap();
    assert_eq!(keyfile.len(), 1);
    let group = keyfile.get_index(0).unwrap();
    assert_eq!(group.get_name(), "A");
    assert!(keyfile.get_index(1).is_none());
    assert_eq!(group.get_index(0).unwrap().get_key(), "first");
    assert_eq!(group.get_index(1).unwrap().get_key(), "second");
    assert!(group.get_index(2).is_none());
}

#[test]
fn crlf_line_endings_are_rejected() {
    // A line terminator is a single line feed; a carriage return before it
    // is a control character and makes the line invalid.
    let err = KeyFile::parse("[A]\r\nx=1\r\n").unwrap_err();
    match err {
        KeyFileError::InvalidLine { line, lineno } => {
            assert_eq!(line, "[A]\r");
            assert_eq!(lineno, 0);
        }
        _ => panic!("expected InvalidLine"),
    }
}

#[test]
fn realistic_desktop_entry_round_trips() {
    let original = "#!/usr/bin/env xdg-open\n\n[Desktop Entry]\nVersion=1.0\nType=Application\nName=Text Editor\nName[de]=Texteditor\nName[sr@latin]=Uredjivac teksta\nGenericName=Editor\nComment=Edit text files\nExec=editor %U\nIcon=accessories-text-editor\nTerminal=false\nCategories=Utility;TextEditor;\n\n[Desktop Action new-window]\nName=New Window\nExec=editor --new-window\n";
    let keyfile = KeyFile::parse(original).unwrap();
    assert_eq!(keyfile.len(), 2);
    assert_eq!(keyfile.render(), original);

    // Rendering is stable: parsing the rendering renders identically.
    let rendered = keyfile.render();
    let reparsed = KeyFile::parse(rendered.as_str()).unwrap();
    assert_eq!(reparsed.render(), rendered);
}

#[test]
fn input_without_trailing_newline_gains_one() {
    // The final line of an unterminated input is still a line, and every
    // rendered line carries a line feed, so this is the one shape of input
    // whose rendering differs from its source.
    let keyfile = KeyFile::parse("[A]\nk=v").unwrap();
    assert_eq!(keyfile.render(), "[A]\nk=v\n");
}
