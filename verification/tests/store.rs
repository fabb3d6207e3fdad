use awscredx::cache_text::{parse_sections, read_profile_name, read_property, Property};
use awscredx::credentials::{Credentials, CredentialsFile, ProfileName, StoreError};
use awscredx::expirations::{CredentialExpirations, TableError};
use awscredx::text::chars_of;
use awscredx::time::Timestamp;

const NOW: i64 = 1_700_000_000;

fn at(secs: i64) -> Timestamp {
    Timestamp::new(secs, 0)
}

fn minutes(n: i64) -> i64 {
    n * 60
}

#[test]
fn read_credentials() {
    let now = at(NOW);
    let mut cred_file = CredentialsFile::read(None, None, &now).unwrap();
    cred_file.put_credentials(
        ProfileName::new("test1"),
        Credentials::new("abc2", "cde2", Some("nice".to_owned()), Some(at(NOW + minutes(10)))),
    );
    cred_file.put_credentials(
        ProfileName::new("test2"),
        Credentials::new("k2", "s2", Some("token1".to_owned()), Some(at(NOW - minutes(10)))),
    );
    cred_file.put_credentials(
        ProfileName::new("test3"),
        Credentials::new("k2", "s2", Some("token1".to_owned()), None),
    );
    cred_file.put_credentials(
        ProfileName::new("test4"),
        Credentials::new("k4", "s4", Some("token=4".to_owned()), Some(at(NOW + minutes(10)))),
    );
    let image = cred_file.write().unwrap();

    cred_file =
        CredentialsFile::read(Some(&image.credentials), Some(&image.expirations), &now).unwrap();
    let pn_test1 = ProfileName::new("test1");
    let pn_test2 = ProfileName::new("test2");
    let pn_test3 = ProfileName::new("test3");
    let pn_test4 = ProfileName::new("test4");
    assert!(cred_file.get_credentials(&pn_test2).is_none());
    assert_eq!(cred_file.get_credentials(&pn_test1).unwrap().access_key_id, "abc2");
    assert_eq!(cred_file.get_credentials(&pn_test1).unwrap().secret_access_key, "cde2");
    let token = Some("nice".to_owned());
    assert_eq!(cred_file.get_credentials(&pn_test1).unwrap().session_token, token);
    let exp = Some(at(NOW + minutes(10)));
    assert_eq!(cred_file.get_credentials(&pn_test1).unwrap().expires_at, exp);
    assert!(cred_file.get_credentials(&pn_test3).is_none());
    assert_eq!(
        cred_file.get_credentials(&pn_test4).unwrap().session_token.as_ref().unwrap().as_str(),
        "token=4"
    );
    println!("{:?}", &cred_file);
}

#[test]
fn section_text_has_the_three_keys() {
    let mut store = CredentialsFile::new();
    store.put_credentials(ProfileName::new("main"), Credentials::new("AKIA", "secret", None, None));
    store.put_credentials(
        ProfileName::new("my role"),
        Credentials::new("ASIA", "s=", Some("tok".to_owned()), Some(at(NOW))),
    );
    let image = store.write().unwrap();
    assert_eq!(
        image.credentials,
        "[main]\naws_access_key_id = AKIA\naws_secret_access_key = secret\n\n\
         [\"my role\"]\naws_access_key_id = ASIA\naws_secret_access_key = s=\naws_session_token = tok\n\n"
    );
}

#[test]
fn side_table_holds_only_entries_with_an_expiration() {
    let mut store = CredentialsFile::new();
    store.put_credentials(ProfileName::new("main"), Credentials::new("a", "b", None, None));
    store.put_credentials(
        ProfileName::new("role"),
        Credentials::new("c", "d", Some("t".to_owned()), Some(Timestamp::new(0, 0))),
    );
    let table = store.expirations();
    assert_eq!(table.0.len(), 1);
    assert_eq!(table.lookup(&ProfileName::new("role")), Some(Timestamp::new(0, 0)));
    assert_eq!(table.lookup(&ProfileName::new("main")), None);
    let text = table.write().unwrap();
    assert_eq!(text, "role = \"1970-01-01T00:00:00Z\"\n");
}

#[test]
fn side_table_is_read_from_toml() {
    let table = CredentialExpirations::read(Some(
        "b = \"2023-11-14T22:13:20Z\"\n\"a b\" = \"2023-11-14T22:13:20.5+01:00\"\n",
    ))
    .unwrap();
    assert_eq!(table.lookup(&ProfileName::new("b")), Some(at(NOW)));
    assert_eq!(
        table.lookup(&ProfileName::new("a b")),
        Some(Timestamp::new(NOW - 3600, 500_000_000))
    );
    assert_eq!(table.lookup(&ProfileName::new("c")), None);
    assert_eq!(
        CredentialExpirations::get(Some("b = \"2023-11-14T22:13:20Z\"\n"), "b").unwrap(),
        Some(at(NOW))
    );
    assert_eq!(CredentialExpirations::get(None, "b").unwrap(), None);
}

#[test]
fn side_table_that_is_no_toml_is_an_error() {
    match CredentialExpirations::read(Some("this is not toml")) {
        Err(TableError::Malformed(reason)) => assert!(!reason.is_empty()),
        other => panic!("unexpected {:?}", other),
    }
    match CredentialExpirations::read(Some("a = 5\n")) {
        Err(TableError::Malformed(_)) => {}
        other => panic!("unexpected {:?}", other),
    }
    let now = at(NOW);
    match CredentialsFile::read(Some("[a]\n"), Some("not toml"), &now) {
        Err(StoreError::Expirations(TableError::Malformed(_))) => {}
        other => panic!("unexpected {:?}", other),
    }
    // without a cache file the side table is not looked at
    assert_eq!(CredentialsFile::read(None, Some("not toml"), &now).unwrap().len(), 0);
}

#[test]
fn expiration_out_of_range_cannot_be_written() {
    let mut table = CredentialExpirations::new();
    table.insert(ProfileName::new("a"), Timestamp::new(i64::MAX, 0));
    match table.write() {
        Err(TableError::OutOfRange) => {}
        other => panic!("unexpected {:?}", other),
    }
    let mut store = CredentialsFile::new();
    store.put_credentials(
        ProfileName::new("a"),
        Credentials::new("k", "s", None, Some(Timestamp::new(i64::MAX, 0))),
    );
    match store.write() {
        Err(e @ StoreError::Expirations(TableError::OutOfRange)) => {
            assert_eq!(e.message(), "Cannot encode expirations into TOML")
        }
        other => panic!("unexpected {:?}", other),
    }
}

#[test]
fn later_row_of_a_table_wins() {
    let mut table = CredentialExpirations::new();
    table.insert(ProfileName::new("a"), at(1));
    table.insert(ProfileName::new("b"), at(2));
    table.insert(ProfileName::new("a"), at(3));
    assert_eq!(table.lookup(&ProfileName::new("a")), Some(at(3)));
    assert_eq!(table.lookup(&ProfileName::new("b")), Some(at(2)));
    let text = table.write().unwrap();
    let back = CredentialExpirations::read(Some(&text)).unwrap();
    assert_eq!(back.lookup(&ProfileName::new("a")), Some(at(3)));
    assert_eq!(back.0.len(), 2);
}

#[test]
fn expired_entry_is_absent_after_reload() {
    let text = "[old]\naws_access_key_id = k\naws_secret_access_key = s\naws_session_token = t\n";
    let mut table = CredentialExpirations::new();
    table.insert(ProfileName::new("old"), at(NOW - 1));
    let store = CredentialsFile::load(text, &table, &at(NOW)).unwrap();
    assert!(store.get_credentials(&ProfileName::new("old")).is_none());
    assert_eq!(store.len(), 0);
    // an entry that expires at this very instant is still there
    let store = CredentialsFile::load(text, &table, &at(NOW - 1)).unwrap();
    assert!(store.get_credentials(&ProfileName::new("old")).is_some());
    // one nanosecond later it is gone
    let store = CredentialsFile::load(text, &table, &Timestamp::new(NOW - 1, 1)).unwrap();
    assert!(store.get_credentials(&ProfileName::new("old")).is_none());
}

#[test]
fn token_without_expiration_is_dropped_on_load() {
    let text = "[session]\naws_access_key_id = k\naws_secret_access_key = s\naws_session_token = t\n\
                [root]\naws_access_key_id = k2\naws_secret_access_key = s2\n";
    let store = CredentialsFile::load(text, &CredentialExpirations::new(), &at(NOW)).unwrap();
    assert!(store.get_credentials(&ProfileName::new("session")).is_none());
    let root = store.get_credentials(&ProfileName::new("root")).unwrap();
    assert_eq!(root.access_key_id, "k2");
    assert_eq!(root.session_token, None);
    assert_eq!(root.expires_at, None);
}

#[test]
fn round_trip_keeps_names_keys_and_tokens() {
    let now = at(NOW);
    let mut store = CredentialsFile::new();
    store.put_credentials(ProfileName::new("root"), Credentials::new("AK1", "secret/+=", None, None));
    store.put_credentials(
        ProfileName::new("with space"),
        Credentials::new("AK2", "a=b=c==", Some("to=ken==".to_owned()), Some(at(NOW + 3600))),
    );
    store.put_credentials(
        ProfileName::new(""),
        Credentials::new("", "", Some(String::new()), Some(at(NOW + 1))),
    );
    let image = store.write().unwrap();
    let back =
        CredentialsFile::read(Some(&image.credentials), Some(&image.expirations), &now).unwrap();
    assert_eq!(back.len(), 3);
    let before = store.get_current_credentials_data();
    let after = back.get_current_credentials_data();
    for i in 0..3 {
        assert_eq!(before[i].profile_name, after[i].profile_name);
        assert_eq!(before[i].expires_at, after[i].expires_at);
        let name = ProfileName::new(&before[i].profile_name);
        let a = store.get_credentials(&name).unwrap();
        let b = back.get_credentials(&name).unwrap();
        assert_eq!(a.access_key_id, b.access_key_id);
        assert_eq!(a.secret_access_key, b.secret_access_key);
        assert_eq!(a.session_token, b.session_token);
    }
    assert_eq!(back.write().unwrap().credentials, image.credentials);
}

#[test]
fn value_with_quotes_at_its_ends_does_not_come_back() {
    let mut store = CredentialsFile::new();
    store.put_credentials(ProfileName::new("a"), Credentials::new("\"k\"", "s ", None, None));
    let image = store.write().unwrap();
    let back = CredentialsFile::read(Some(&image.credentials), None, &at(NOW)).unwrap();
    let c = back.get_credentials(&ProfileName::new("a")).unwrap();
    assert_eq!(c.access_key_id, "k");
    assert_eq!(c.secret_access_key, "s");
}

#[test]
fn put_replaces_and_moves_to_the_end() {
    let mut store = CredentialsFile::new();
    store.put_credentials(ProfileName::new("a"), Credentials::new("1", "1", None, None));
    store.put_credentials(ProfileName::new("b"), Credentials::new("2", "2", None, None));
    store.put_credentials(ProfileName::new("a"), Credentials::new("3", "3", None, None));
    assert_eq!(store.len(), 2);
    let data = store.get_current_credentials_data();
    assert_eq!(data[0].profile_name, "b");
    assert_eq!(data[1].profile_name, "a");
    assert_eq!(store.get_credentials(&ProfileName::new("a")).unwrap().access_key_id, "3");
    assert!(store.get_credentials(&ProfileName::new("A")).is_none());
}

#[test]
fn section_without_a_key_is_an_error() {
    let now = at(NOW);
    let text = "[ok]\naws_access_key_id = k\naws_secret_access_key = s\n\
                [bad one]\naws_secret_access_key = s\n[worse]\n";
    match CredentialsFile::load(text, &CredentialExpirations::new(), &now) {
        Err(e @ StoreError::MissingProperty { .. }) => {
            assert_eq!(e.message(), "Profile bad one does not have property aws_access_key_id");
            match e {
                StoreError::MissingProperty { profile, property } => {
                    assert_eq!(profile, ProfileName::new("bad one"));
                    assert_eq!(property, Property::AccessKeyId);
                }
                _ => unreachable!(),
            }
        }
        other => panic!("unexpected {:?}", other),
    }
    match CredentialsFile::load("[x]\naws_access_key_id=k", &CredentialExpirations::new(), &now) {
        Err(StoreError::MissingProperty { profile, property }) => {
            assert_eq!(profile.as_str(), "x");
            assert_eq!(property, Property::SecretAccessKey);
            assert_eq!(property.name(), "aws_secret_access_key");
        }
        other => panic!("unexpected {:?}", other),
    }
}

#[test]
fn parser_is_lenient_about_layout() {
    let text = "stray = 1\n\n  [ \"my profile\" ]  \r\n\taws_access_key_id=\"AK=1\" \n\
                unknown = x\nnot a property\naws_secret_access_key =  s e c  \n\
                aws_access_key_id = AK2\n[second]\naws_secret_access_key = b\naws_access_key_id = a";
    let chars = chars_of(text);
    let sections = parse_sections(&chars);
    assert_eq!(sections.len(), 2);
    assert_eq!(sections[0].name, "my profile");
    assert_eq!(sections[0].access_key_id.as_deref(), Some("AK2"));
    assert_eq!(sections[0].secret_access_key.as_deref(), Some("s e c"));
    assert_eq!(sections[0].session_token, None);
    assert_eq!(sections[1].name, "second");
    assert_eq!(sections[1].access_key_id.as_deref(), Some("a"));
    assert_eq!(sections[1].secret_access_key.as_deref(), Some("b"));
}

#[test]
fn header_and_property_lines() {
    assert_eq!(read_profile_name("[abc]"), Some("abc".to_owned()));
    assert_eq!(read_profile_name("[\"a b\"]"), Some("a b".to_owned()));
    assert_eq!(read_profile_name("[a=b]"), Some("a=b".to_owned()));
    assert_eq!(read_profile_name("abc]"), None);
    assert_eq!(read_profile_name(""), None);
    assert_eq!(read_property("a = b"), Some(("a".to_owned(), "b".to_owned())));
    assert_eq!(read_property("a=b=c"), Some(("a".to_owned(), "b=c".to_owned())));
    assert_eq!(read_property("\ta\t= \"b \" "), Some(("a".to_owned(), "b".to_owned())));
    assert_eq!(read_property("="), Some((String::new(), String::new())));
    assert_eq!(read_property("no property"), None);
}

#[test]
fn earlier_section_of_a_name_wins() {
    let text = "[a]\naws_access_key_id = 1\naws_secret_access_key = 1\n\
                [a]\naws_access_key_id = 2\naws_secret_access_key = 2\n";
    let store = CredentialsFile::load(text, &CredentialExpirations::new(), &at(NOW)).unwrap();
    assert_eq!(store.len(), 1);
    assert_eq!(store.get_credentials(&ProfileName::new("a")).unwrap().access_key_id, "1");
}
