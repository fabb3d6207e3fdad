use awscredx::config::{
    token_code_from_command, token_code_from_prompt, validate_code, AssumeSubject, Config,
    ConfigError, MfaError, Profile, ProfileValue, RawConfig,
};
use awscredx::credentials::ProfileName;

fn arn_prof(x: &str) -> Profile {
    Profile { role_arn: x.to_owned(), parent_profile: None, duration_sec: None, color: None }
}

fn raw() -> RawConfig {
    RawConfig {
        main_profile: ProfileName::new("abc"),
        mfa_profile: None,
        mfa_serial_number: "mfa2".to_owned(),
        mfa_command: None,
        profiles: vec![
            (ProfileName::new("prof1"), ProfileValue::Arn("arn1".to_owned())),
            (ProfileName::new("prof2"), ProfileValue::Arn("arn2".to_owned())),
            (
                ProfileName::new("prof3"),
                ProfileValue::ProfileConfig(Profile {
                    role_arn: "arn3".to_owned(),
                    parent_profile: Some(ProfileName::new("prof2")),
                    duration_sec: None,
                    color: None,
                }),
            ),
        ],
        check_new_version_interval_days: None,
    }
}

fn same(a: &Profile, b: &Profile) -> bool {
    a.role_arn == b.role_arn
        && a.duration_sec == b.duration_sec
        && a.parent_profile == b.parent_profile
        && a.color == b.color
}

#[test]
fn parse_config() {
    let cfg = Config::from_raw(raw()).unwrap();
    println!("cfg = {:?}", &cfg);

    assert_eq!(cfg.main_profile(), &ProfileName::new("abc"));
    let prof1 = ProfileName::new("prof1");
    let prof2 = ProfileName::new("prof2");
    let prof3 = ProfileName::new("prof3");

    assert!(same(&cfg.profiles()[&prof1], &arn_prof("arn1")));
    assert!(same(&cfg.profiles()[&prof2], &arn_prof("arn2")));
    let pr = &cfg.profiles()[&prof3];
    assert_eq!(&pr.role_arn, "arn3");
    assert!(pr.duration_sec.is_none());
    assert!(pr.color.is_none());
    let prof2 = ProfileName::new("prof2");
    let real_prof2 = pr.parent_profile.as_ref().unwrap();
    assert_eq!(real_prof2, &prof2);
}

#[test]
fn defaults_of_a_configuration() {
    let cfg = Config::from_raw(raw()).unwrap();
    assert_eq!(cfg.mfa_profile().as_str(), "abc-mfa");
    assert_eq!(cfg.check_new_version_interval_days(), 7);
    assert_eq!(cfg.mfa_command(), &None);
    assert_eq!(cfg.profile_count(), 3);
    let names: Vec<&str> = cfg.profiles().keys().map(|k| k.as_str()).collect();
    assert_eq!(names, vec!["prof1", "prof2", "prof3"]);

    let mut r = raw();
    r.mfa_profile = Some("session".to_owned());
    r.mfa_command = Some("echo 123456".to_owned());
    r.check_new_version_interval_days = Some(3);
    let cfg = Config::from_raw(r).unwrap();
    assert_eq!(cfg.mfa_profile().as_str(), "session");
    assert_eq!(cfg.check_new_version_interval_days(), 3);
    assert_eq!(cfg.mfa_command().as_deref(), Some("echo 123456"));
}

#[test]
fn later_row_of_a_name_replaces_the_earlier_one() {
    let mut r = raw();
    r.profiles.push((ProfileName::new("prof1"), ProfileValue::Arn("other".to_owned())));
    let cfg = Config::from_raw(r).unwrap();
    assert_eq!(cfg.profile_count(), 3);
    let names: Vec<&str> = cfg.profiles().keys().map(|k| k.as_str()).collect();
    assert_eq!(names, vec!["prof2", "prof3", "prof1"]);
    assert_eq!(cfg.profiles()[&ProfileName::new("prof1")].role_arn, "other");
}

#[test]
fn main_profile_must_not_be_a_role() {
    let mut r = raw();
    r.profiles.push((ProfileName::new("abc"), ProfileValue::Arn("arn".to_owned())));
    match Config::from_raw(r) {
        Err(ConfigError::MainProfileConfigured(name)) => {
            assert_eq!(name.as_str(), "abc");
            assert_eq!(
                ConfigError::MainProfileConfigured(name).message(),
                "main profile 'abc' must not be configured as a role"
            );
        }
        other => panic!("unexpected {:?}", other),
    }
}

#[test]
fn parents() {
    let cfg = Config::from_raw(raw()).unwrap();
    let parent = |p: &str| cfg.parent_profile(&ProfileName::new(p)).map(|x| x.as_str().to_owned());
    assert_eq!(parent("abc"), Some("abc".to_owned()));
    assert_eq!(parent("abc-mfa"), Some("abc".to_owned()));
    assert_eq!(parent("prof1"), Some("abc-mfa".to_owned()));
    assert_eq!(parent("prof3"), Some("prof2".to_owned()));
    assert_eq!(parent("Prof3"), None);
    assert_eq!(parent(""), None);
}

#[test]
fn subjects() {
    let cfg = Config::from_raw(raw()).unwrap();
    match cfg.assume_subject(&ProfileName::new("abc-mfa"), "123456") {
        Some(AssumeSubject::MfaSession { serial_number, token_code }) => {
            assert_eq!(serial_number, "mfa2");
            assert_eq!(token_code, "123456");
        }
        other => panic!("unexpected {:?}", other),
    }
    match cfg.assume_subject(&ProfileName::new("prof3"), "ignored") {
        Some(AssumeSubject::Role { role_arn, session_name }) => {
            assert_eq!(role_arn, "arn3");
            assert_eq!(session_name, "credential-tool");
        }
        other => panic!("unexpected {:?}", other),
    }
    assert!(cfg.assume_subject(&ProfileName::new("abc"), "123456").is_none());
    assert!(cfg.assume_subject(&ProfileName::new("nobody"), "123456").is_none());
    assert!(cfg.needs_token_code(&ProfileName::new("abc-mfa")));
    assert!(!cfg.needs_token_code(&ProfileName::new("prof1")));
    assert!(!cfg.needs_token_code(&ProfileName::new("abc")));
}

#[test]
fn mfa_code_validation() {
    assert_eq!(validate_code("123456").unwrap(), "123456");
    assert_eq!(validate_code("000000").unwrap(), "000000");
    for bad in ["12a456", "12345", "", "1234567", " 123456", "123456 ", "12345\u{0663}", "１２３４５６"] {
        match validate_code(bad) {
            Err(e @ MfaError::InvalidMfaCode { .. }) => {
                assert_eq!(e.message(), format!("'{}' is not a valid MFA code", bad))
            }
            other => panic!("unexpected {:?} for {:?}", other, bad),
        }
    }
}

#[test]
fn mfa_code_from_a_command() {
    assert_eq!(token_code_from_command(true, " 123456\n", "").unwrap(), "123456");
    assert_eq!(token_code_from_command(true, "\t654321 \r\n", "noise").unwrap(), "654321");
    match token_code_from_command(true, " \n", "err") {
        Err(e @ MfaError::NoCode { .. }) => assert_eq!(
            e.message(),
            "cannot get MFA code\nResponse from MFA command:\n \n\nerr"
        ),
        other => panic!("unexpected {:?}", other),
    }
    match token_code_from_command(false, "123456", "boom") {
        Err(e @ MfaError::CommandFailed { .. }) => assert_eq!(e.message(), "123456boom"),
        other => panic!("unexpected {:?}", other),
    }
    match token_code_from_command(true, "12 456", "") {
        Err(MfaError::InvalidMfaCode { code }) => assert_eq!(code, "12 456"),
        other => panic!("unexpected {:?}", other),
    }
}

#[test]
fn mfa_code_from_the_prompt() {
    assert_eq!(token_code_from_prompt("123456\n").unwrap(), "123456");
    assert_eq!(token_code_from_prompt("123456").unwrap(), "123456");
    // only the end of the line is stripped
    match token_code_from_prompt(" 123456\n") {
        Err(MfaError::InvalidMfaCode { code }) => assert_eq!(code, " 123456"),
        other => panic!("unexpected {:?}", other),
    }
    match token_code_from_prompt("\n") {
        Err(MfaError::InvalidMfaCode { code }) => assert_eq!(code, ""),
        other => panic!("unexpected {:?}", other),
    }
}
