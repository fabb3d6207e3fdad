use awscredx::config::{AssumeSubject, Config, MfaError, Profile, ProfileValue, RawConfig};
use awscredx::credentials::{Credentials, CredentialsFile, ProfileName};
use awscredx::resolver::{Request, ResolveError, RoleAssumer, FRESHNESS_MARGIN_SECS};
use awscredx::time::Timestamp;

const NOW: i64 = 1_700_000_000;

fn now() -> Timestamp {
    Timestamp::new(NOW, 0)
}

fn role(arn: &str, parent: Option<&str>) -> ProfileValue {
    ProfileValue::ProfileConfig(Profile {
        role_arn: arn.to_owned(),
        duration_sec: None,
        parent_profile: parent.map(ProfileName::new),
        color: None,
    })
}

/// A <- B <- C, and A <- A-mfa <- D.
fn config() -> Config {
    Config::from_raw(RawConfig {
        main_profile: ProfileName::new("A"),
        mfa_profile: None,
        mfa_serial_number: "serial".to_owned(),
        mfa_command: Some("code".to_owned()),
        profiles: vec![
            (ProfileName::new("B"), role("arn:B", Some("A"))),
            (ProfileName::new("C"), role("arn:C", Some("B"))),
            (ProfileName::new("D"), ProfileValue::Arn("arn:D".to_owned())),
            (ProfileName::new("X"), role("arn:X", Some("Y"))),
            (ProfileName::new("Y"), role("arn:Y", Some("X"))),
            (ProfileName::new("Z"), role("arn:Z", Some("nobody"))),
        ],
        check_new_version_interval_days: None,
    })
    .unwrap()
}

fn root_store() -> CredentialsFile {
    let mut store = CredentialsFile::new();
    store.put_credentials(ProfileName::new("A"), Credentials::new("AK-A", "S-A", None, None));
    store
}

fn minted(name: &str, valid_for: i64) -> Credentials {
    Credentials::new(
        &format!("AK-{}", name),
        &format!("S-{}", name),
        Some(format!("T-{}", name)),
        Some(Timestamp::new(NOW + valid_for, 0)),
    )
}

/// Runs a resolution to its end, answering each remote call with new
/// credentials, and notes which roles were asked for, with which key.
fn drive<'a>(mut assumer: RoleAssumer<'a>, calls: &mut Vec<(String, String)>) -> RoleAssumer<'a> {
    loop {
        match assumer.request() {
            Request::Done | Request::Failed => return assumer,
            Request::TokenCode { command } => {
                assert_eq!(command.as_deref(), Some("code"));
                calls.push(("code".to_owned(), String::new()));
                assumer = assumer.token_code(Ok("123456".to_owned()));
            }
            Request::Assume { subject, with } => {
                let what = match subject {
                    AssumeSubject::Role { role_arn, session_name } => {
                        assert_eq!(session_name, "credential-tool");
                        role_arn
                    }
                    AssumeSubject::MfaSession { serial_number, token_code } => {
                        assert_eq!(serial_number, "serial");
                        format!("mfa:{}", token_code)
                    }
                };
                let name = what.rsplit(':').next().unwrap().to_owned();
                calls.push((what, with.access_key_id.clone()));
                assumer = assumer.assumed(Ok(minted(&name, 3600)));
            }
        }
    }
}

fn names(store: &CredentialsFile) -> Vec<String> {
    store.get_current_credentials_data().into_iter().map(|d| d.profile_name).collect()
}

#[test]
fn fresh_entry_needs_no_remote_call() {
    let cfg = config();
    let mut store = root_store();
    store.put_credentials(ProfileName::new("C"), minted("C", FRESHNESS_MARGIN_SECS + 1));
    let assumer = RoleAssumer::new(store, &cfg, FRESHNESS_MARGIN_SECS).resolve("C", &now());
    assert!(matches!(assumer.request(), Request::Done));
    let (store, credentials) = assumer.finish().unwrap();
    let c = credentials.unwrap();
    assert_eq!(c.access_key_id, "AK-C");
    assert_eq!(c.secret_access_key, "S-C");
    assert_eq!(c.session_token.as_deref(), Some("T-C"));
    assert_eq!(c.expires_at, Some(Timestamp::new(NOW + FRESHNESS_MARGIN_SECS + 1, 0)));
    assert_eq!(names(&store), vec!["A", "C"]);
}

#[test]
fn entry_at_the_margin_is_renewed() {
    let cfg = config();
    let mut store = root_store();
    store.put_credentials(ProfileName::new("B"), minted("B", FRESHNESS_MARGIN_SECS));
    let assumer = RoleAssumer::new(store, &cfg, FRESHNESS_MARGIN_SECS).resolve("B", &now());
    match assumer.request() {
        Request::Assume { subject: AssumeSubject::Role { role_arn, .. }, with } => {
            assert_eq!(role_arn, "arn:B");
            assert_eq!(with.access_key_id, "AK-A");
        }
        other => panic!("unexpected {:?}", other),
    }
    // one nanosecond more and it is fresh
    let mut store = root_store();
    let mut c = minted("B", FRESHNESS_MARGIN_SECS);
    c.expires_at = Some(Timestamp::new(NOW + FRESHNESS_MARGIN_SECS, 1));
    store.put_credentials(ProfileName::new("B"), c);
    let assumer = RoleAssumer::new(store, &cfg, FRESHNESS_MARGIN_SECS).resolve("B", &now());
    assert!(matches!(assumer.request(), Request::Done));
}

#[test]
fn chain_from_the_root_makes_two_calls_in_order() {
    let cfg = config();
    let mut calls = Vec::new();
    let assumer = RoleAssumer::new(root_store(), &cfg, FRESHNESS_MARGIN_SECS).resolve("C", &now());
    let assumer = drive(assumer, &mut calls);
    assert_eq!(
        calls,
        vec![("arn:B".to_owned(), "AK-A".to_owned()), ("arn:C".to_owned(), "AK-B".to_owned())]
    );
    let (store, credentials) = assumer.finish().unwrap();
    assert_eq!(credentials.unwrap().access_key_id, "AK-C");
    assert_eq!(names(&store), vec!["A", "B", "C"]);
    assert_eq!(store.get_credentials(&ProfileName::new("A")).unwrap().access_key_id, "AK-A");
    assert_eq!(store.get_credentials(&ProfileName::new("B")).unwrap().access_key_id, "AK-B");
    let image = store.write().unwrap();
    let back = CredentialsFile::read(Some(&image.credentials), Some(&image.expirations), &now()).unwrap();
    assert_eq!(names(&back), vec!["A", "B", "C"]);
}

#[test]
fn only_the_stale_end_of_the_path_is_renewed() {
    let cfg = config();
    let mut store = root_store();
    store.put_credentials(ProfileName::new("B"), minted("B", 3600));
    store.put_credentials(ProfileName::new("C"), minted("C", 60));
    let mut calls = Vec::new();
    let assumer = RoleAssumer::new(store, &cfg, FRESHNESS_MARGIN_SECS).resolve("C", &now());
    let assumer = drive(assumer, &mut calls);
    assert_eq!(calls, vec![("arn:C".to_owned(), "AK-B".to_owned())]);
    let (store, _) = assumer.finish().unwrap();
    assert_eq!(names(&store), vec!["A", "B", "C"]);
    assert_eq!(
        store.get_credentials(&ProfileName::new("C")).unwrap().expires_at,
        Some(Timestamp::new(NOW + 3600, 0))
    );
}

#[test]
fn stale_parent_is_renewed_first() {
    let cfg = config();
    let mut store = root_store();
    store.put_credentials(ProfileName::new("B"), minted("B", 60));
    store.put_credentials(ProfileName::new("C"), minted("C", 60));
    let mut calls = Vec::new();
    let assumer = RoleAssumer::new(store, &cfg, FRESHNESS_MARGIN_SECS).resolve("C", &now());
    drive(assumer, &mut calls);
    assert_eq!(
        calls,
        vec![("arn:B".to_owned(), "AK-A".to_owned()), ("arn:C".to_owned(), "AK-B".to_owned())]
    );
}

#[test]
fn default_parent_is_the_mfa_session() {
    let cfg = config();
    let mut calls = Vec::new();
    let assumer = RoleAssumer::new(root_store(), &cfg, FRESHNESS_MARGIN_SECS).resolve("D", &now());
    let assumer = drive(assumer, &mut calls);
    assert_eq!(
        calls,
        vec![
            ("code".to_owned(), String::new()),
            ("mfa:123456".to_owned(), "AK-A".to_owned()),
            ("arn:D".to_owned(), "AK-mfa:123456".to_owned().replace("mfa:", "")),
        ]
    );
    let (store, _) = assumer.finish().unwrap();
    assert_eq!(names(&store), vec!["A", "A-mfa", "D"]);
}

#[test]
fn failing_call_leaves_nothing_to_write() {
    let cfg = config();
    let assumer = RoleAssumer::new(root_store(), &cfg, FRESHNESS_MARGIN_SECS).resolve("C", &now());
    assert!(matches!(assumer.request(), Request::Assume { .. }));
    let assumer = assumer.assumed(Err("access denied".to_owned()));
    assert!(matches!(assumer.request(), Request::Failed));
    // nothing that comes later changes that
    let assumer = assumer.assumed(Ok(minted("B", 3600)));
    let assumer = assumer.token_code(Ok("123456".to_owned()));
    let assumer = assumer.resolve("A", &now());
    assert!(matches!(assumer.request(), Request::Failed));
    match assumer.finish() {
        Err(e) => {
            assert_eq!(e.profile().as_str(), "B");
            assert_eq!(e.message(), "cannot assume profile 'B' with access key AK-A: access denied");
            assert!(matches!(e, ResolveError::RemoteAssumption { .. }));
        }
        Ok(_) => panic!("a failed resolution handed out a store"),
    }
}

#[test]
fn failing_second_call_gives_up_the_first() {
    let cfg = config();
    let assumer = RoleAssumer::new(root_store(), &cfg, FRESHNESS_MARGIN_SECS).resolve("C", &now());
    let assumer = assumer.assumed(Ok(minted("B", 3600)));
    match assumer.request() {
        Request::Assume { subject: AssumeSubject::Role { role_arn, .. }, with } => {
            assert_eq!(role_arn, "arn:C");
            assert_eq!(with.session_token.as_deref(), Some("T-B"));
        }
        other => panic!("unexpected {:?}", other),
    }
    let assumer = assumer.assumed(Err("throttled".to_owned()));
    match assumer.finish() {
        Err(ResolveError::RemoteAssumption { profile, parent_key, reason }) => {
            assert_eq!(profile.as_str(), "C");
            assert_eq!(parent_key, "AK-B");
            assert_eq!(reason, "throttled");
        }
        other => panic!("unexpected {:?}", other.map(|_| ())),
    }
}

#[test]
fn missing_root_credentials() {
    let cfg = config();
    let empty = CredentialsFile::new();
    let assumer = RoleAssumer::new(empty, &cfg, FRESHNESS_MARGIN_SECS).resolve("C", &now());
    assert!(matches!(assumer.request(), Request::Failed));
    match assumer.finish() {
        Err(e @ ResolveError::MissingRootCredentials(_)) => {
            assert_eq!(e.profile().as_str(), "A");
            assert_eq!(e.message(), "there are no credentials for the main profile 'A'");
        }
        other => panic!("unexpected {:?}", other.map(|_| ())),
    }
    let assumer =
        RoleAssumer::new(CredentialsFile::new(), &cfg, FRESHNESS_MARGIN_SECS).resolve("A", &now());
    assert!(matches!(assumer.finish(), Err(ResolveError::MissingRootCredentials(_))));
}

#[test]
fn root_credentials_are_used_as_they_are() {
    let cfg = config();
    let mut store = CredentialsFile::new();
    store.put_credentials(ProfileName::new("A"), minted("A", 1));
    let mut calls = Vec::new();
    let assumer = RoleAssumer::new(store, &cfg, FRESHNESS_MARGIN_SECS).resolve("B", &now());
    let assumer = drive(assumer, &mut calls);
    assert_eq!(calls, vec![("arn:B".to_owned(), "AK-A".to_owned())]);
    assert!(assumer.finish().is_ok());
}

#[test]
fn unknown_profile() {
    let cfg = config();
    let assumer = RoleAssumer::new(root_store(), &cfg, FRESHNESS_MARGIN_SECS).resolve("nobody", &now());
    match assumer.finish() {
        Err(e @ ResolveError::ProfileNotFound(_)) => {
            assert_eq!(e.message(), "profile 'nobody' does not exist")
        }
        other => panic!("unexpected {:?}", other.map(|_| ())),
    }
    // the parent of Z is not configured
    let assumer = RoleAssumer::new(root_store(), &cfg, FRESHNESS_MARGIN_SECS).resolve("Z", &now());
    match assumer.finish() {
        Err(ResolveError::ProfileNotFound(p)) => assert_eq!(p.as_str(), "nobody"),
        other => panic!("unexpected {:?}", other.map(|_| ())),
    }
}

#[test]
fn roles_in_a_circle() {
    let cfg = config();
    let assumer = RoleAssumer::new(root_store(), &cfg, FRESHNESS_MARGIN_SECS).resolve("X", &now());
    match assumer.finish() {
        Err(e @ ResolveError::ProfileCycle(_)) => {
            assert!(e.profile().as_str() == "X" || e.profile().as_str() == "Y");
        }
        other => panic!("unexpected {:?}", other.map(|_| ())),
    }
}

#[test]
fn code_that_is_not_obtained_ends_the_resolution() {
    let cfg = config();
    let assumer = RoleAssumer::new(root_store(), &cfg, FRESHNESS_MARGIN_SECS).resolve("D", &now());
    assert!(matches!(assumer.request(), Request::TokenCode { .. }));
    // a remote outcome is not what is awaited: nothing changes
    let assumer = assumer.assumed(Ok(minted("x", 3600)));
    assert!(matches!(assumer.request(), Request::TokenCode { .. }));
    let assumer = assumer.token_code(Err(MfaError::InvalidMfaCode { code: "12a456".to_owned() }));
    assert!(matches!(assumer.request(), Request::Failed));
    match assumer.finish() {
        Err(e @ ResolveError::InvalidMfaCode { .. }) => {
            assert_eq!(e.profile().as_str(), "A-mfa");
            assert_eq!(e.message(), "no MFA code for profile 'A-mfa': '12a456' is not a valid MFA code");
        }
        other => panic!("unexpected {:?}", other.map(|_| ())),
    }
}

#[test]
fn each_pass_asks_for_a_new_code() {
    let cfg = config();
    let mut calls = Vec::new();
    let assumer = RoleAssumer::new(root_store(), &cfg, 7200).resolve("D", &now());
    let assumer = drive(assumer, &mut calls);
    let (store, _) = assumer.finish().unwrap();
    // with a margin of two hours what was minted for one hour is stale again
    let assumer = RoleAssumer::new(store, &cfg, 7200).resolve("D", &now());
    let assumer = drive(assumer, &mut calls);
    assert!(assumer.finish().is_ok());
    assert_eq!(calls.iter().filter(|c| c.0 == "code").count(), 2);
    assert_eq!(calls.len(), 6);
}

#[test]
fn ending_early_gives_up_the_store() {
    let cfg = config();
    let assumer = RoleAssumer::new(root_store(), &cfg, FRESHNESS_MARGIN_SECS).resolve("C", &now());
    match assumer.finish() {
        Err(e @ ResolveError::Unfinished(_)) => {
            assert_eq!(e.message(), "profile 'B' was not assumed")
        }
        other => panic!("unexpected {:?}", other.map(|_| ())),
    }
    let assumer = RoleAssumer::new(root_store(), &cfg, FRESHNESS_MARGIN_SECS);
    let (store, credentials) = assumer.finish().unwrap();
    assert!(credentials.is_none());
    assert_eq!(names(&store), vec!["A"]);
}
