//! The configured profiles: which profile is assumed from which, and
//! how.

use linked_hash_map::LinkedHashMap;
use vstd::prelude::*;
use vstd::string::StringExecFns;
use crate::credentials::{optional_text, ProfileName};
use crate::text::{chars_of, string_of, trim, trim_end, trimmed, trimmed_end, Strip};

verus! {

/// The session name under which roles are assumed.
pub const SESSION_NAME: &'static str = "credential-tool";

/// What is added to the main profile's name to name its MFA session,
/// where the configuration names none.
pub const MFA_SUFFIX: &'static str = "-mfa";

/// After how many days a new version is looked for, where the
/// configuration does not say.
pub const DEFAULT_CHECK_INTERVAL_DAYS: u32 = 7;

/// How many characters a one-time code has.
pub const MFA_CODE_LENGTH: usize = 6;

/// A configured role.
#[derive(Debug)]
pub struct Profile {
    pub role_arn: String,
    pub duration_sec: Option<u64>,
    pub parent_profile: Option<ProfileName>,
    pub color: Option<String>,
}

/// What is presented to the remote service to become a profile.
#[derive(Debug)]
pub enum AssumeSubject {
    Role { role_arn: String, session_name: String },
    MfaSession { serial_number: String, token_code: String },
}

/// What an [`AssumeSubject`] holds.
pub enum Subject {
    Role { role_arn: Seq<char>, session_name: Seq<char> },
    MfaSession { serial_number: Seq<char>, token_code: Seq<char> },
}

impl View for AssumeSubject {
    type V = Subject;

    open spec fn view(&self) -> Subject {
        match self {
            AssumeSubject::Role { role_arn, session_name } => Subject::Role {
                role_arn: role_arn@,
                session_name: session_name@,
            },
            AssumeSubject::MfaSession { serial_number, token_code } => Subject::MfaSession {
                serial_number: serial_number@,
                token_code: token_code@,
            },
        }
    }
}

/// A map from profile names to profiles that remembers the order in
/// which the names came.
#[verifier::external_type_specification]
#[verifier::external_body]
#[verifier::reject_recursive_types(K)]
#[verifier::reject_recursive_types(V)]
#[verifier::reject_recursive_types(S)]
pub struct ExLinkedHashMap<K, V, S>(LinkedHashMap<K, V, S>);

/// The rows of a map of profiles, oldest first: each name with its
/// profile.
pub uninterp spec fn profile_table(map: LinkedHashMap<ProfileName, Profile>) -> Seq<
    (Seq<char>, Profile),
>;

/// The profile of the first row named `name`.
pub open spec fn configured(table: Seq<(Seq<char>, Profile)>, name: Seq<char>) -> Option<Profile>
    decreases table.len(),
{
    if table.len() == 0 {
        None
    } else if table[0].0 == name {
        Some(table[0].1)
    } else {
        configured(table.drop_first(), name)
    }
}

/// The rows that are not named `name`, in their order.
pub open spec fn dropped(table: Seq<(Seq<char>, Profile)>, name: Seq<char>) -> Seq<
    (Seq<char>, Profile),
>
    decreases table.len(),
{
    if table.len() == 0 {
        table
    } else if table.last().0 == name {
        dropped(table.drop_last(), name)
    } else {
        dropped(table.drop_last(), name).push(table.last())
    }
}

/// `LinkedHashMap::new` makes a map without rows.
#[verifier::external_body]
fn new_table() -> (map: LinkedHashMap<ProfileName, Profile>)
    ensures
        profile_table(map) == Seq::<(Seq<char>, Profile)>::empty(),
{
    LinkedHashMap::new()
}

/// `LinkedHashMap::insert` puts the row last, in place of the row of
/// that name if there was one.
#[verifier::external_body]
fn table_insert(map: &mut LinkedHashMap<ProfileName, Profile>, name: ProfileName, profile: Profile)
    ensures
        profile_table(*final(map)) == dropped(profile_table(*old(map)), name@).push(
            (name@, profile),
        ),
{
    map.insert(name, profile);
}

/// `LinkedHashMap::get` finds the profile of the row named `name`.
#[verifier::external_body]
fn table_get<'a>(map: &'a LinkedHashMap<ProfileName, Profile>, name: &ProfileName) -> (r: Option<
    &'a Profile,
>)
    ensures
        match r {
            Some(profile) => configured(profile_table(*map), name@) == Some(*profile),
            None => configured(profile_table(*map), name@) is None,
        },
{
    map.get(name)
}

/// `LinkedHashMap::len` counts the rows.
#[verifier::external_body]
fn table_len(map: &LinkedHashMap<ProfileName, Profile>) -> (n: usize)
    ensures
        n == profile_table(*map).len(),
{
    map.len()
}

impl Clone for Profile {
    fn clone(&self) -> (r: Self)
        ensures
            r == *self,
    {
        Profile {
            role_arn: self.role_arn.clone(),
            duration_sec: self.duration_sec,
            parent_profile: match &self.parent_profile {
                Some(p) => Some(p.clone()),
                None => None,
            },
            color: match &self.color {
                Some(c) => Some(c.clone()),
                None => None,
            },
        }
    }
}

/// What the configuration says of one profile: a bare role, or a role
/// with its settings.
#[derive(Debug)]
pub enum ProfileValue {
    Arn(String),
    ProfileConfig(Profile),
}

/// The configuration as its document holds it.
#[derive(Debug)]
pub struct RawConfig {
    pub main_profile: ProfileName,
    pub mfa_profile: Option<String>,
    pub mfa_serial_number: String,
    pub mfa_command: Option<String>,
    pub profiles: Vec<(ProfileName, ProfileValue)>,
    pub check_new_version_interval_days: Option<u32>,
}

/// Why a configuration is refused.
#[derive(Debug)]
pub enum ConfigError {
    /// The main profile stands among the configured roles. Its
    /// credentials are given, never assumed.
    MainProfileConfigured(ProfileName),
}

impl ConfigError {
    /// The error in words.
    pub fn message(&self) -> (r: String)
        ensures
            self matches ConfigError::MainProfileConfigured(name) ==> r@ == "main profile '"@
                + name@ + "' must not be configured as a role"@,
    {
        match self {
            ConfigError::MainProfileConfigured(name) => {
                let mut r = String::from_str("main profile '");
                r.append(name.as_str());
                r.append("' must not be configured as a role");
                r
            },
        }
    }
}

/// The profile that a configured value stands for. A bare role has no
/// settings.
pub open spec fn normalized(value: ProfileValue) -> Profile {
    match value {
        ProfileValue::Arn(role_arn) => Profile {
            role_arn,
            duration_sec: None,
            parent_profile: None,
            color: None,
        },
        ProfileValue::ProfileConfig(profile) => profile,
    }
}

/// The rows of the map that is filled with `rows`, one after the other.
pub open spec fn table_of(rows: Seq<(ProfileName, ProfileValue)>) -> Seq<(Seq<char>, Profile)>
    decreases rows.len(),
{
    if rows.len() == 0 {
        Seq::empty()
    } else {
        dropped(table_of(rows.drop_last()), rows.last().0@).push(
            (rows.last().0@, normalized(rows.last().1)),
        )
    }
}

/// Whether one of `rows` is named `name`.
pub open spec fn names(rows: Seq<(ProfileName, ProfileValue)>, name: Seq<char>) -> bool {
    exists|i: int| 0 <= i < rows.len() && (#[trigger] rows[i]).0@ == name
}

/// The profile from which `profile` is assumed: the main profile for the
/// main profile itself and for its MFA session; for a configured role its
/// configured parent, or the MFA session where none is configured; none
/// for any other name.
pub open spec fn parent_of(
    main: Seq<char>,
    mfa: Seq<char>,
    table: Seq<(Seq<char>, Profile)>,
    profile: Seq<char>,
) -> Option<Seq<char>> {
    if profile == main || profile == mfa {
        Some(main)
    } else {
        match configured(table, profile) {
            Some(p) => Some(
                match p.parent_profile {
                    Some(parent) => parent@,
                    None => mfa,
                },
            ),
            None => None,
        }
    }
}

/// What is presented to become `profile`: for the MFA session the serial
/// number with a one-time code, for a configured role the role with the
/// fixed session name, nothing for any other name.
pub open spec fn subject_of(
    mfa: Seq<char>,
    serial_number: Seq<char>,
    table: Seq<(Seq<char>, Profile)>,
    profile: Seq<char>,
    token_code: Seq<char>,
) -> Option<Subject> {
    if profile == mfa {
        Some(Subject::MfaSession { serial_number, token_code })
    } else {
        match configured(table, profile) {
            Some(p) => Some(Subject::Role { role_arn: p.role_arn@, session_name: SESSION_NAME@ }),
            None => None,
        }
    }
}

/// A row that is put last is found under its name, unless an earlier row
/// has that name.
pub proof fn lemma_configured_push(
    table: Seq<(Seq<char>, Profile)>,
    row: (Seq<char>, Profile),
    name: Seq<char>,
)
    ensures
        configured(table.push(row), name) == match configured(table, name) {
            Some(p) => Some(p),
            None => if row.0 == name {
                Some(row.1)
            } else {
                None
            },
        },
    decreases table.len(),
{
    if table.len() == 0 {
        assert(table.push(row).drop_first() == table);
    } else {
        assert(table.push(row).drop_first() == table.drop_first().push(row));
        lemma_configured_push(table.drop_first(), row, name);
    }
}

/// Taking the rows of one name out changes nothing for other names.
pub proof fn lemma_configured_dropped(
    table: Seq<(Seq<char>, Profile)>,
    gone: Seq<char>,
    name: Seq<char>,
)
    ensures
        configured(dropped(table, gone), name) == if name == gone {
            None
        } else {
            configured(table, name)
        },
    decreases table.len(),
{
    if table.len() > 0 {
        let t = table.drop_last();
        lemma_configured_dropped(t, gone, name);
        lemma_configured_push(t, table.last(), name);
        assert(t.push(table.last()) == table);
        if table.last().0 != gone {
            lemma_configured_push(dropped(t, gone), table.last(), name);
        }
    }
}

/// Why no one-time code was obtained.
#[derive(Debug)]
pub enum MfaError {
    /// The command that gives the code failed; `output` is what it wrote.
    CommandFailed { output: String },
    /// The command wrote nothing but white space.
    NoCode { stdout: String, stderr: String },
    /// What was given is not a code of six digits.
    InvalidMfaCode { code: String },
}

impl MfaError {
    /// The error in words.
    pub open spec fn text(self) -> Seq<char> {
        match self {
            MfaError::CommandFailed { output } => output@,
            MfaError::NoCode { stdout, stderr } => "cannot get MFA code\nResponse from MFA command:\n"@
                + stdout@ + "\n"@ + stderr@,
            MfaError::InvalidMfaCode { code } => "'"@ + code@ + "' is not a valid MFA code"@,
        }
    }

    /// The error in words.
    pub fn message(&self) -> (r: String)
        ensures
            r@ == self.text(),
    {
        match self {
            MfaError::CommandFailed { output } => output.clone(),
            MfaError::NoCode { stdout, stderr } => {
                let mut r = String::from_str("cannot get MFA code\nResponse from MFA command:\n");
                r.append(stdout.as_str());
                r.append("\n");
                r.append(stderr.as_str());
                r
            },
            MfaError::InvalidMfaCode { code } => {
                let mut r = String::from_str("'");
                r.append(code.as_str());
                r.append("' is not a valid MFA code");
                r
            },
        }
    }
}

/// The digits `0` to `9`.
pub open spec fn is_digit(c: char) -> bool {
    0x30 <= c as u32 <= 0x39
}

/// A one-time code is made of exactly six digits.
pub open spec fn valid_code(code: Seq<char>) -> bool {
    code.len() == MFA_CODE_LENGTH && forall|i: int| 0 <= i < code.len() ==> is_digit(#[trigger] code[i])
}

fn check_code(code: &[char]) -> (r: Result<String, MfaError>)
    ensures
        match r {
            Ok(c) => valid_code(code@) && c@ == code@,
            Err(MfaError::InvalidMfaCode { code: c }) => !valid_code(code@) && c@ == code@,
            Err(_) => false,
        },
{
    if code.len() != MFA_CODE_LENGTH {
        return Err(MfaError::InvalidMfaCode { code: string_of(code) });
    }
    let mut i: usize = 0;
    while i < code.len()
        invariant
            i <= code.len(),
            forall|k: int| 0 <= k < i ==> is_digit(#[trigger] code@[k]),
        decreases code.len() - i,
    {
        let n: u32 = code[i] as u32;
        if n < 0x30 || n > 0x39 {
            return Err(MfaError::InvalidMfaCode { code: string_of(code) });
        }
        i += 1;
    }
    Ok(string_of(code))
}

/// Accepts `code` where it is a one-time code: exactly six digits.
pub fn validate_code(code: &str) -> (r: Result<String, MfaError>)
    ensures
        match r {
            Ok(c) => valid_code(code@) && c@ == code@,
            Err(MfaError::InvalidMfaCode { code: c }) => !valid_code(code@) && c@ == code@,
            Err(_) => false,
        },
{
    let chars = chars_of(code);
    check_code(chars.as_slice())
}

/// The one-time code that a command gave: what it wrote to its output,
/// without the white space around it. A command that failed gives none,
/// nor does one that wrote nothing else than white space.
pub fn token_code_from_command(success: bool, stdout: &str, stderr: &str) -> (r: Result<
    String,
    MfaError,
>)
    ensures
        match r {
            Ok(c) => success && c@ == trim(stdout@, Strip::Whitespace) && valid_code(c@),
            Err(MfaError::CommandFailed { output }) => !success && output@ == stdout@ + stderr@,
            Err(MfaError::NoCode { stdout: out, stderr: err }) => success && trim(
                stdout@,
                Strip::Whitespace,
            ).len() == 0 && out@ == stdout@ && err@ == stderr@,
            Err(MfaError::InvalidMfaCode { code }) => success && code@ == trim(
                stdout@,
                Strip::Whitespace,
            ) && code@.len() > 0 && !valid_code(code@),
        },
{
    if success {
        let chars = chars_of(stdout);
        let code = trimmed(chars.as_slice(), Strip::Whitespace);
        if code.len() == 0 {
            Err(MfaError::NoCode { stdout: stdout.to_owned(), stderr: stderr.to_owned() })
        } else {
            check_code(code)
        }
    } else {
        let mut output = stdout.to_owned();
        output.append(stderr);
        Err(MfaError::CommandFailed { output })
    }
}

/// The one-time code that was typed in: the line without the white space
/// at its end.
pub fn token_code_from_prompt(line: &str) -> (r: Result<String, MfaError>)
    ensures
        match r {
            Ok(c) => c@ == trim_end(line@, Strip::Whitespace) && valid_code(c@),
            Err(MfaError::InvalidMfaCode { code }) => code@ == trim_end(
                line@,
                Strip::Whitespace,
            ) && !valid_code(code@),
            Err(_) => false,
        },
{
    let chars = chars_of(line);
    check_code(trimmed_end(chars.as_slice(), Strip::Whitespace))
}

/// The configuration of one run.
#[derive(Debug)]
pub struct Config {
    main_profile: ProfileName,
    mfa_profile: ProfileName,
    mfa_serial_number: String,
    mfa_command: Option<String>,
    profiles: LinkedHashMap<ProfileName, Profile>,
    check_new_version_interval_days: u32,
}

impl Config {
    #[verifier::type_invariant]
    spec fn well_formed(self) -> bool {
        configured(profile_table(self.profiles), self.main_profile@) is None
    }

    /// The name of the profile whose credentials are given from outside.
    pub closed spec fn main_name(self) -> Seq<char> {
        self.main_profile@
    }

    /// The name of the MFA session of the main profile.
    pub closed spec fn mfa_name(self) -> Seq<char> {
        self.mfa_profile@
    }

    /// The serial number of the MFA device.
    pub closed spec fn serial_number(self) -> Seq<char> {
        self.mfa_serial_number@
    }

    /// The command that gives one-time codes, if one is configured.
    pub closed spec fn command(self) -> Option<Seq<char>> {
        optional_text(self.mfa_command)
    }

    /// The configured roles, in their order.
    pub closed spec fn table(self) -> Seq<(Seq<char>, Profile)> {
        profile_table(self.profiles)
    }

    /// After how many days a new version is looked for.
    pub closed spec fn check_interval(self) -> u32 {
        self.check_new_version_interval_days
    }

    /// The profile from which `profile` is assumed.
    pub open spec fn parent(self, profile: Seq<char>) -> Option<Seq<char>> {
        parent_of(self.main_name(), self.mfa_name(), self.table(), profile)
    }

    /// What is presented to become `profile`, with `token_code` as the
    /// one-time code.
    pub open spec fn subject(self, profile: Seq<char>, token_code: Seq<char>) -> Option<Subject> {
        subject_of(self.mfa_name(), self.serial_number(), self.table(), profile, token_code)
    }

    /// Makes the configuration of a run from what its document holds. The
    /// MFA session is named after the main profile where the document
    /// gives it no name. A document that lists the main profile among the
    /// roles is refused.
    pub fn from_raw(raw: RawConfig) -> (r: Result<Config, ConfigError>)
        ensures
            match r {
                Ok(c) => !names(raw.profiles@, raw.main_profile@) && c.main_name() == raw.main_profile@
                    && c.mfa_name() == (match raw.mfa_profile {
                    Some(name) => name@,
                    None => raw.main_profile@ + MFA_SUFFIX@,
                }) && c.serial_number() == raw.mfa_serial_number@ && c.command() == optional_text(
                    raw.mfa_command,
                ) && c.table() == table_of(raw.profiles@) && c.check_interval() == (
                match raw.check_new_version_interval_days {
                    Some(days) => days,
                    None => DEFAULT_CHECK_INTERVAL_DAYS,
                }),
                Err(ConfigError::MainProfileConfigured(name)) => names(
                    raw.profiles@,
                    raw.main_profile@,
                ) && name@ == raw.main_profile@,
            },
    {
        let mut profiles = new_table();
        let mut i: usize = 0;
        let ghost rows = raw.profiles@;
        while i < raw.profiles.len()
            invariant
                i <= raw.profiles.len(),
                rows == raw.profiles@,
                profile_table(profiles) == table_of(rows.take(i as int)),
                configured(profile_table(profiles), raw.main_profile@) is None,
                forall|k: int| 0 <= k < i ==> (#[trigger] rows[k]).0@ != raw.main_profile@,
            decreases raw.profiles.len() - i,
        {
            let row = &raw.profiles[i];
            if row.0.is(&raw.main_profile) {
                return Err(ConfigError::MainProfileConfigured(raw.main_profile));
            }
            let profile = match &row.1 {
                ProfileValue::Arn(role_arn) => Profile {
                    role_arn: role_arn.clone(),
                    duration_sec: None,
                    parent_profile: None,
                    color: None,
                },
                ProfileValue::ProfileConfig(profile) => profile.clone(),
            };
            proof {
                assert(rows.take(i + 1).drop_last() == rows.take(i as int));
                let before = profile_table(profiles);
                lemma_configured_dropped(before, row.0@, raw.main_profile@);
                lemma_configured_push(
                    dropped(before, row.0@),
                    (row.0@, profile),
                    raw.main_profile@,
                );
            }
            table_insert(&mut profiles, row.0.clone(), profile);
            i += 1;
        }
        assert(rows.take(i as int) == rows);
        let mfa_profile = match &raw.mfa_profile {
            Some(name) => ProfileName::new(name.as_str()),
            None => {
                let mut name = raw.main_profile.0.clone();
                name.append(MFA_SUFFIX);
                ProfileName(name)
            },
        };
        Ok(
            Config {
                main_profile: raw.main_profile,
                mfa_profile,
                mfa_serial_number: raw.mfa_serial_number,
                mfa_command: raw.mfa_command,
                profiles,
                check_new_version_interval_days: match raw.check_new_version_interval_days {
                    Some(days) => days,
                    None => DEFAULT_CHECK_INTERVAL_DAYS,
                },
            },
        )
    }

    /// The name of the profile whose credentials are given from outside.
    pub fn main_profile(&self) -> (r: &ProfileName)
        ensures
            r@ == self.main_name(),
    {
        &self.main_profile
    }

    /// The name of the MFA session of the main profile.
    pub fn mfa_profile(&self) -> (r: &ProfileName)
        ensures
            r@ == self.mfa_name(),
    {
        &self.mfa_profile
    }

    /// The command that gives one-time codes, if one is configured.
    pub fn mfa_command(&self) -> (r: &Option<String>)
        ensures
            optional_text(*r) == self.command(),
    {
        &self.mfa_command
    }

    /// The configured roles, in their order.
    pub fn profiles(&self) -> (r: &LinkedHashMap<ProfileName, Profile>)
        ensures
            profile_table(*r) == self.table(),
    {
        &self.profiles
    }

    /// After how many days a new version is looked for.
    pub fn check_new_version_interval_days(&self) -> (r: u32)
        ensures
            r == self.check_interval(),
    {
        self.check_new_version_interval_days
    }

    /// How many roles are configured.
    pub fn profile_count(&self) -> (n: usize)
        ensures
            n == self.table().len(),
    {
        table_len(&self.profiles)
    }

    /// Makes known to the caller that the main profile is no configured
    /// role. Does nothing when run.
    pub fn main_is_given(&self)
        ensures
            configured(self.table(), self.main_name()) is None,
    {
        proof {
            use_type_invariant(self);
        }
    }

    /// The profile from which `profile` is assumed, if the configuration
    /// knows `profile`.
    pub fn parent_profile(&self, profile: &ProfileName) -> (r: Option<&ProfileName>)
        ensures
            match r {
                Some(parent) => self.parent(profile@) == Some(parent@),
                None => self.parent(profile@) is None,
            },
    {
        if profile.is(&self.main_profile) || profile.is(&self.mfa_profile) {
            Some(&self.main_profile)
        } else {
            match table_get(&self.profiles, profile) {
                Some(p) => match &p.parent_profile {
                    Some(parent) => Some(parent),
                    None => Some(&self.mfa_profile),
                },
                None => None,
            }
        }
    }

    /// Whether a one-time code is needed to become `profile`: it is for
    /// the MFA session, and for nothing else.
    pub fn needs_token_code(&self, profile: &ProfileName) -> (r: bool)
        ensures
            r == (profile@ == self.mfa_name()),
    {
        profile.is(&self.mfa_profile)
    }

    /// What is presented to become `profile`. `token_code` is the
    /// one-time code, which only the MFA session takes: it must be a
    /// fresh one each time.
    pub fn assume_subject(&self, profile: &ProfileName, token_code: &str) -> (r: Option<
        AssumeSubject,
    >)
        ensures
            match r {
                Some(subject) => self.subject(profile@, token_code@) == Some(subject@),
                None => self.subject(profile@, token_code@) is None,
            },
    {
        if profile.is(&self.mfa_profile) {
            Some(
                AssumeSubject::MfaSession {
                    serial_number: self.mfa_serial_number.clone(),
                    token_code: token_code.to_owned(),
                },
            )
        } else {
            match table_get(&self.profiles, profile) {
                Some(p) => Some(
                    AssumeSubject::Role {
                        role_arn: p.role_arn.clone(),
                        session_name: SESSION_NAME.to_owned(),
                    },
                ),
                None => None,
            }
        }
    }
}

} // verus!
