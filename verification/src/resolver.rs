//! Resolving a profile: finding the nearest cached credentials on the
//! way from the profile to the main profile, and assuming each profile
//! from there down to the one that was asked for.
//!
//! The remote calls and the reading of one-time codes are not made here.
//! A [`RoleAssumer`] says what is to be done next, and is told what came
//! of it.

use vstd::prelude::*;
use vstd::string::StringExecFns;
use crate::config::{AssumeSubject, Config, MfaError, Subject};
use crate::credentials::{
    lookup, optional_text, position, views, without, Credentials, CredentialsFile,
    CredentialsModel, Entry, ProfileName,
};
use crate::time::Timestamp;

verus! {

/// For how many seconds more cached credentials must be valid to be used
/// as they are.
pub const FRESHNESS_MARGIN_SECS: i64 = 600;

/// Whether cached credentials can be used at `now` as they are: they do
/// not expire, or only more than `margin_secs` seconds later.
pub open spec fn fresh(c: CredentialsModel, now: Timestamp, margin_secs: i64) -> bool {
    match c.expires_at {
        Some(at) => at.beyond(now, margin_secs),
        None => true,
    }
}

/// Why a profile could not be resolved.
#[derive(Debug)]
pub enum ResolveError {
    /// The configuration does not know the profile.
    ProfileNotFound(ProfileName),
    /// The cache holds no credentials for the main profile. They are
    /// given from outside and cannot be assumed.
    MissingRootCredentials(ProfileName),
    /// The way from the profile to the main profile is longer than the
    /// configuration has profiles: roles are configured in a circle.
    ProfileCycle(ProfileName),
    /// Nothing can be presented to become the profile.
    UnknownAssumeSubject(ProfileName),
    /// No one-time code was obtained for the profile.
    InvalidMfaCode { profile: ProfileName, error: MfaError },
    /// The remote service refused to hand out credentials for the
    /// profile. `parent_key` is the access key that made the call.
    RemoteAssumption { profile: ProfileName, parent_key: String, reason: String },
    /// The resolution was ended while it waited for the profile.
    Unfinished(ProfileName),
}

/// What a [`ResolveError`] holds.
pub enum Fault {
    ProfileNotFound(Seq<char>),
    MissingRootCredentials(Seq<char>),
    ProfileCycle(Seq<char>),
    UnknownAssumeSubject(Seq<char>),
    InvalidMfaCode { profile: Seq<char>, error: MfaError },
    RemoteAssumption { profile: Seq<char>, parent_key: Seq<char>, reason: Seq<char> },
    Unfinished(Seq<char>),
}

impl View for ResolveError {
    type V = Fault;

    open spec fn view(&self) -> Fault {
        match self {
            ResolveError::ProfileNotFound(p) => Fault::ProfileNotFound(p@),
            ResolveError::MissingRootCredentials(p) => Fault::MissingRootCredentials(p@),
            ResolveError::ProfileCycle(p) => Fault::ProfileCycle(p@),
            ResolveError::UnknownAssumeSubject(p) => Fault::UnknownAssumeSubject(p@),
            ResolveError::InvalidMfaCode { profile, error } => Fault::InvalidMfaCode {
                profile: profile@,
                error: *error,
            },
            ResolveError::RemoteAssumption { profile, parent_key, reason } => Fault::RemoteAssumption {
                profile: profile@,
                parent_key: parent_key@,
                reason: reason@,
            },
            ResolveError::Unfinished(p) => Fault::Unfinished(p@),
        }
    }
}

impl ResolveError {
    /// The profile at which the resolution failed.
    pub fn profile(&self) -> (r: &ProfileName)
        ensures
            r@ == match self@ {
                Fault::ProfileNotFound(p) => p,
                Fault::MissingRootCredentials(p) => p,
                Fault::ProfileCycle(p) => p,
                Fault::UnknownAssumeSubject(p) => p,
                Fault::InvalidMfaCode { profile, .. } => profile,
                Fault::RemoteAssumption { profile, .. } => profile,
                Fault::Unfinished(p) => p,
            },
    {
        match self {
            ResolveError::ProfileNotFound(p) => p,
            ResolveError::MissingRootCredentials(p) => p,
            ResolveError::ProfileCycle(p) => p,
            ResolveError::UnknownAssumeSubject(p) => p,
            ResolveError::InvalidMfaCode { profile, .. } => profile,
            ResolveError::RemoteAssumption { profile, .. } => profile,
            ResolveError::Unfinished(p) => p,
        }
    }

    /// The error in words: which profile failed, and why.
    pub open spec fn text(self) -> Seq<char> {
        match self {
            ResolveError::ProfileNotFound(p) => "profile '"@ + p@ + "' does not exist"@,
            ResolveError::MissingRootCredentials(p) => "there are no credentials for the main profile '"@
                + p@ + "'"@,
            ResolveError::ProfileCycle(p) => "profile '"@ + p@ + "' is assumed from itself"@,
            ResolveError::UnknownAssumeSubject(p) => "cannot get assume subject for profile "@
                + p@,
            ResolveError::InvalidMfaCode { profile, error } => "no MFA code for profile '"@
                + profile@ + "': "@ + error.text(),
            ResolveError::RemoteAssumption { profile, parent_key, reason } => "cannot assume profile '"@
                + profile@ + "' with access key "@ + parent_key@ + ": "@ + reason@,
            ResolveError::Unfinished(p) => "profile '"@ + p@ + "' was not assumed"@,
        }
    }

    /// The error in words: which profile failed, and why.
    pub fn message(&self) -> (r: String)
        ensures
            r@ == self.text(),
    {
        match self {
            ResolveError::ProfileNotFound(p) => {
                let mut r = String::from_str("profile '");
                r.append(p.as_str());
                r.append("' does not exist");
                r
            },
            ResolveError::MissingRootCredentials(p) => {
                let mut r = String::from_str("there are no credentials for the main profile '");
                r.append(p.as_str());
                r.append("'");
                r
            },
            ResolveError::ProfileCycle(p) => {
                let mut r = String::from_str("profile '");
                r.append(p.as_str());
                r.append("' is assumed from itself");
                r
            },
            ResolveError::UnknownAssumeSubject(p) => {
                let mut r = String::from_str("cannot get assume subject for profile ");
                r.append(p.as_str());
                r
            },
            ResolveError::InvalidMfaCode { profile, error } => {
                let mut r = String::from_str("no MFA code for profile '");
                r.append(profile.as_str());
                r.append("': ");
                let why = error.message();
                r.append(why.as_str());
                r
            },
            ResolveError::RemoteAssumption { profile, parent_key, reason } => {
                let mut r = String::from_str("cannot assume profile '");
                r.append(profile.as_str());
                r.append("' with access key ");
                r.append(parent_key.as_str());
                r.append(": ");
                r.append(reason.as_str());
                r
            },
            ResolveError::Unfinished(p) => {
                let mut r = String::from_str("profile '");
                r.append(p.as_str());
                r.append("' was not assumed");
                r
            },
        }
    }
}

/// The credentials from which `profile` can be reached and the profiles
/// to take on from there, the one nearest to the main profile first and
/// `profile` last.
///
/// Cached credentials that are fresh are used as they are, and so are
/// those of the main profile, which nothing can renew. Any other profile
/// is assumed from its parent, which is resolved in the same way, over at
/// most `fuel` further profiles.
pub open spec fn chain(
    cfg: Config,
    store: Seq<Entry>,
    now: Timestamp,
    margin_secs: i64,
    profile: Seq<char>,
    fuel: nat,
) -> Result<(CredentialsModel, Seq<Seq<char>>), Fault>
    decreases fuel,
{
    let cached = lookup(store, profile);
    if cached is Some && (fresh(cached.unwrap(), now, margin_secs) || profile == cfg.main_name()) {
        Ok((cached.unwrap(), Seq::empty()))
    } else if profile == cfg.main_name() {
        Err(Fault::MissingRootCredentials(profile))
    } else {
        match cfg.parent(profile) {
            None => Err(Fault::ProfileNotFound(profile)),
            Some(parent) => if fuel == 0 {
                Err(Fault::ProfileCycle(profile))
            } else {
                match chain(cfg, store, now, margin_secs, parent, (fuel - 1) as nat) {
                    Ok((c, steps)) => Ok((c, steps.push(profile))),
                    Err(fault) => Err(fault),
                }
            },
        }
    }
}

/// Over how many profiles a chain can go: each configured role and the
/// MFA session.
pub open spec fn fuel_of(cfg: Config) -> nat {
    if cfg.table().len() < usize::MAX {
        cfg.table().len() + 1
    } else {
        cfg.table().len()
    }
}

/// Where a resolution stands.
#[derive(Debug)]
pub enum Stage {
    /// Nothing is left to do. `credentials` are those of the profile
    /// that was resolved, if one was.
    Settled { credentials: Option<Credentials> },
    /// A one-time code is needed to become `profile`.
    AwaitingCode { profile: ProfileName, with: Credentials, rest: Vec<ProfileName> },
    /// `subject` is to be presented to the remote service with the
    /// credentials `with`, to become `profile`.
    AwaitingRemote {
        profile: ProfileName,
        subject: AssumeSubject,
        with: Credentials,
        rest: Vec<ProfileName>,
    },
    /// The resolution has failed.
    Failed(ResolveError),
}

/// What a [`Stage`] holds.
pub enum StageModel {
    Settled { credentials: Option<CredentialsModel> },
    AwaitingCode { profile: Seq<char>, with: CredentialsModel, rest: Seq<Seq<char>> },
    AwaitingRemote {
        profile: Seq<char>,
        subject: Subject,
        with: CredentialsModel,
        rest: Seq<Seq<char>>,
    },
    Failed(Fault),
}

/// The view of optional credentials.
pub open spec fn optional_credentials(c: Option<Credentials>) -> Option<CredentialsModel> {
    match c {
        Some(c) => Some(c@),
        None => None,
    }
}

impl View for Stage {
    type V = StageModel;

    open spec fn view(&self) -> StageModel {
        match self {
            Stage::Settled { credentials } => StageModel::Settled {
                credentials: optional_credentials(*credentials),
            },
            Stage::AwaitingCode { profile, with, rest } => StageModel::AwaitingCode {
                profile: profile@,
                with: with@,
                rest: views(rest@),
            },
            Stage::AwaitingRemote { profile, subject, with, rest } => StageModel::AwaitingRemote {
                profile: profile@,
                subject: subject@,
                with: with@,
                rest: views(rest@),
            },
            Stage::Failed(e) => StageModel::Failed(e@),
        }
    }
}

/// A resolution: the store as it has been filled so far, and where the
/// resolution stands.
pub struct Progress {
    pub store: Seq<Entry>,
    pub stage: StageModel,
}

/// The stage at which the profiles `pending` are left to take on, the
/// first of them first, `with` being the credentials of the parent of
/// the first.
pub open spec fn prepared(cfg: Config, with: CredentialsModel, pending: Seq<Seq<char>>) -> StageModel {
    if pending.len() == 0 {
        StageModel::Settled { credentials: Some(with) }
    } else {
        let profile = pending[0];
        let rest = pending.drop_first();
        if profile == cfg.mfa_name() {
            StageModel::AwaitingCode { profile, with, rest }
        } else {
            match cfg.subject(profile, Seq::empty()) {
                Some(subject) => StageModel::AwaitingRemote { profile, subject, with, rest },
                None => StageModel::Failed(Fault::UnknownAssumeSubject(profile)),
            }
        }
    }
}

/// The resolution after `profile` was asked for at `now`. A resolution
/// starts where nothing is under way; one that waits or has failed stays
/// as it is.
pub open spec fn started(
    cfg: Config,
    at: Progress,
    now: Timestamp,
    margin_secs: i64,
    profile: Seq<char>,
) -> Progress {
    match at.stage {
        StageModel::Settled { .. } => Progress {
            store: at.store,
            stage: match chain(cfg, at.store, now, margin_secs, profile, fuel_of(cfg)) {
                Ok((with, steps)) => prepared(cfg, with, steps),
                Err(fault) => StageModel::Failed(fault),
            },
        },
        _ => at,
    }
}

/// The resolution after a one-time code was asked for and `code` came
/// back. Nothing changes where no code was awaited.
pub open spec fn with_code(cfg: Config, at: Progress, code: Result<Seq<char>, MfaError>) -> Progress {
    match at.stage {
        StageModel::AwaitingCode { profile, with, rest } => Progress {
            store: at.store,
            stage: match code {
                Ok(token_code) => match cfg.subject(profile, token_code) {
                    Some(subject) => StageModel::AwaitingRemote { profile, subject, with, rest },
                    None => StageModel::Failed(Fault::UnknownAssumeSubject(profile)),
                },
                Err(error) => StageModel::Failed(Fault::InvalidMfaCode { profile, error }),
            },
        },
        _ => at,
    }
}

/// The resolution after the remote service was called and `outcome` came
/// back: new credentials are stored for the profile and the resolution
/// goes on from them; a refusal ends it. Nothing changes where no call
/// was awaited.
pub open spec fn with_outcome(
    cfg: Config,
    at: Progress,
    outcome: Result<CredentialsModel, Seq<char>>,
) -> Progress {
    match at.stage {
        StageModel::AwaitingRemote { profile, subject, with, rest } => match outcome {
            Ok(credentials) => Progress {
                store: without(at.store, profile).push(Entry { name: profile, credentials }),
                stage: prepared(cfg, credentials, rest),
            },
            Err(reason) => Progress {
                store: at.store,
                stage: StageModel::Failed(
                    Fault::RemoteAssumption { profile, parent_key: with.access_key_id, reason },
                ),
            },
        },
        _ => at,
    }
}

/// What ending a resolution gives: the store and the credentials of the
/// resolved profile where nothing is left to do, else the reason why
/// there is nothing to keep.
pub open spec fn ended(at: Progress) -> Result<(Seq<Entry>, Option<CredentialsModel>), Fault> {
    match at.stage {
        StageModel::Settled { credentials } => Ok((at.store, credentials)),
        StageModel::Failed(fault) => Err(fault),
        StageModel::AwaitingCode { profile, .. } => Err(Fault::Unfinished(profile)),
        StageModel::AwaitingRemote { profile, .. } => Err(Fault::Unfinished(profile)),
    }
}

/// Fresh cached credentials are handed out as they are: the chain of a
/// profile that has them is empty, so that no remote call is made, and
/// its credentials are the cached ones.
pub proof fn lemma_fresh_entry_needs_no_call(
    cfg: Config,
    at: Progress,
    now: Timestamp,
    margin_secs: i64,
    profile: Seq<char>,
)
    requires
        at.stage is Settled,
        lookup(at.store, profile) matches Some(c) && fresh(c, now, margin_secs),
    ensures
        started(cfg, at, now, margin_secs, profile) == (Progress {
            store: at.store,
            stage: StageModel::Settled { credentials: lookup(at.store, profile) },
        }),
        request_at(cfg, started(cfg, at, now, margin_secs, profile).stage) == RequestModel::Done,
        ended(started(cfg, at, now, margin_secs, profile)) == Ok::<
            (Seq<Entry>, Option<CredentialsModel>),
            Fault,
        >((at.store, lookup(at.store, profile))),
{
}

/// A resolution that has failed stays failed, whatever it is told, and
/// hands out no store: nothing of what a failed pass has taken in can be
/// written.
pub proof fn lemma_failure_is_final(
    cfg: Config,
    at: Progress,
    now: Timestamp,
    margin_secs: i64,
    profile: Seq<char>,
    code: Result<Seq<char>, MfaError>,
    outcome: Result<CredentialsModel, Seq<char>>,
)
    requires
        at.stage is Failed,
    ensures
        started(cfg, at, now, margin_secs, profile) == at,
        with_code(cfg, at, code) == at,
        with_outcome(cfg, at, outcome) == at,
        request_at(cfg, at.stage) == RequestModel::Failed,
        ended(at) is Err,
{
}

/// A remote call that fails ends the resolution: the store stays as it
/// was before the call, the resolution has failed, and it hands out no
/// store.
pub proof fn lemma_refusal_fails(cfg: Config, at: Progress, reason: Seq<char>)
    requires
        at.stage is AwaitingRemote,
    ensures
        with_outcome(cfg, at, Err(reason)).stage is Failed,
        with_outcome(cfg, at, Err(reason)).store == at.store,
        ended(with_outcome(cfg, at, Err(reason))) is Err,
{
}

/// A one-time code that is not obtained ends the resolution before any
/// remote call is asked for with it.
pub proof fn lemma_missing_code_fails(cfg: Config, at: Progress, error: MfaError)
    requires
        at.stage is AwaitingCode,
    ensures
        with_code(cfg, at, Err(error)).stage is Failed,
        with_code(cfg, at, Err(error)).store == at.store,
        ended(with_code(cfg, at, Err(error))) is Err,
{
}

/// Each profile of a chain is taken on once: a call that succeeds stores
/// the credentials under the profile's name, hands them on to the next
/// profile, and leaves one profile less to take on.
pub proof fn lemma_call_stores_and_goes_on(cfg: Config, at: Progress, credentials: CredentialsModel)
    requires
        at.stage is AwaitingRemote,
    ensures
        ({
            let next = with_outcome(cfg, at, Ok(credentials));
            let profile = at.stage->AwaitingRemote_profile;
            let rest = at.stage->AwaitingRemote_rest;
            &&& lookup(next.store, profile) == Some(credentials)
            &&& next.stage == prepared(cfg, credentials, rest)
            &&& rest.len() == 0 ==> next.stage == StageModel::Settled {
                credentials: Some(credentials),
            }
        }),
{
    let profile = at.stage->AwaitingRemote_profile;
    let w = without(at.store, profile);
    let e = Entry { name: profile, credentials };
    crate::credentials::lemma_without(at.store, profile);
    crate::credentials::lemma_position(w.push(e), profile);
    crate::credentials::lemma_position(w, profile);
    if position(w, profile) is Some {
        let i = position(w, profile).unwrap();
        assert(w[i].name != profile);
    }
    assert(w.push(e).drop_last() == w);
}

/// The profiles of a chain lie on the way from the profile to the main
/// profile: each is assumed from the one before it, none of them is the
/// main profile, none has fresh credentials in the store, and the last
/// one is the profile that was asked for. The credentials at the head of
/// the chain are cached ones.
pub proof fn lemma_chain(
    cfg: Config,
    store: Seq<Entry>,
    now: Timestamp,
    margin_secs: i64,
    profile: Seq<char>,
    fuel: nat,
)
    requires
        chain(cfg, store, now, margin_secs, profile, fuel) is Ok,
    ensures
        ({
            let found = chain(cfg, store, now, margin_secs, profile, fuel)->Ok_0;
            let steps = found.1;
            &&& steps.len() <= fuel + 1
            &&& steps.len() == 0 ==> lookup(store, profile) == Some(found.0)
            &&& steps.len() > 0 ==> steps.last() == profile && cfg.parent(steps[0]) is Some
                && lookup(store, cfg.parent(steps[0]).unwrap()) == Some(found.0)
            &&& forall|i: int|
                0 <= i < steps.len() ==> (#[trigger] steps[i]) != cfg.main_name() && !(lookup(
                    store,
                    steps[i],
                ) matches Some(c) && fresh(c, now, margin_secs))
            &&& forall|i: int|
                0 < i < steps.len() ==> cfg.parent(#[trigger] steps[i]) == Some(steps[i - 1])
        }),
    decreases fuel,
{
    let found = chain(cfg, store, now, margin_secs, profile, fuel)->Ok_0;
    let steps = found.1;
    let cached = lookup(store, profile);
    if cached is Some && (fresh(cached.unwrap(), now, margin_secs) || profile == cfg.main_name()) {
    } else {
        let parent = cfg.parent(profile).unwrap();
        lemma_chain(cfg, store, now, margin_secs, parent, (fuel - 1) as nat);
        let inner = chain(cfg, store, now, margin_secs, parent, (fuel - 1) as nat)->Ok_0;
        assert(steps == inner.1.push(profile));
        assert forall|i: int| 0 <= i < steps.len() implies (#[trigger] steps[i]) != cfg.main_name()
            && !(lookup(store, steps[i]) matches Some(c) && fresh(c, now, margin_secs)) by {
            if i < inner.1.len() {
                assert(steps[i] == inner.1[i]);
            }
        }
        assert forall|i: int| 0 < i < steps.len() implies cfg.parent(#[trigger] steps[i]) == Some(
            steps[i - 1],
        ) by {
            if i < inner.1.len() {
                assert(steps[i] == inner.1[i]);
                assert(steps[i - 1] == inner.1[i - 1]);
            } else {
                if inner.1.len() > 0 {
                    assert(steps[i - 1] == inner.1.last());
                }
            }
        }
        if inner.1.len() > 0 {
            assert(steps[0] == inner.1[0]);
        }
    }
}

/// The bound on the length of a chain is not seen where it is not
/// reached: a chain that is found with some fuel, or fails for another
/// reason than its length, is the same with any more fuel.
pub proof fn lemma_chain_fuel(
    cfg: Config,
    store: Seq<Entry>,
    now: Timestamp,
    margin_secs: i64,
    profile: Seq<char>,
    fuel: nat,
    more: nat,
)
    requires
        fuel <= more,
        !(chain(cfg, store, now, margin_secs, profile, fuel) matches Err(Fault::ProfileCycle(_))),
    ensures
        chain(cfg, store, now, margin_secs, profile, more) == chain(
            cfg,
            store,
            now,
            margin_secs,
            profile,
            fuel,
        ),
    decreases fuel,
{
    let cached = lookup(store, profile);
    if cached is Some && (fresh(cached.unwrap(), now, margin_secs) || profile == cfg.main_name()) {
    } else if profile == cfg.main_name() {
    } else {
        match cfg.parent(profile) {
            None => {},
            Some(parent) => {
                lemma_chain_fuel(
                    cfg,
                    store,
                    now,
                    margin_secs,
                    parent,
                    (fuel - 1) as nat,
                    (more - 1) as nat,
                );
            },
        }
    }
}

/// What is to be done next in a resolution.
#[derive(Debug)]
pub enum Request {
    /// Nothing: the resolution has come to its end.
    Done,
    /// Nothing: the resolution has failed.
    Failed,
    /// Obtain a one-time code, from `command` where there is one, else
    /// from the user.
    TokenCode { command: Option<String> },
    /// Present `subject` to the remote service, with the credentials
    /// `with`.
    Assume { subject: AssumeSubject, with: Credentials },
}

/// What a [`Request`] holds.
pub enum RequestModel {
    Done,
    Failed,
    TokenCode { command: Option<Seq<char>> },
    Assume { subject: Subject, with: CredentialsModel },
}

impl View for Request {
    type V = RequestModel;

    open spec fn view(&self) -> RequestModel {
        match self {
            Request::Done => RequestModel::Done,
            Request::Failed => RequestModel::Failed,
            Request::TokenCode { command } => RequestModel::TokenCode {
                command: optional_text(*command),
            },
            Request::Assume { subject, with } => RequestModel::Assume {
                subject: subject@,
                with: with@,
            },
        }
    }
}

/// What is to be done next at a stage.
pub open spec fn request_at(cfg: Config, stage: StageModel) -> RequestModel {
    match stage {
        StageModel::Settled { .. } => RequestModel::Done,
        StageModel::Failed(_) => RequestModel::Failed,
        StageModel::AwaitingCode { .. } => RequestModel::TokenCode { command: cfg.command() },
        StageModel::AwaitingRemote { subject, with, .. } => RequestModel::Assume { subject, with },
    }
}

/// The view of the outcome of a remote call.
pub open spec fn outcome_view(outcome: Result<Credentials, String>) -> Result<
    CredentialsModel,
    Seq<char>,
> {
    match outcome {
        Ok(c) => Ok(c@),
        Err(reason) => Err(reason@),
    }
}

/// The view of what came back when a one-time code was asked for.
pub open spec fn code_view(code: Result<String, MfaError>) -> Result<Seq<char>, MfaError> {
    match code {
        Ok(c) => Ok(c@),
        Err(e) => Err(e),
    }
}

fn is_fresh(c: &Credentials, now: &Timestamp, margin_secs: i64) -> (r: bool)
    ensures
        r == fresh(c@, *now, margin_secs),
{
    match &c.expires_at {
        Some(at) => at.is_beyond(now, margin_secs),
        None => true,
    }
}

fn plan(
    store: &CredentialsFile,
    config: &Config,
    now: &Timestamp,
    margin_secs: i64,
    profile: &ProfileName,
    fuel: usize,
) -> (r: Result<(Credentials, Vec<ProfileName>), ResolveError>)
    ensures
        match r {
            Ok(found) => chain(*config, store@, *now, margin_secs, profile@, fuel as nat) == Ok::<
                (CredentialsModel, Seq<Seq<char>>),
                Fault,
            >((found.0@, views(found.1@))),
            Err(e) => chain(*config, store@, *now, margin_secs, profile@, fuel as nat) == Err::<
                (CredentialsModel, Seq<Seq<char>>),
                Fault,
            >(e@),
        },
    decreases fuel,
{
    let is_main = profile.is(config.main_profile());
    match store.get_credentials(profile) {
        Some(c) => {
            if is_main || is_fresh(c, now, margin_secs) {
                let steps: Vec<ProfileName> = Vec::new();
                assert(views(steps@) == Seq::<Seq<char>>::empty());
                return Ok((c.clone(), steps));
            }
        },
        None => {},
    }
    if is_main {
        return Err(ResolveError::MissingRootCredentials(profile.clone()));
    }
    match config.parent_profile(profile) {
        None => Err(ResolveError::ProfileNotFound(profile.clone())),
        Some(parent) => {
            if fuel == 0 {
                Err(ResolveError::ProfileCycle(profile.clone()))
            } else {
                match plan(store, config, now, margin_secs, parent, fuel - 1) {
                    Ok(found) => {
                        let (c, mut steps) = found;
                        let ghost before = views(steps@);
                        steps.push(profile.clone());
                        assert(views(steps@) == before.push(profile@));
                        Ok((c, steps))
                    },
                    Err(e) => Err(e),
                }
            }
        },
    }
}

fn prepare(config: &Config, with: Credentials, pending: Vec<ProfileName>) -> (r: Stage)
    ensures
        r@ == prepared(*config, with@, views(pending@)),
{
    let mut pending = pending;
    if pending.len() == 0 {
        Stage::Settled { credentials: Some(with) }
    } else {
        let ghost all = views(pending@);
        let profile = pending.remove(0);
        assert(views(pending@) == all.drop_first());
        if config.needs_token_code(&profile) {
            Stage::AwaitingCode { profile, with, rest: pending }
        } else {
            let empty = String::new();
            match config.assume_subject(&profile, empty.as_str()) {
                Some(subject) => Stage::AwaitingRemote { profile, subject, with, rest: pending },
                None => Stage::Failed(ResolveError::UnknownAssumeSubject(profile)),
            }
        }
    }
}

/// A resolution under way: a store, the configuration by which profiles
/// are resolved, and the stage that the resolution has reached.
#[derive(Debug)]
pub struct RoleAssumer<'a> {
    store: CredentialsFile,
    config: &'a Config,
    margin_secs: i64,
    stage: Stage,
}

impl<'a> RoleAssumer<'a> {
    /// The configuration by which profiles are resolved.
    pub closed spec fn config(self) -> Config {
        *self.config
    }

    /// For how many seconds more cached credentials must be valid to be
    /// used as they are.
    pub closed spec fn margin(self) -> i64 {
        self.margin_secs
    }

    /// The store as it has been filled, and the stage that was reached.
    pub closed spec fn progress(self) -> Progress {
        Progress { store: self.store@, stage: self.stage@ }
    }

    /// A resolver on `store` with nothing under way.
    pub fn new(store: CredentialsFile, config: &'a Config, margin_secs: i64) -> (r: Self)
        ensures
            r.config() == *config,
            r.margin() == margin_secs,
            r.progress() == (Progress {
                store: store@,
                stage: StageModel::Settled { credentials: None },
            }),
    {
        RoleAssumer { store, config, margin_secs, stage: Stage::Settled { credentials: None } }
    }

    /// Starts to resolve `profile` at `now`.
    ///
    /// Where the store holds fresh credentials for `profile`, nothing is
    /// left to do. Else the nearest profile with fresh credentials is
    /// looked for on the way to the main profile, and each profile from
    /// there down to `profile` is to be taken on in turn.
    pub fn resolve(self, profile: &str, now: &Timestamp) -> (r: Self)
        ensures
            r.config() == self.config(),
            r.margin() == self.margin(),
            r.progress() == started(self.config(), self.progress(), *now, self.margin(), profile@),
    {
        match self.stage {
            Stage::Settled { credentials } => {
                let n = self.config.profile_count();
                let fuel = if n < usize::MAX {
                    n + 1
                } else {
                    n
                };
                let name = ProfileName::new(profile);
                let stage = match plan(
                    &self.store,
                    self.config,
                    now,
                    self.margin_secs,
                    &name,
                    fuel,
                ) {
                    Ok(found) => prepare(self.config, found.0, found.1),
                    Err(e) => Stage::Failed(e),
                };
                RoleAssumer {
                    store: self.store,
                    config: self.config,
                    margin_secs: self.margin_secs,
                    stage,
                }
            },
            _ => self,
        }
    }

    /// What is to be done next.
    pub fn request(&self) -> (r: Request)
        ensures
            r@ == request_at(self.config(), self.progress().stage),
    {
        match &self.stage {
            Stage::Settled { .. } => Request::Done,
            Stage::Failed(_) => Request::Failed,
            Stage::AwaitingCode { .. } => Request::TokenCode {
                command: match self.config.mfa_command() {
                    Some(c) => Some(c.clone()),
                    None => None,
                },
            },
            Stage::AwaitingRemote { subject, with, .. } => Request::Assume {
                subject: match subject {
                    AssumeSubject::Role { role_arn, session_name } => AssumeSubject::Role {
                        role_arn: role_arn.clone(),
                        session_name: session_name.clone(),
                    },
                    AssumeSubject::MfaSession { serial_number, token_code } => AssumeSubject::MfaSession {
                        serial_number: serial_number.clone(),
                        token_code: token_code.clone(),
                    },
                },
                with: with.clone(),
            },
        }
    }

    /// Goes on after a one-time code was asked for: `code` is the code,
    /// or why there is none.
    pub fn token_code(self, code: Result<String, MfaError>) -> (r: Self)
        ensures
            r.config() == self.config(),
            r.margin() == self.margin(),
            r.progress() == with_code(self.config(), self.progress(), code_view(code)),
    {
        match self.stage {
            Stage::AwaitingCode { profile, with, rest } => {
                let stage = match code {
                    Ok(token_code) => match self.config.assume_subject(
                        &profile,
                        token_code.as_str(),
                    ) {
                        Some(subject) => Stage::AwaitingRemote { profile, subject, with, rest },
                        None => Stage::Failed(ResolveError::UnknownAssumeSubject(profile)),
                    },
                    Err(error) => Stage::Failed(ResolveError::InvalidMfaCode { profile, error }),
                };
                RoleAssumer {
                    store: self.store,
                    config: self.config,
                    margin_secs: self.margin_secs,
                    stage,
                }
            },
            _ => self,
        }
    }

    /// Goes on after the remote service was called: `outcome` is the
    /// credentials that it handed out, or why it handed out none.
    pub fn assumed(self, outcome: Result<Credentials, String>) -> (r: Self)
        ensures
            r.config() == self.config(),
            r.margin() == self.margin(),
            r.progress() == with_outcome(self.config(), self.progress(), outcome_view(outcome)),
    {
        match self.stage {
            Stage::AwaitingRemote { profile, subject, with, rest } => {
                match outcome {
                    Ok(credentials) => {
                        let mut store = self.store;
                        store.put_credentials(profile, credentials.clone());
                        let stage = prepare(self.config, credentials, rest);
                        RoleAssumer {
                            store,
                            config: self.config,
                            margin_secs: self.margin_secs,
                            stage,
                        }
                    },
                    Err(reason) => RoleAssumer {
                        store: self.store,
                        config: self.config,
                        margin_secs: self.margin_secs,
                        stage: Stage::Failed(
                            ResolveError::RemoteAssumption {
                                profile,
                                parent_key: with.access_key_id,
                                reason,
                            },
                        ),
                    },
                }
            },
            _ => self,
        }
    }

    /// Ends the resolution. The store is handed out, to be written, only
    /// where nothing is left to do; with it come the credentials of the
    /// profile that was resolved. After a failure, and while something is
    /// awaited, what the store has taken in is given up.
    pub fn finish(self) -> (r: Result<(CredentialsFile, Option<Credentials>), ResolveError>)
        ensures
            match r {
                Ok(kept) => ended(self.progress()) == Ok::<
                    (Seq<Entry>, Option<CredentialsModel>),
                    Fault,
                >((kept.0@, optional_credentials(kept.1))),
                Err(e) => ended(self.progress()) == Err::<
                    (Seq<Entry>, Option<CredentialsModel>),
                    Fault,
                >(e@),
            },
    {
        match self.stage {
            Stage::Settled { credentials } => Ok((self.store, credentials)),
            Stage::Failed(e) => Err(e),
            Stage::AwaitingCode { profile, .. } => Err(ResolveError::Unfinished(profile)),
            Stage::AwaitingRemote { profile, .. } => Err(ResolveError::Unfinished(profile)),
        }
    }
}

} // verus!
