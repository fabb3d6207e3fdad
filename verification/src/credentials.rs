//! The local credential store: which credentials are cached for which
//! profile, and the text of the cache file.

use vstd::prelude::*;
use vstd::string::StringExecFns;
use crate::cache_text::{
    parse_sections, render, render_entries, sections_of, Property, RawSection, Section,
};
use crate::expirations::{
    expiration, expiration_document, expiration_table, CredentialExpirations, TableError,
};
use crate::text::chars_of;
use crate::time::Timestamp;

verus! {

/// The name of a profile. Names are compared character by character.
#[derive(Debug, PartialEq, Eq, Hash, PartialOrd, Ord)]
pub struct ProfileName(pub String);

impl View for ProfileName {
    type V = Seq<char>;

    open spec fn view(&self) -> Seq<char> {
        self.0@
    }
}

impl Clone for ProfileName {
    fn clone(&self) -> (r: Self)
        ensures
            r == *self,
    {
        ProfileName(self.0.clone())
    }
}

impl ProfileName {
    pub fn new(name: &str) -> (r: Self)
        ensures
            r@ == name@,
    {
        ProfileName(name.to_owned())
    }

    pub fn as_str(&self) -> (r: &str)
        ensures
            r@ == self@,
    {
        self.0.as_str()
    }

    /// Whether both names are the same.
    pub fn is(&self, other: &ProfileName) -> (r: bool)
        ensures
            r == (self@ == other@),
    {
        self.0 == other.0
    }
}

/// The view of an optional string.
pub open spec fn optional_text(s: Option<String>) -> Option<Seq<char>> {
    match s {
        Some(t) => Some(t@),
        None => None,
    }
}

/// One set of credentials: a key pair, the session token of a temporary
/// set, and the instant after which it is no longer valid.
#[derive(Debug)]
pub struct Credentials {
    pub access_key_id: String,
    pub secret_access_key: String,
    pub session_token: Option<String>,
    pub expires_at: Option<Timestamp>,
}

/// What a [`Credentials`] value holds.
pub struct CredentialsModel {
    pub access_key_id: Seq<char>,
    pub secret_access_key: Seq<char>,
    pub session_token: Option<Seq<char>>,
    pub expires_at: Option<Timestamp>,
}

impl View for Credentials {
    type V = CredentialsModel;

    open spec fn view(&self) -> CredentialsModel {
        CredentialsModel {
            access_key_id: self.access_key_id@,
            secret_access_key: self.secret_access_key@,
            session_token: optional_text(self.session_token),
            expires_at: self.expires_at,
        }
    }
}

impl Clone for Credentials {
    fn clone(&self) -> (r: Self)
        ensures
            r@ == self@,
    {
        Credentials {
            access_key_id: self.access_key_id.clone(),
            secret_access_key: self.secret_access_key.clone(),
            session_token: match &self.session_token {
                Some(t) => Some(t.clone()),
                None => None,
            },
            expires_at: self.expires_at,
        }
    }
}

impl Credentials {
    pub fn new(
        access_key_id: &str,
        secret_access_key: &str,
        session_token: Option<String>,
        expires_at: Option<Timestamp>,
    ) -> (r: Self)
        ensures
            r@.access_key_id == access_key_id@,
            r@.secret_access_key == secret_access_key@,
            r@.session_token == optional_text(session_token),
            r@.expires_at == expires_at,
    {
        Credentials {
            access_key_id: access_key_id.to_owned(),
            secret_access_key: secret_access_key.to_owned(),
            session_token,
            expires_at,
        }
    }
}

/// The credentials cached for one profile.
#[derive(Debug)]
pub struct CredentialsProfile {
    pub profile_name: ProfileName,
    pub credentials: Credentials,
}

/// What a [`CredentialsProfile`] holds.
pub struct Entry {
    pub name: Seq<char>,
    pub credentials: CredentialsModel,
}

impl View for CredentialsProfile {
    type V = Entry;

    open spec fn view(&self) -> Entry {
        Entry { name: self.profile_name@, credentials: self.credentials@ }
    }
}

/// The views of the items of a sequence.
pub open spec fn views<T: View>(s: Seq<T>) -> Seq<T::V> {
    Seq::new(s.len(), |i: int| s[i]@)
}

/// Whether no two entries have the same name.
pub open spec fn distinct_names(s: Seq<Entry>) -> bool {
    forall|i: int, j: int| 0 <= i < j < s.len() ==> s[i].name != s[j].name
}

/// The position of the first entry named `name`, if there is one.
pub open spec fn position(s: Seq<Entry>, name: Seq<char>) -> Option<int>
    decreases s.len(),
{
    if s.len() == 0 {
        None
    } else {
        match position(s.drop_last(), name) {
            Some(i) => Some(i),
            None => if s.last().name == name {
                Some(s.len() - 1)
            } else {
                None
            },
        }
    }
}

/// The credentials of the first entry named `name`.
pub open spec fn lookup(s: Seq<Entry>, name: Seq<char>) -> Option<CredentialsModel> {
    match position(s, name) {
        Some(i) => Some(s[i].credentials),
        None => None,
    }
}

/// The entries of `s` that are not named `name`, in their order.
pub open spec fn without(s: Seq<Entry>, name: Seq<char>) -> Seq<Entry>
    decreases s.len(),
{
    if s.len() == 0 {
        s
    } else if s.last().name == name {
        without(s.drop_last(), name)
    } else {
        without(s.drop_last(), name).push(s.last())
    }
}

/// `position` finds the first entry of that name.
pub proof fn lemma_position(s: Seq<Entry>, name: Seq<char>)
    ensures
        match position(s, name) {
            Some(i) => 0 <= i < s.len() && s[i].name == name && forall|j: int|
                0 <= j < i ==> (#[trigger] s[j]).name != name,
            None => forall|j: int| 0 <= j < s.len() ==> (#[trigger] s[j]).name != name,
        },
    decreases s.len(),
{
    if s.len() > 0 {
        let t = s.drop_last();
        lemma_position(t, name);
        match position(t, name) {
            Some(i) => {
                assert(s[i] == t[i]);
                assert forall|j: int| 0 <= j < i implies (#[trigger] s[j]).name != name by {
                    assert(t[j].name != name);
                }
            },
            None => {
                assert forall|j: int| 0 <= j < t.len() implies (#[trigger] s[j]).name
                    != name by {
                    assert(t[j].name != name);
                }
            },
        }
    }
}

/// Taking a name out leaves the other entries, none of them new, and
/// none of that name.
pub proof fn lemma_without(s: Seq<Entry>, name: Seq<char>)
    ensures
        without(s, name).len() <= s.len(),
        forall|i: int|
            0 <= i < without(s, name).len() ==> (#[trigger] without(s, name)[i]).name != name
                && s.contains(without(s, name)[i]),
        forall|j: int|
            0 <= j < s.len() && (#[trigger] s[j]).name != name ==> without(s, name).contains(
                s[j],
            ),
        distinct_names(s) ==> distinct_names(without(s, name)),
        position(s, name) is None ==> without(s, name) == s,
    decreases s.len(),
{
    if s.len() > 0 {
        let t = s.drop_last();
        let last = s.last();
        lemma_without(t, name);
        lemma_position(s, name);
        let w = without(s, name);
        let wt = without(t, name);
        assert forall|i: int| 0 <= i < w.len() implies (#[trigger] w[i]).name != name
            && s.contains(w[i]) by {
            if i < wt.len() {
                assert(w[i] == wt[i]);
                assert(t.contains(wt[i]));
                let k = choose|k: int| 0 <= k < t.len() && t[k] == wt[i];
                assert(s[k] == w[i]);
            } else {
                assert(s[s.len() - 1] == w[i]);
            }
        }
        assert forall|j: int| 0 <= j < s.len() && (#[trigger] s[j]).name != name implies w.contains(
            s[j],
        ) by {
            if j < t.len() {
                assert(t[j] == s[j]);
                assert(wt.contains(t[j]));
                let k = choose|k: int| 0 <= k < wt.len() && wt[k] == t[j];
                assert(w[k] == s[j]);
            } else {
                assert(w[w.len() - 1] == s[j]);
            }
        }
        if distinct_names(s) {
            assert forall|i: int, j: int| 0 <= i < j < t.len() implies t[i].name
                != t[j].name by {
                assert(s[i].name != s[j].name);
            }
            assert(distinct_names(wt));
            if last.name != name {
                assert forall|i: int, j: int| 0 <= i < j < w.len() implies w[i].name
                    != w[j].name by {
                    assert(w[i] == wt[i]);
                    if j == w.len() - 1 {
                        assert(t.contains(wt[i]));
                        let k = choose|k: int| 0 <= k < t.len() && t[k] == wt[i];
                        assert(s[k] == t[k]);
                        assert(s[k].name != s[s.len() - 1].name);
                    } else {
                        assert(w[j] == wt[j]);
                    }
                }
            }
        }
        if position(s, name) is None {
            assert(s[s.len() - 1].name != name);
            assert forall|j: int| 0 <= j < t.len() implies (#[trigger] t[j]).name != name by {
                assert(s[j].name != name);
            }
            lemma_position(t, name);
            assert(position(t, name) is None);
            assert(wt == t);
            assert(t.push(last) == s);
        }
    }
}

/// The property that a section lacks, of the two that it must hold; the
/// access key comes first.
pub open spec fn missing(s: Section) -> Option<Property> {
    if s.access_key_id is None {
        Some(Property::AccessKeyId)
    } else if s.secret_access_key is None {
        Some(Property::SecretAccessKey)
    } else {
        None
    }
}

/// The index of the first section that lacks a property, if one does.
pub open spec fn first_incomplete(sections: Seq<Section>) -> Option<int>
    decreases sections.len(),
{
    if sections.len() == 0 {
        None
    } else {
        match first_incomplete(sections.drop_last()) {
            Some(i) => Some(i),
            None => if missing(sections.last()) is Some {
                Some(sections.len() - 1)
            } else {
                None
            },
        }
    }
}

/// The entry that a complete section makes, with the expiration that
/// the side table records.
pub open spec fn entry_of(s: Section, expires_at: Option<Timestamp>) -> Entry {
    Entry {
        name: s.name,
        credentials: CredentialsModel {
            access_key_id: s.access_key_id.unwrap(),
            secret_access_key: s.secret_access_key.unwrap(),
            session_token: s.session_token,
            expires_at,
        },
    }
}

/// Whether credentials read from the cache at `now` may be used: they
/// have not expired, and without a recorded expiration they are
/// long-lived ones, which carry no session token.
pub open spec fn usable(c: CredentialsModel, now: Timestamp) -> bool {
    match c.expires_at {
        Some(at) => !now.after(at),
        None => c.session_token is None,
    }
}

/// The entries that are taken over from complete sections at `now`: in
/// the order of the sections, each with its recorded expiration, without
/// those that may not be used and without those whose name an earlier
/// entry has.
pub open spec fn admitted(
    sections: Seq<Section>,
    table: Seq<(Seq<char>, i64, u32)>,
    now: Timestamp,
) -> Seq<Entry>
    decreases sections.len(),
{
    if sections.len() == 0 {
        Seq::empty()
    } else {
        let earlier = admitted(sections.drop_last(), table, now);
        let e = entry_of(sections.last(), expiration(table, sections.last().name));
        if usable(e.credentials, now) && position(earlier, e.name) is None {
            earlier.push(e)
        } else {
            earlier
        }
    }
}

/// What reading the cache file `text` at `now` gives, with the side table
/// `table`: the admitted entries, or the name of the first section that
/// lacks a property, and that property.
pub open spec fn load(text: Seq<char>, table: Seq<(Seq<char>, i64, u32)>, now: Timestamp) -> Result<
    Seq<Entry>,
    (Seq<char>, Property),
> {
    let sections = sections_of(text);
    match first_incomplete(sections) {
        Some(i) => Err((sections[i].name, missing(sections[i]).unwrap())),
        None => Ok(admitted(sections, table, now)),
    }
}

/// The rows of the side table for `entries`: one for each entry that
/// has an expiration, in their order.
pub open spec fn recorded(entries: Seq<Entry>) -> Seq<(Seq<char>, i64, u32)>
    decreases entries.len(),
{
    if entries.len() == 0 {
        Seq::empty()
    } else {
        match entries.last().credentials.expires_at {
            Some(at) => recorded(entries.drop_last()).push((entries.last().name, at.secs, at.nanos)),
            None => recorded(entries.drop_last()),
        }
    }
}

/// The rows of the side table whose document is `content`: none where
/// there is no document.
pub open spec fn side_table(content: Option<&str>) -> Option<Seq<(Seq<char>, i64, u32)>> {
    match content {
        Some(text) => expiration_table(text@),
        None => Some(Seq::empty()),
    }
}

/// `first_incomplete` finds the first section that lacks a property.
pub proof fn lemma_first_incomplete(sections: Seq<Section>)
    ensures
        match first_incomplete(sections) {
            Some(i) => 0 <= i < sections.len() && missing(sections[i]) is Some && forall|j: int|
                0 <= j < i ==> missing(#[trigger] sections[j]) is None,
            None => forall|j: int|
                0 <= j < sections.len() ==> missing(#[trigger] sections[j]) is None,
        },
    decreases sections.len(),
{
    if sections.len() > 0 {
        let t = sections.drop_last();
        lemma_first_incomplete(t);
        match first_incomplete(t) {
            Some(i) => {
                assert(sections[i] == t[i]);
                assert forall|j: int| 0 <= j < i implies missing(#[trigger] sections[j])
                    is None by {
                    assert(missing(t[j]) is None);
                }
            },
            None => {
                assert forall|j: int| 0 <= j < t.len() implies missing(#[trigger] sections[j])
                    is None by {
                    assert(missing(t[j]) is None);
                }
            },
        }
    }
}

/// Every admitted entry may be used at `now`, has the expiration that
/// the table records for its name, and shares its name with no other.
pub proof fn lemma_admitted(
    sections: Seq<Section>,
    table: Seq<(Seq<char>, i64, u32)>,
    now: Timestamp,
)
    ensures
        admitted(sections, table, now).len() <= sections.len(),
        distinct_names(admitted(sections, table, now)),
        forall|i: int|
            0 <= i < admitted(sections, table, now).len() ==> {
                let e = #[trigger] admitted(sections, table, now)[i];
                usable(e.credentials, now) && e.credentials.expires_at == expiration(
                    table,
                    e.name,
                )
            },
    decreases sections.len(),
{
    if sections.len() > 0 {
        let t = sections.drop_last();
        lemma_admitted(t, table, now);
        let earlier = admitted(t, table, now);
        let all = admitted(sections, table, now);
        let e = entry_of(sections.last(), expiration(table, sections.last().name));
        lemma_position(earlier, e.name);
        assert forall|i: int| 0 <= i < all.len() implies {
            let x = #[trigger] all[i];
            usable(x.credentials, now) && x.credentials.expires_at == expiration(table, x.name)
        } by {
            if i < earlier.len() {
                assert(all[i] == earlier[i]);
            }
        }
        assert forall|i: int, j: int| 0 <= i < j < all.len() implies all[i].name
            != all[j].name by {
            assert(all[i] == earlier[i]);
            if j < earlier.len() {
                assert(all[j] == earlier[j]);
            }
        }
    }
}

/// The index of the first of `profiles` that is named `name`.
fn index_of(profiles: &Vec<CredentialsProfile>, name: &ProfileName) -> (r: Option<usize>)
    ensures
        match r {
            Some(i) => position(views(profiles@), name@) == Some(i as int) && i < profiles.len(),
            None => position(views(profiles@), name@) is None,
        },
{
    let ghost all = views(profiles@);
    let mut i: usize = 0;
    while i < profiles.len()
        invariant
            i <= profiles.len(),
            all == views(profiles@),
            position(all.take(i as int), name@) is None,
        decreases profiles.len() - i,
    {
        if profiles[i].profile_name.is(name) {
            proof {
                lemma_position(all, name@);
                lemma_position(all.take(i as int), name@);
                if position(all, name@) != Some(i as int) {
                    let k = position(all, name@).unwrap();
                    if k < i {
                        assert(all.take(i as int)[k] == all[k]);
                    }
                }
            }
            return Some(i);
        }
        proof {
            assert(all.take(i + 1).drop_last() == all.take(i as int));
        }
        i += 1;
    }
    assert(all.take(i as int) == all);
    None
}

/// Why the cache could not be read or written.
#[derive(Debug)]
pub enum StoreError {
    /// The section of `profile` in the cache file lacks `property`.
    MissingProperty { profile: ProfileName, property: Property },
    /// The side table of expirations could not be read or written.
    Expirations(TableError),
}

impl StoreError {
    /// The error in words.
    pub fn message(&self) -> (r: String)
        ensures
            self matches StoreError::MissingProperty { profile, property } ==> r@ == "Profile "@
                + profile@ + " does not have property "@ + property.key(),
            self matches StoreError::Expirations(TableError::Malformed(reason)) ==> r@
                == "Cannot parse expirations: "@ + reason@,
            self matches StoreError::Expirations(TableError::OutOfRange) ==> r@
                == "Cannot encode expirations into TOML"@,
    {
        match self {
            StoreError::MissingProperty { profile, property } => {
                let mut r = String::from_str("Profile ");
                r.append(profile.as_str());
                r.append(" does not have property ");
                r.append(property.name());
                r
            },
            StoreError::Expirations(TableError::Malformed(reason)) => {
                let mut r = String::from_str("Cannot parse expirations: ");
                r.append(reason.as_str());
                r
            },
            StoreError::Expirations(TableError::OutOfRange) => String::from_str(
                "Cannot encode expirations into TOML",
            ),
        }
    }
}

/// The two documents in which a store is kept.
#[derive(Debug)]
pub struct StoreImage {
    /// The text of the cache file.
    pub credentials: String,
    /// The text of the side table of expirations.
    pub expirations: String,
}

/// The name of a cached profile and the expiration of its credentials.
#[derive(Debug)]
pub struct CredentialsData {
    pub profile_name: String,
    pub expires_at: Option<Timestamp>,
}

fn copy_of(text: &Option<String>) -> (r: Option<String>)
    ensures
        r == *text,
{
    match text {
        Some(t) => Some(t.clone()),
        None => None,
    }
}

/// The index of the first section that lacks a property.
fn find_incomplete(sections: &Vec<RawSection>) -> (r: Option<usize>)
    ensures
        match r {
            Some(i) => first_incomplete(views(sections@)) == Some(i as int) && i < sections.len(),
            None => first_incomplete(views(sections@)) is None,
        },
{
    let ghost all = views(sections@);
    let mut i: usize = 0;
    while i < sections.len()
        invariant
            i <= sections.len(),
            all == views(sections@),
            first_incomplete(all.take(i as int)) is None,
        decreases sections.len() - i,
    {
        if sections[i].access_key_id.is_none() || sections[i].secret_access_key.is_none() {
            proof {
                lemma_first_incomplete(all);
                lemma_first_incomplete(all.take(i as int));
                assert(missing(all[i as int]) is Some);
                if first_incomplete(all) != Some(i as int) {
                    let k = first_incomplete(all).unwrap();
                    if k < i {
                        assert(all.take(i as int)[k] == all[k]);
                    }
                }
            }
            return Some(i);
        }
        proof {
            assert(all.take(i + 1).drop_last() == all.take(i as int));
        }
        i += 1;
    }
    assert(all.take(i as int) == all);
    None
}

/// An entry whose recorded expiration has passed at `now` is not in the
/// store that is read at `now`: no credentials are found under its name.
pub proof fn lemma_expired_entry_is_absent(
    text: Seq<char>,
    table: Seq<(Seq<char>, i64, u32)>,
    now: Timestamp,
    name: Seq<char>,
)
    requires
        load(text, table, now) is Ok,
        expiration(table, name) matches Some(at) && now.after(at),
    ensures
        lookup(load(text, table, now)->Ok_0, name) is None,
{
    let entries = load(text, table, now)->Ok_0;
    lemma_admitted(sections_of(text), table, now);
    lemma_position(entries, name);
    if position(entries, name) is Some {
        let i = position(entries, name).unwrap();
        assert(usable(entries[i].credentials, now));
    }
}

/// An entry that carries a session token while no expiration is recorded
/// for it is not in the store that is read: what is found under a name
/// without a recorded expiration carries no session token.
pub proof fn lemma_token_without_expiration_is_dropped(
    text: Seq<char>,
    table: Seq<(Seq<char>, i64, u32)>,
    now: Timestamp,
    name: Seq<char>,
)
    requires
        load(text, table, now) is Ok,
        expiration(table, name) is None,
    ensures
        lookup(load(text, table, now)->Ok_0, name) matches Some(c) ==> c.session_token
            is None && c.expires_at is None,
{
    let entries = load(text, table, now)->Ok_0;
    lemma_admitted(sections_of(text), table, now);
    lemma_position(entries, name);
    if position(entries, name) is Some {
        let i = position(entries, name).unwrap();
        assert(usable(entries[i].credentials, now));
    }
}

/// Whatever is read at `now` may be used at `now`, and no two entries
/// that are read have the same name.
pub proof fn lemma_loaded_entries_are_usable(
    text: Seq<char>,
    table: Seq<(Seq<char>, i64, u32)>,
    now: Timestamp,
)
    requires
        load(text, table, now) is Ok,
    ensures
        distinct_names(load(text, table, now)->Ok_0),
        forall|i: int|
            0 <= i < load(text, table, now)->Ok_0.len() ==> usable(
                (#[trigger] load(text, table, now)->Ok_0[i]).credentials,
                now,
            ),
{
    lemma_admitted(sections_of(text), table, now);
}

/// The cached credentials, at most one set for each profile, in the
/// order in which they were stored.
#[derive(Debug)]
pub struct CredentialsFile {
    profiles: Vec<CredentialsProfile>,
}

impl View for CredentialsFile {
    type V = Seq<Entry>;

    closed spec fn view(&self) -> Seq<Entry> {
        views(self.profiles@)
    }
}

impl CredentialsFile {
    #[verifier::type_invariant]
    spec fn well_formed(self) -> bool {
        distinct_names(views(self.profiles@))
    }

    /// Makes known to the caller that no two entries of a store have the
    /// same name. Does nothing when run.
    pub fn distinct(&self)
        ensures
            distinct_names(self@),
    {
        proof {
            use_type_invariant(self);
        }
    }

    /// A store without entries.
    pub fn new() -> (r: Self)
        ensures
            r@ == Seq::<Entry>::empty(),
    {
        let r = CredentialsFile { profiles: Vec::new() };
        assert(r@ == Seq::<Entry>::empty());
        r
    }

    /// How many profiles have credentials.
    pub fn len(&self) -> (n: usize)
        ensures
            n == self@.len(),
    {
        self.profiles.len()
    }

    /// The credentials stored for `profile_name`.
    pub fn get_credentials(&self, profile_name: &ProfileName) -> (r: Option<&Credentials>)
        ensures
            match r {
                Some(c) => lookup(self@, profile_name@) == Some(c@),
                None => lookup(self@, profile_name@) is None,
            },
    {
        match index_of(&self.profiles, profile_name) {
            Some(i) => Some(&self.profiles[i].credentials),
            None => None,
        }
    }

    /// Stores `credentials` for `profile`, in place of what was stored
    /// for it; the new entry comes last.
    pub fn put_credentials(&mut self, profile: ProfileName, credentials: Credentials)
        ensures
            final(self)@ == without(old(self)@, profile@).push(
                Entry { name: profile@, credentials: credentials@ },
            ),
            distinct_names(final(self)@),
    {
        proof {
            use_type_invariant(&*self);
        }
        let mut kept: Vec<CredentialsProfile> = Vec::new();
        let mut i: usize = 0;
        let n = self.profiles.len();
        while i < n
            invariant
                i <= n,
                n == self.profiles.len(),
                self.profiles == old(self).profiles,
                views(kept@) == without(views(self.profiles@).take(i as int), profile@),
            decreases n - i,
        {
            let ghost all = views(self.profiles@);
            proof {
                assert(all.take(i + 1).drop_last() == all.take(i as int));
            }
            if !self.profiles[i].profile_name.is(&profile) {
                let ghost before = views(kept@);
                kept.push(
                    CredentialsProfile {
                        profile_name: self.profiles[i].profile_name.clone(),
                        credentials: self.profiles[i].credentials.clone(),
                    },
                );
                assert(views(kept@) == before.push(all[i as int]));
            }
            i += 1;
        }
        proof {
            let all = views(self.profiles@);
            assert(all.take(n as int) == all);
            lemma_without(all, profile@);
            let w = without(all, profile@);
            let e = Entry { name: profile@, credentials: credentials@ };
            let we = w.push(e);
            assert forall|a: int, b: int| 0 <= a < b < we.len() implies we[a].name
                != we[b].name by {
                assert(we[a] == w[a]);
                if b == w.len() {
                    assert(w[a].name != profile@);
                } else {
                    assert(we[b] == w[b]);
                }
            }
            assert(distinct_names(we));
        }
        let ghost before = views(kept@);
        kept.push(CredentialsProfile { profile_name: profile, credentials });
        assert(views(kept@) == before.push(Entry { name: profile@, credentials: credentials@ }));
        self.profiles = kept;
    }

    /// Reads a store at `now` from the text of its cache file, with the
    /// expirations that `table` records.
    ///
    /// A section that lacks one of its two keys is an error. A section
    /// whose recorded expiration has passed, or that carries a session
    /// token without a recorded expiration, is left out, and so is a
    /// section whose name an earlier entry already has.
    pub fn load(text: &str, table: &CredentialExpirations, now: &Timestamp) -> (r: Result<
        Self,
        StoreError,
    >)
        ensures
            match r {
                Ok(file) => load(text@, table@, *now) == Ok::<Seq<Entry>, (Seq<char>, Property)>(
                    file@,
                ) && distinct_names(file@),
                Err(e) => e matches StoreError::MissingProperty { profile, property } && load(
                    text@,
                    table@,
                    *now,
                ) == Err::<Seq<Entry>, (Seq<char>, Property)>((profile@, property)),
            },
    {
        let chars = chars_of(text);
        let sections = parse_sections(chars.as_slice());
        let ghost all = views(sections@);
        match find_incomplete(&sections) {
            Some(i) => {
                let property = if sections[i].access_key_id.is_none() {
                    Property::AccessKeyId
                } else {
                    Property::SecretAccessKey
                };
                proof {
                    lemma_first_incomplete(all);
                    assert(all[i as int] == sections@[i as int]@);
                    assert(missing(all[i as int]) == Some(property));
                }
                return Err(
                    StoreError::MissingProperty {
                        profile: ProfileName::new(sections[i].name.as_str()),
                        property,
                    },
                );
            },
            None => {},
        }
        let mut profiles: Vec<CredentialsProfile> = Vec::new();
        let mut i: usize = 0;
        assert(views(profiles@) == Seq::<Entry>::empty());
        while i < sections.len()
            invariant
                i <= sections.len(),
                all == views(sections@),
                first_incomplete(all) is None,
                views(profiles@) == admitted(all.take(i as int), table@, *now),
            decreases sections.len() - i,
        {
            proof {
                assert(all.take(i + 1).drop_last() == all.take(i as int));
                lemma_first_incomplete(all);
                assert(missing(all[i as int]) is None);
            }
            let section = &sections[i];
            let name = ProfileName::new(section.name.as_str());
            let expires_at = table.lookup(&name);
            let may_be_used = match expires_at {
                Some(at) => !now.is_after(&at),
                None => section.session_token.is_none(),
            };
            if may_be_used && index_of(&profiles, &name).is_none() {
                let key = match &section.access_key_id {
                    Some(k) => k.clone(),
                    None => String::new(),
                };
                let secret = match &section.secret_access_key {
                    Some(k) => k.clone(),
                    None => String::new(),
                };
                let ghost before = views(profiles@);
                let entry = CredentialsProfile {
                    profile_name: name,
                    credentials: Credentials {
                        access_key_id: key,
                        secret_access_key: secret,
                        session_token: copy_of(&section.session_token),
                        expires_at,
                    },
                };
                assert(entry@ == entry_of(all[i as int], expiration(table@, all[i as int].name)));
                profiles.push(entry);
                assert(views(profiles@) == before.push(entry@));
            }
            i += 1;
        }
        proof {
            assert(all.take(i as int) == all);
            lemma_admitted(all, table@, *now);
        }
        Ok(CredentialsFile { profiles })
    }

    /// Reads a store at `now` from the text of its two documents, each
    /// `None` where the document does not exist. Without a cache file the
    /// store is empty, whatever the side table holds; with one, a side
    /// table that cannot be read is an error.
    pub fn read(content: Option<&str>, expirations: Option<&str>, now: &Timestamp) -> (r: Result<
        Self,
        StoreError,
    >)
        ensures
            match content {
                None => (r matches Ok(file) && file@ == Seq::<Entry>::empty()),
                Some(text) => match r {
                    Ok(file) => load(text@, side_table(expirations).unwrap(), *now) == Ok::<
                        Seq<Entry>,
                        (Seq<char>, Property),
                    >(file@) && side_table(expirations) is Some,
                    Err(StoreError::Expirations(e)) => side_table(expirations) is None && e
                        is Malformed,
                    Err(StoreError::MissingProperty { profile, property }) => side_table(
                        expirations,
                    ) is Some && load(text@, side_table(expirations).unwrap(), *now) == Err::<
                        Seq<Entry>,
                        (Seq<char>, Property),
                    >((profile@, property)),
                },
            },
    {
        match content {
            None => Ok(CredentialsFile::new()),
            Some(text) => match CredentialExpirations::read(expirations) {
                Ok(table) => CredentialsFile::load(text, &table, now),
                Err(e) => Err(StoreError::Expirations(e)),
            },
        }
    }

    /// The side table of the store: the expiration of each entry that
    /// has one.
    pub fn expirations(&self) -> (r: CredentialExpirations)
        ensures
            r@ == recorded(self@),
    {
        let mut rows: Vec<crate::expirations::Expiration> = Vec::new();
        let ghost all = views(self.profiles@);
        let mut i: usize = 0;
        assert(views(rows@) == Seq::<(Seq<char>, i64, u32)>::empty());
        while i < self.profiles.len()
            invariant
                i <= self.profiles.len(),
                all == views(self.profiles@),
                views(rows@) == recorded(all.take(i as int)),
            decreases self.profiles.len() - i,
        {
            assert(all.take(i + 1).drop_last() == all.take(i as int));
            match self.profiles[i].credentials.expires_at {
                Some(at) => {
                    let ghost before = views(rows@);
                    let row = crate::expirations::Expiration {
                        profile: self.profiles[i].profile_name.clone(),
                        at,
                    };
                    rows.push(row);
                    assert(views(rows@) == before.push(row@));
                },
                None => {},
            }
            i += 1;
        }
        assert(all.take(i as int) == all);
        CredentialExpirations(rows)
    }

    /// The text of the two documents that hold the store: the cache file
    /// with one section for each entry, in their order, and the side
    /// table with the expirations.
    pub fn write(&self) -> (r: Result<StoreImage, StoreError>)
        ensures
            match r {
                Ok(image) => image.credentials@ == render(self@) && expiration_document(
                    recorded(self@),
                ) == Some(image.expirations@),
                Err(e) => expiration_document(recorded(self@)) is None && e
                    matches StoreError::Expirations(TableError::OutOfRange),
            },
    {
        match self.expirations().write() {
            Ok(expirations) => Ok(
                StoreImage { credentials: render_entries(&self.profiles), expirations },
            ),
            Err(e) => Err(StoreError::Expirations(e)),
        }
    }

    /// The name and the expiration of each entry, in their order.
    pub fn get_current_credentials_data(&self) -> (r: Vec<CredentialsData>)
        ensures
            r.len() == self@.len(),
            forall|i: int|
                0 <= i < r.len() ==> (#[trigger] r[i]).profile_name@ == self@[i].name
                    && r[i].expires_at == self@[i].credentials.expires_at,
    {
        let mut r: Vec<CredentialsData> = Vec::new();
        let mut i: usize = 0;
        while i < self.profiles.len()
            invariant
                i <= self.profiles.len(),
                r.len() == i,
                forall|k: int|
                    0 <= k < i ==> (#[trigger] r[k]).profile_name@ == self@[k].name
                        && r[k].expires_at == self@[k].credentials.expires_at,
            decreases self.profiles.len() - i,
        {
            r.push(
                CredentialsData {
                    profile_name: self.profiles[i].profile_name.0.clone(),
                    expires_at: self.profiles[i].credentials.expires_at,
                },
            );
            i += 1;
        }
        r
    }
}

} // verus!
