//! The side table of the credential cache: when the credentials of each
//! profile expire. The cache file itself has no place for this.
//!
//! The table is kept in a TOML document that maps each profile's name to
//! an RFC 3339 date and time. Reading and writing that document is left
//! to the `toml` and `chrono` crates.

use std::collections::BTreeMap;
use vstd::prelude::*;
use crate::credentials::{optional_text, views, ProfileName};
use crate::time::Timestamp;

verus! {

/// The error with which `toml` refuses a document.
#[verifier::external_type_specification]
#[verifier::external_body]
pub struct ExTomlError(toml::de::Error);

/// The instant at which the credentials of one profile expire.
#[derive(Debug)]
pub struct Expiration {
    pub profile: ProfileName,
    pub at: Timestamp,
}

impl View for Expiration {
    type V = (Seq<char>, i64, u32);

    open spec fn view(&self) -> (Seq<char>, i64, u32) {
        (self.profile@, self.at.secs, self.at.nanos)
    }
}

/// The table that a TOML document of expirations holds, one row for each
/// key, or `None` where the text is no such document.
pub uninterp spec fn expiration_table(content: Seq<char>) -> Option<Seq<(Seq<char>, i64, u32)>>;

/// The TOML document that holds the rows of a table, or `None` where a
/// row's instant cannot be written as a date.
pub uninterp spec fn expiration_document(table: Seq<(Seq<char>, i64, u32)>) -> Option<Seq<char>>;

/// Calls `toml::from_str` for a map from strings to `chrono` dates, and
/// hands out each entry of the map as a row, in the order of the keys.
/// The rows are those of `expiration_table`; an error comes back exactly
/// where that is `None`.
#[verifier::external_body]
fn decode(content: &str) -> (r: Result<Vec<Expiration>, toml::de::Error>)
    ensures
        match r {
            Ok(rows) => expiration_table(content@) == Some(views(rows@)),
            Err(_) => expiration_table(content@) is None,
        },
{
    let table: BTreeMap<String, chrono::DateTime<chrono::Utc>> = toml::from_str(content)?;
    Ok(
        table.into_iter().map(
            |(name, at)|
                Expiration {
                    profile: ProfileName(name),
                    at: Timestamp { secs: at.timestamp(), nanos: at.timestamp_subsec_nanos() },
                },
        ).collect(),
    )
}

/// The text of a `toml` error. Nothing is claimed of it.
#[verifier::external_body]
fn describe(error: &toml::de::Error) -> String {
    error.to_string()
}

/// Makes a `chrono` date of each row with `DateTime::from_timestamp`,
/// gathers the rows in a map, a later row replacing an earlier one of the
/// same name, and calls `toml::to_string` on the map. The result is
/// `expiration_document` of the rows.
#[verifier::external_body]
fn encode(rows: &Vec<Expiration>) -> (r: Option<String>)
    ensures
        optional_text(r) == expiration_document(views(rows@)),
{
    let mut table: BTreeMap<String, chrono::DateTime<chrono::Utc>> = BTreeMap::new();
    for row in rows.iter() {
        let at = chrono::DateTime::from_timestamp(row.at.secs, row.at.nanos)?;
        table.insert(row.profile.0.clone(), at);
    }
    toml::to_string(&table).ok()
}

/// The instant that a table records for `name`: that of the last row of
/// that name.
pub open spec fn expiration(table: Seq<(Seq<char>, i64, u32)>, name: Seq<char>) -> Option<
    Timestamp,
>
    decreases table.len(),
{
    if table.len() == 0 {
        None
    } else if table.last().0 == name {
        Some(Timestamp { secs: table.last().1, nanos: table.last().2 })
    } else {
        expiration(table.drop_last(), name)
    }
}

/// Why a table of expirations could not be read or written.
#[derive(Debug)]
pub enum TableError {
    /// The text is not a TOML document of dates; the text says why.
    Malformed(String),
    /// A row's instant lies outside the dates that can be written.
    OutOfRange,
}

/// The expirations of the cached credentials, by profile.
#[derive(Debug)]
pub struct CredentialExpirations(pub Vec<Expiration>);

impl View for CredentialExpirations {
    type V = Seq<(Seq<char>, i64, u32)>;

    open spec fn view(&self) -> Seq<(Seq<char>, i64, u32)> {
        views(self.0@)
    }
}

impl CredentialExpirations {
    /// A table without rows.
    pub fn new() -> (r: Self)
        ensures
            r@ == Seq::<(Seq<char>, i64, u32)>::empty(),
    {
        let r = CredentialExpirations(Vec::new());
        assert(r@ == Seq::<(Seq<char>, i64, u32)>::empty());
        r
    }

    /// Records that the credentials of `profile` expire at `at`.
    pub fn insert(&mut self, profile: ProfileName, at: Timestamp)
        ensures
            final(self)@ == old(self)@.push((profile@, at.secs, at.nanos)),
            expiration(final(self)@, profile@) == Some(at),
            forall|other: Seq<char>|
                other != profile@ ==> expiration(final(self)@, other) == expiration(
                    old(self)@,
                    other,
                ),
    {
        let ghost before = self@;
        self.0.push(Expiration { profile, at });
        assert(self@ == before.push((profile@, at.secs, at.nanos)));
        assert(self@.drop_last() == before);
    }

    /// Reads the table from the text of its document. A document that
    /// does not exist is an empty table.
    pub fn read(content: Option<&str>) -> (r: Result<Self, TableError>)
        ensures
            match content {
                None => r matches Ok(table) && table@ == Seq::<(Seq<char>, i64, u32)>::empty(),
                Some(text) => match r {
                    Ok(table) => expiration_table(text@) == Some(table@),
                    Err(e) => expiration_table(text@) is None && e is Malformed,
                },
            },
    {
        match content {
            None => Ok(CredentialExpirations::new()),
            Some(text) => match decode(text) {
                Ok(rows) => Ok(CredentialExpirations(rows)),
                Err(e) => Err(TableError::Malformed(describe(&e))),
            },
        }
    }

    /// The instant recorded for `profile`.
    pub fn lookup(&self, profile: &ProfileName) -> (r: Option<Timestamp>)
        ensures
            r == expiration(self@, profile@),
    {
        let mut i: usize = self.0.len();
        assert(self@.take(i as int) == self@);
        while i > 0
            invariant
                i <= self.0.len(),
                expiration(self@, profile@) == expiration(self@.take(i as int), profile@),
            decreases i,
        {
            assert(self@.take(i as int).drop_last() == self@.take(i - 1));
            i -= 1;
            if self.0[i].profile.is(profile) {
                return Some(self.0[i].at);
            }
        }
        None
    }

    /// The instant that the document `content` records for `profile`.
    pub fn get(content: Option<&str>, profile: &str) -> (r: Result<Option<Timestamp>, TableError>)
        ensures
            match content {
                None => r == Ok::<Option<Timestamp>, TableError>(None),
                Some(text) => match r {
                    Ok(at) => expiration_table(text@) matches Some(table) && at == expiration(
                        table,
                        profile@,
                    ),
                    Err(e) => expiration_table(text@) is None && e is Malformed,
                },
            },
    {
        match CredentialExpirations::read(content) {
            Ok(table) => {
                let name = ProfileName::new(profile);
                Ok(table.lookup(&name))
            },
            Err(e) => Err(e),
        }
    }

    /// The text of the document that holds the table.
    pub fn write(&self) -> (r: Result<String, TableError>)
        ensures
            match r {
                Ok(text) => expiration_document(self@) == Some(text@),
                Err(e) => expiration_document(self@) is None && e is OutOfRange,
            },
    {
        match encode(&self.0) {
            Some(text) => Ok(text),
            None => Err(TableError::OutOfRange),
        }
    }
}

} // verus!
