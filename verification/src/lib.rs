//! Short-lived cloud credentials for named profiles.
//!
//! A profile is reached from the main profile, whose credentials are
//! given, over a chain of roles and an MFA session. The credentials of
//! every profile on the way are cached with their expiration, so that a
//! profile is only assumed anew when what is cached for it runs out.
//!
//! [`resolver`] finds what has to be done for a profile, [`credentials`]
//! and [`cache_text`] keep the cache, [`config`] holds the profiles. The
//! library reads no file and calls no service: it is handed texts and
//! answers, and says what to do next.

pub mod cache_laws;
pub mod cache_text;
pub mod config;
pub mod credentials;
pub mod expirations;
pub mod init;
pub mod prompt;
pub mod resolver;
pub mod schedule;
pub mod text;
pub mod time;
pub mod util;
pub mod version;
pub mod web_console;
