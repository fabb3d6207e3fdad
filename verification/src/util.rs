//! Paths below the user's home directory.

use vstd::prelude::*;
use vstd::string::StringExecFns;
use crate::text::{chars_of, replace, replace_in};

verus! {

/// The directory in which the program keeps its own files.
pub const STORAGE_DIR: &'static str = "~/.local/share/awscredx";

/// How a path names the home directory, in one way and in the other.
pub const TILDE: &'static str = "~";

pub const HOME_VARIABLE: &'static str = "$HOME";

/// `path` with the home directory `home` in place of every `~`, and then
/// of every `$HOME`.
pub open spec fn absolute(path: Seq<char>, home: Seq<char>) -> Seq<char> {
    replace(replace(path, TILDE@, home), HOME_VARIABLE@, home)
}

/// `path` with `$HOME` in place of every occurrence of the home
/// directory `home`, and then of every `~`.
pub open spec fn home_based(path: Seq<char>, home: Seq<char>) -> Seq<char> {
    replace(replace(path, home, HOME_VARIABLE@), TILDE@, HOME_VARIABLE@)
}

/// `more` below the directory `base`: `more` itself where it begins at
/// the root, else `base`, a separator unless `base` is empty or ends in
/// one, and `more`.
pub open spec fn joined(base: Seq<char>, more: Seq<char>) -> Seq<char> {
    if more.len() > 0 && more[0] == '/' {
        more
    } else if base.len() == 0 || base.last() == '/' {
        base + more
    } else {
        base + seq!['/'] + more
    }
}

/// The path that `path` stands for when the home directory is `home`.
pub fn path_to_absolute(path: &str, home: &str) -> (r: String)
    ensures
        r@ == absolute(path@, home@),
{
    let first = replace_in(path, TILDE, home);
    replace_in(first.as_str(), HOME_VARIABLE, home)
}

/// `path` as it is written when the home directory `home` is not to be
/// spelled out.
pub fn home_based_path(path: &str, home: &str) -> (r: String)
    ensures
        r@ == home_based(path@, home@),
{
    let first = replace_in(path, home, HOME_VARIABLE);
    replace_in(first.as_str(), TILDE, HOME_VARIABLE)
}

/// The path of `more` below the directory `base`.
pub fn join_path(base: &str, more: &str) -> (r: String)
    ensures
        r@ == joined(base@, more@),
{
    let b = chars_of(base);
    let m = chars_of(more);
    if m.len() > 0 && m[0] == '/' {
        more.to_owned()
    } else {
        let mut r = base.to_owned();
        if b.len() > 0 && b[b.len() - 1] != '/' {
            r.push('/');
        }
        r.append(more);
        r
    }
}

} // verus!
